use std::collections::BTreeMap;

use qortex::catalog::{
    DatabaseId, Distance, IndexId, IndexKeyBase, NamespaceId, QortexParams, TableId, TableName,
};
use qortex::codec::DecodeFault;
use qortex::dirs::Directories;
use qortex::index::{QortexIndex, StateError};
use qortex::knn::KnnStep;
use qortex::qv::{KeyError, Qv};
use qortex::rebuild::{Load, RebuildError, ScanEntry};
use qortex::segment::{
    IndexType, PayloadStorageType, PointId, QortexSegment, ScoredPoint, SegmentDistance,
    UnsupportedDistance, VectorStorageType,
};
use qortex::slot::{segment_dir, unique_dir, SegmentSlot, Swap, NO_EPOCH};
use qortex::vector::{QortexVecValue, RecordIdKey, VectorType};

fn ikb() -> IndexKeyBase {
    IndexKeyBase {
        ns: NamespaceId(1),
        db: DatabaseId(2),
        tb: TableName::from("testtb"),
        ix: IndexId(3),
    }
}

fn index(distance: Distance) -> QortexIndex {
    QortexIndex {
        dim: 2,
        distance,
        vector_type: VectorType::F32,
        table_id: TableId(4),
        ikb: ikb(),
    }
}

fn payload(name: &str, vector: Vec<u32>) -> QortexVecValue {
    QortexVecValue { rid: RecordIdKey { bytes: name.as_bytes().to_vec() }, vector }
}

fn entry(point_id: u64, name: &str, vector: Vec<u32>) -> ScanEntry {
    ScanEntry {
        key: ikb().new_qv_key(point_id).encode_key().unwrap(),
        payload: Ok(payload(name, vector)),
    }
}

#[test]
fn distances_map_to_the_segment() {
    let map = |d: Distance| QortexIndex::map_distance(&d);
    assert_eq!(map(Distance::Cosine), Ok(SegmentDistance::Cosine));
    assert_eq!(map(Distance::CosineNormalized), Ok(SegmentDistance::Cosine));
    assert_eq!(map(Distance::Euclidean), Ok(SegmentDistance::Euclid));
    assert_eq!(map(Distance::InnerProduct), Ok(SegmentDistance::Dot));
    assert_eq!(map(Distance::Manhattan), Ok(SegmentDistance::Manhattan));
    for d in [
        Distance::Chebyshev,
        Distance::Hamming,
        Distance::Jaccard,
        Distance::Minkowski,
        Distance::Pearson,
    ] {
        assert_eq!(map(d), Err(UnsupportedDistance { distance: d }));
        assert_eq!(
            map(d).unwrap_err().message(),
            "QORTEX supports COSINE, COSINE_NORMALIZED, EUCLIDEAN, INNER_PRODUCT, and MANHATTAN distances"
        );
    }
}

#[test]
fn a_new_index_has_an_empty_segment() {
    let p = QortexParams {
        dimension: 1536,
        distance: Distance::InnerProduct,
        vector_type: VectorType::I16,
    };
    let (ix, segment, slot) = QortexIndex::new(ikb(), TableId(9), &p).unwrap();
    assert_eq!((ix.dim, ix.distance), (1536, Distance::InnerProduct));
    assert_eq!((ix.vector_type, ix.table_id), (VectorType::I16, TableId(9)));
    assert_eq!(ix.ikb.tb.as_str(), "testtb");
    assert_eq!((segment.config.size, segment.op), (1536, 0));
    assert_eq!(segment.config.distance, SegmentDistance::Dot);
    assert_eq!(segment.config.index, IndexType::Plain);
    assert_eq!(segment.config.storage_type, VectorStorageType::InRamChunkedMmap);
    assert_eq!(segment.config.payload_storage_type, PayloadStorageType::InRamMmap);
    assert_eq!((slot.loaded, slot.epoch, slot.unsettled), (false, 1, 0));
    assert!(slot.dir.starts_with("surreal_qortex_"));
    let p = QortexParams { distance: Distance::Pearson, ..p };
    assert!(QortexIndex::new(ikb(), TableId(9), &p).is_err());
}

#[test]
fn an_index_created_anew_starts_above_what_was_noted() {
    let mut slot = SegmentSlot::new("a".to_string());
    let noted = slot.epoch;
    assert_ne!(noted, NO_EPOCH);
    slot.mark_stale();
    slot.settle();
    assert!(matches!(slot.swap("b".to_string(), slot.epoch), Swap::Installed { .. }));
    slot.mark_stale();
    assert_eq!(slot.reopen("c".to_string()), "b");
    assert_eq!((slot.dir.as_str(), slot.loaded), ("c", false));
    assert_eq!((slot.epoch, slot.unsettled), (5, 1));
    // The change of before is still waited for.
    slot.swap("d".to_string(), slot.epoch);
    assert!(!slot.loaded);
    slot.settle();
    for old in [NO_EPOCH, noted, 2, 3, 4, 5] {
        slot.swap("e".to_string(), old);
        assert!(!slot.loaded);
    }
    slot.swap("f".to_string(), 6);
    assert!(slot.loaded);
}

#[test]
fn a_directory_in_use_is_not_given_out() {
    let mut dirs = Directories::default();
    assert_eq!(dirs.claim("a".to_string()), Some("a".to_string()));
    assert_eq!(dirs.claim("b".to_string()), Some("b".to_string()));
    assert_eq!(dirs.claim("a".to_string()), None);
    assert!(dirs.contains(&"a".to_string()) && !dirs.contains(&"c".to_string()));
    dirs.release(&"a".to_string());
    dirs.release(&"c".to_string());
    assert_eq!(dirs.names, ["b"]);
    assert_eq!(dirs.claim("a".to_string()), Some("a".to_string()));
    let x = dirs.draw().unwrap();
    let y = dirs.draw().unwrap();
    assert_ne!(x, y);
    assert!(x.starts_with("surreal_qortex_"));
    assert_eq!(dirs.claim(x), None);
    assert_eq!(dirs.names.len(), 4);
}

#[test]
fn directories_are_named_by_a_fresh_id() {
    assert_eq!(segment_dir("7"), "surreal_qortex_7");
    let (a, b) = (unique_dir(), unique_dir());
    assert_ne!(a, b);
    let id = a.strip_prefix("surreal_qortex_").unwrap();
    let parsed = uuid::Uuid::parse_str(id).unwrap();
    assert_eq!(parsed.get_version_num(), 7);
    assert_eq!(parsed.to_string(), id);
}

#[test]
fn a_current_segment_is_not_rebuilt() {
    assert!(index(Distance::Cosine).check_state(true).unwrap().is_none());
    assert!(index(Distance::Hamming).check_state(true).unwrap().is_none());
}

#[test]
fn a_stale_segment_is_rebuilt_from_its_range() {
    let r = index(Distance::Manhattan).check_state(false).unwrap().unwrap();
    assert_eq!((r.segment.config.size, r.segment.op), (2, 0));
    assert_eq!(r.segment.config.distance, SegmentDistance::Manhattan);
    assert!(r.range.contains(&ikb().new_qv_key(0).encode_key().unwrap()));
    assert!(r.range.contains(&ikb().new_qv_key(u64::MAX).encode_key().unwrap()));
    assert_eq!(r.range, ikb().new_qv_range().unwrap());
    match index(Distance::Hamming).check_state(false) {
        Err(e) => assert_eq!(
            e,
            StateError::Distance(UnsupportedDistance { distance: Distance::Hamming })
        ),
        Ok(_) => panic!("no such metric"),
    }
}

#[test]
fn a_scan_becomes_numbered_writes() {
    let mut r = index(Distance::Cosine).check_state(false).unwrap().unwrap();
    let mut segment: BTreeMap<u64, Vec<u32>> = BTreeMap::new();
    let mut ops = Vec::new();
    let scan = vec![
        vec![entry(0, "a", vec![1, 2]), entry(3, "b", vec![3, 4])],
        vec![entry(u64::MAX, "c", vec![5, 6])],
        vec![],
    ];
    let mut ended = false;
    for batch in &scan {
        match r.load(batch).unwrap() {
            Load::Insert { upserts } => {
                for u in upserts {
                    ops.push(u.op);
                    segment.insert(u.id, u.vector);
                }
            }
            Load::Complete => ended = true,
        }
    }
    assert!(ended);
    assert_eq!(ops, [1, 2, 3]);
    assert_eq!(r.segment.op, 3);
    assert_eq!(segment.len(), 3);
    assert_eq!(segment[&0], [1, 2]);
    assert_eq!(segment[&3], [3, 4]);
    assert_eq!(segment[&u64::MAX], [5, 6]);
}

#[test]
fn a_bad_entry_ends_the_rebuild() {
    let mut r = index(Distance::Cosine).check_state(false).unwrap().unwrap();
    let bad_key = || ScanEntry { key: vec![1, 2, 3], payload: Err("bad".to_string()) };
    let bad_payload = || ScanEntry { payload: Err("bad".to_string()), ..entry(1, "a", vec![]) };
    match r.load(&vec![entry(0, "a", vec![1, 2]), bad_key()]) {
        Err(RebuildError::Key(e)) => {
            assert_eq!(e, KeyError::Decode(DecodeFault::UnexpectedEnd))
        }
        other => panic!("{:?}", other),
    }
    assert_eq!(r.segment.op, 1);
    match r.load(&vec![bad_payload(), bad_key()]) {
        Err(RebuildError::Payload(why)) => assert_eq!(why, "bad"),
        other => panic!("{:?}", other),
    }
    assert_eq!(r.segment.op, 1);
}

#[test]
fn writes_to_a_segment_are_numbered() {
    let mut s = QortexSegment::open(2, SegmentDistance::Dot);
    let a = s.insert(7, &vec![1, 2]);
    let b = s.insert(7, &vec![3, 4]);
    assert_eq!((a.op, a.id, a.vector), (1, 7, vec![1, 2]));
    assert_eq!((b.op, b.id, b.vector), (2, 7, vec![3, 4]));
}

#[test]
fn a_rebuilt_segment_is_swapped_in_once() {
    let mut slot = SegmentSlot::new("old".to_string());
    match slot.swap("new".to_string(), 1) {
        Swap::Installed { retired } => assert_eq!(retired, "old"),
        other => panic!("{:?}", other),
    }
    assert_eq!((slot.dir.as_str(), slot.loaded), ("new", true));
    match slot.swap("late".to_string(), 1) {
        Swap::Discarded { retired } => assert_eq!(retired, "late"),
        other => panic!("{:?}", other),
    }
    assert_eq!((slot.dir.as_str(), slot.loaded), ("new", true));
    slot.mark_stale();
    assert_eq!((slot.dir.as_str(), slot.loaded), ("new", false));
    assert!(matches!(slot.swap("next".to_string(), 2), Swap::Installed { .. }));
}

#[test]
fn changes_are_counted_until_they_are_settled() {
    let mut slot = SegmentSlot::new("dir".to_string());
    slot.mark_stale();
    slot.mark_stale();
    assert_eq!((slot.loaded, slot.epoch, slot.unsettled), (false, 3, 2));
    slot.settle();
    assert_eq!((slot.loaded, slot.epoch, slot.unsettled), (false, 4, 1));
    slot.settle();
    assert_eq!((slot.loaded, slot.epoch, slot.unsettled), (false, 5, 0));
    assert!(matches!(slot.swap("new".to_string(), 5), Swap::Installed { .. }));
    assert_eq!((slot.loaded, slot.epoch, slot.unsettled), (true, 5, 0));
    slot.mark_stale();
    slot.settle();
    assert_eq!((slot.loaded, slot.epoch, slot.unsettled), (false, 7, 0));
    assert_eq!(slot.dir, "new");
}

#[test]
fn a_rebuild_is_current_only_where_all_was_quiet() {
    // A change is open.
    let mut slot = SegmentSlot::new("a".to_string());
    slot.mark_stale();
    match slot.swap("b".to_string(), 2) {
        Swap::Installed { retired } => assert_eq!(retired, "a"),
        other => panic!("{:?}", other),
    }
    assert_eq!((slot.dir.as_str(), slot.loaded), ("b", false));
    // It was settled after the rebuild started.
    slot.settle();
    assert!(matches!(slot.swap("c".to_string(), 2), Swap::Installed { .. }));
    assert!(!slot.loaded);
    // Nothing happened since.
    assert!(matches!(slot.swap("d".to_string(), 3), Swap::Installed { .. }));
    assert_eq!((slot.dir.as_str(), slot.loaded), ("d", true));
}

#[test]
fn a_query_is_put_in_single_precision() {
    let ix = index(Distance::Cosine);
    let s = QortexSegment::open(2, SegmentDistance::Cosine);
    let q = ix.knn_query(&s, &vec![0.1f64.to_bits(), 2.0f64.to_bits()], 5);
    assert_eq!(q.vector, [0.1f32.to_bits(), 2.0f32.to_bits()]);
    assert_eq!((q.top, q.search_optimized_threshold_kb), (5, 20_000));
    assert!(!q.with_payload && !q.with_vector);
}

#[test]
fn the_first_result_of_a_batch_is_taken() {
    let p = |id: u64, score: u32| ScoredPoint { id: PointId::NumId(id), version: 1, score };
    assert_eq!(QortexSegment::found(&vec![]), []);
    assert_eq!(
        QortexSegment::found(&vec![vec![p(1, 9), p(2, 8)], vec![p(3, 7)]]),
        [(PointId::NumId(1), 9), (PointId::NumId(2), 8)]
    );
}

#[test]
fn hits_become_records_in_their_order() {
    let mut stored: BTreeMap<u64, &str> = BTreeMap::new();
    stored.insert(1, "a");
    stored.insert(3, "c");
    let one = 1.0f32.to_bits();
    let half = 0.5f32.to_bits();
    let hits = vec![
        (PointId::Uuid(1), one),
        (PointId::NumId(3), one),
        (PointId::NumId(2), one),
        (PointId::Uuid(3), half),
        (PointId::NumId(1), half),
    ];
    let mut search = index(Distance::Cosine).knn_search(hits);
    let mut fetched = Vec::new();
    let results = loop {
        match search.step() {
            KnnStep::Done { results } => break results,
            KnnStep::Fetch { point_id, pending } => {
                fetched.push(point_id);
                search = pending.reply(stored.get(&point_id).map(|name| payload(name, vec![])));
            }
        }
    };
    assert_eq!(fetched, [3, 2, 1]);
    let named: Vec<(&str, &[u8], f64)> = results
        .iter()
        .map(|r| (r.record.tb.as_str(), r.record.key.bytes.as_slice(), f64::from_bits(r.score)))
        .collect();
    assert_eq!(named, [("testtb", b"c".as_slice(), 1.0), ("testtb", b"a".as_slice(), 0.5)]);
}

#[test]
fn stored_keys_lead_back_to_their_points() {
    let k = ikb().new_qv_key(42).encode_key().unwrap();
    assert_eq!(Qv::decode_key(&k).unwrap().point_id, 42);
}
