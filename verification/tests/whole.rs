use std::collections::BTreeMap;

use qortex::catalog::{
    DatabaseId, Distance, IndexId, IndexKeyBase, NamespaceId, QortexParams, TableId, TableName,
};
use qortex::change::IndexOp;
use qortex::index::QortexIndex;
use qortex::knn::KnnStep;
use qortex::rebuild::{Load, ScanEntry};
use qortex::segment::PointId;
use qortex::slot::{SegmentSlot, Swap};
use qortex::vector::{QortexVecValue, RecordIdKey, SerializedVector, Value, VectorType};

/// A store that several indexes share, or what a transaction sees of it.
#[derive(Clone, Default)]
struct Store {
    counters: BTreeMap<u32, u64>,
    ids: BTreeMap<(u32, Vec<u8>), u64>,
    points: BTreeMap<Vec<u8>, (Vec<u8>, Vec<u32>)>,
}

/// An index with its segment.
struct System {
    ix: QortexIndex,
    slot: SegmentSlot,
    segment: BTreeMap<u64, Vec<u32>>,
}

impl System {
    fn new(ix: u32) -> System {
        let ikb = IndexKeyBase {
            ns: NamespaceId(1),
            db: DatabaseId(2),
            tb: TableName::from("testtb"),
            ix: IndexId(ix),
        };
        let p = QortexParams {
            dimension: 1,
            distance: Distance::Euclidean,
            vector_type: VectorType::U8,
        };
        let (ix, _, slot) = QortexIndex::new(ikb, TableId(4), &p).unwrap();
        System { ix, slot, segment: BTreeMap::new() }
    }

    fn point_key(&self, point_id: u64) -> Vec<u8> {
        self.ix.ikb.new_qv_key(point_id).encode_key().unwrap()
    }

    /// Makes a change in a transaction of its own.
    fn change(&mut self, st: &mut Store, name: &str, x: Option<u8>) {
        self.write(st, name, x);
        self.slot.settle();
    }

    /// Makes a change in a transaction that sees `st`.
    fn write(&mut self, st: &mut Store, name: &str, x: Option<u8>) {
        let n = self.ix.ikb.ix.0;
        let id = RecordIdKey { bytes: name.as_bytes().to_vec() };
        let new = x.map(|x| vec![Value::Present(Ok(SerializedVector::U8(vec![x])))]);
        let mut op = self.ix.index(&id, Some(vec![]), new).unwrap();
        loop {
            let mut reply = None;
            match &op {
                IndexOp::Finished => return,
                IndexOp::BeginWrite { .. } | IndexOp::BeginRemoval { .. } => {
                    self.slot.mark_stale()
                }
                IndexOp::FindPoint { id, .. } | IndexOp::FindPointToRemove { id } => {
                    reply = st.ids.get(&(n, id.bytes.clone())).copied()
                }
                IndexOp::ReadCounter { .. } => reply = st.counters.get(&n).copied(),
                IndexOp::WriteCounter { next, .. } => {
                    st.counters.insert(n, *next);
                }
                IndexOp::WritePoint { point_id, payload } => {
                    let entry = (payload.rid.bytes.clone(), payload.vector.clone());
                    st.points.insert(self.point_key(*point_id), entry);
                }
                IndexOp::WritePointId { id, point_id } => {
                    st.ids.insert((n, id.bytes.clone()), *point_id);
                }
                IndexOp::RemovePoint { point_id, .. } => {
                    st.points.remove(&self.point_key(*point_id));
                }
                IndexOp::RemovePointId { id } => {
                    st.ids.remove(&(n, id.bytes.clone()));
                }
            }
            op = op.advance(reply);
        }
    }

    /// Brings the segment up to date in a transaction that begins now and sees `st`.
    fn refresh(&mut self, st: &Store, batch_size: usize) {
        let started = self.slot.epoch;
        if let Some(segment) = self.scan(st, batch_size) {
            self.install(segment, started);
        }
    }

    /// What a rebuild reads in a transaction that sees `st`.
    fn scan(&self, st: &Store, batch_size: usize) -> Option<BTreeMap<u64, Vec<u32>>> {
        let mut rebuild = self.ix.check_state(self.slot.loaded).unwrap()?;
        let mut scan: Vec<ScanEntry> = st
            .points
            .range(rebuild.range.clone())
            .map(|(k, (rid, vector))| ScanEntry {
                key: k.clone(),
                payload: Ok(QortexVecValue {
                    rid: RecordIdKey { bytes: rid.clone() },
                    vector: vector.clone(),
                }),
            })
            .collect();
        let mut segment = BTreeMap::new();
        loop {
            let n = batch_size.min(scan.len());
            let batch: Vec<ScanEntry> = scan.drain(..n).collect();
            match rebuild.load(&batch).unwrap() {
                Load::Insert { upserts } => {
                    for u in upserts {
                        segment.insert(u.id, u.vector);
                    }
                }
                Load::Complete => break,
            }
        }
        Some(segment)
    }

    fn install(&mut self, segment: BTreeMap<u64, Vec<u32>>, started: u64) {
        if let Swap::Installed { .. } = self.slot.swap("next".to_string(), started) {
            self.segment = segment;
        }
    }

    fn points(&self) -> Vec<u64> {
        self.segment.keys().copied().collect()
    }

    /// The records that hits on the given points lead to.
    fn resolve(&self, st: &Store, points: &[u64]) -> Vec<String> {
        let hits = points.iter().map(|p| (PointId::NumId(*p), 0)).collect();
        let mut search = self.ix.knn_search(hits);
        loop {
            match search.step() {
                KnnStep::Done { results } => {
                    return results
                        .iter()
                        .map(|r| String::from_utf8(r.record.key.bytes.clone()).unwrap())
                        .collect();
                }
                KnnStep::Fetch { point_id, pending } => {
                    let entry = st.points.get(&self.point_key(point_id));
                    search = pending.reply(entry.map(|(rid, vector)| QortexVecValue {
                        rid: RecordIdKey { bytes: rid.clone() },
                        vector: vector.clone(),
                    }));
                }
            }
        }
    }
}

#[test]
fn what_is_indexed_is_found() {
    let mut st = Store::default();
    let (mut one, mut two) = (System::new(1), System::new(2));
    one.change(&mut st, "a", Some(1));
    two.change(&mut st, "z", Some(9));
    one.change(&mut st, "b", Some(2));
    one.refresh(&st, 1);
    two.refresh(&st, 10);
    assert!(one.slot.loaded && two.slot.loaded);
    assert_eq!(one.segment.len(), 2);
    assert_eq!(one.segment[&0], [1.0f32.to_bits()]);
    assert_eq!(one.segment[&1], [2.0f32.to_bits()]);
    assert_eq!(two.segment.len(), 1);
    assert_eq!(two.segment[&0], [9.0f32.to_bits()]);
    assert_eq!(one.resolve(&st, &[1, 0]), ["b", "a"]);
    assert_eq!(two.resolve(&st, &[0, 1]), ["z"]);
}

#[test]
fn what_is_removed_is_not_found() {
    let mut st = Store::default();
    let mut one = System::new(1);
    for (name, x) in [("a", 1), ("b", 2), ("c", 3)] {
        one.change(&mut st, name, Some(x));
    }
    one.refresh(&st, 2);
    one.change(&mut st, "b", None);
    assert!(!one.slot.loaded);
    // The segment still holds the point, and the search passes over it.
    assert_eq!(one.segment.len(), 3);
    assert_eq!(one.resolve(&st, &[2, 1, 0]), ["c", "a"]);
    one.refresh(&st, 2);
    assert_eq!(one.segment.keys().copied().collect::<Vec<u64>>(), [0, 2]);
}

#[test]
fn the_size_of_batches_makes_no_difference() {
    let mut st = Store::default();
    let mut one = System::new(1);
    for x in 0..7 {
        one.change(&mut st, &format!("r{}", x), Some(x));
    }
    one.refresh(&st, 100);
    let whole = one.segment.clone();
    assert_eq!(whole.len(), 7);
    for size in 1..7 {
        one.slot.mark_stale();
        one.slot.settle();
        one.segment.clear();
        one.refresh(&st, size);
        assert_eq!(one.segment, whole);
    }
}

#[test]
fn a_point_that_was_rolled_back_leaves_the_segment() {
    let mut one = System::new(1);
    let mut committed = Store::default();
    one.change(&mut committed, "a", Some(1));
    // A transaction writes, searches for what it wrote, and is rolled back.
    let started = one.slot.epoch;
    let mut view = committed.clone();
    one.write(&mut view, "b", Some(2));
    let segment = one.scan(&view, 10).unwrap();
    one.install(segment, started);
    assert_eq!(one.points(), [0, 1]);
    assert!(!one.slot.loaded);
    one.slot.settle();
    one.refresh(&committed, 10);
    assert!(one.slot.loaded);
    assert_eq!(one.points(), [0]);
}

#[test]
fn a_commit_after_a_rebuild_is_seen() {
    let mut one = System::new(1);
    let mut committed = Store::default();
    one.change(&mut committed, "a", Some(1));
    let mut view = committed.clone();
    one.write(&mut view, "b", Some(2));
    // Another transaction rebuilds, and does not see the point.
    one.refresh(&committed, 10);
    assert_eq!(one.points(), [0]);
    assert!(!one.slot.loaded);
    committed = view;
    // The commit is there and not yet settled.
    one.refresh(&committed, 10);
    assert_eq!(one.points(), [0, 1]);
    assert!(!one.slot.loaded);
    one.slot.settle();
    one.refresh(&committed, 10);
    assert_eq!(one.points(), [0, 1]);
    assert!(one.slot.loaded);
}

#[test]
fn a_change_during_a_rebuild_is_not_lost() {
    let mut one = System::new(1);
    let mut committed = Store::default();
    one.change(&mut committed, "a", Some(1));
    let started = one.slot.epoch;
    let segment = one.scan(&committed, 10).unwrap();
    one.change(&mut committed, "b", Some(2));
    one.install(segment, started);
    assert_eq!(one.points(), [0]);
    assert!(!one.slot.loaded);
    one.refresh(&committed, 10);
    assert_eq!(one.points(), [0, 1]);
    assert!(one.slot.loaded);
}

#[test]
fn a_transaction_that_began_before_a_commit_leaves_the_segment_stale() {
    let mut one = System::new(1);
    let mut committed = Store::default();
    let started = one.slot.epoch;
    let view = committed.clone();
    one.change(&mut committed, "a", Some(1));
    // The commit is settled, and the reading transaction does not see it.
    let segment = one.scan(&view, 10).unwrap();
    one.install(segment, started);
    assert!(one.points().is_empty());
    assert!(!one.slot.loaded);
    one.refresh(&committed, 10);
    assert_eq!(one.points(), [0]);
    assert!(one.slot.loaded);
}
