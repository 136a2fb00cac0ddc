use std::collections::BTreeMap;

use qortex::catalog::{
    DatabaseId, Distance, IndexId, IndexKeyBase, NamespaceId, QortexParams, TableId, TableName,
};
use qortex::change::IndexOp;
use qortex::index::QortexIndex;
use qortex::vector::{RecordIdKey, SerializedVector, Value, VectorError, VectorType};

/// The three key families of an index, in memory.
#[derive(Clone, Debug, Default, PartialEq)]
struct Store {
    counter: Option<u64>,
    ids: BTreeMap<Vec<u8>, u64>,
    points: BTreeMap<u64, (Vec<u8>, Vec<u32>)>,
    loaded: bool,
}

impl Store {
    /// Performs the change, and counts its steps.
    fn run(&mut self, mut op: IndexOp) -> usize {
        let mut steps = 0;
        loop {
            let reply = match &op {
                IndexOp::Finished => return steps,
                IndexOp::BeginWrite { .. } | IndexOp::BeginRemoval { .. } => {
                    // The mark comes first, and once.
                    assert_eq!(steps, 0);
                    self.loaded = false;
                    None
                }
                IndexOp::FindPoint { id, .. } => self.ids.get(&id.bytes).copied(),
                IndexOp::ReadCounter { .. } => self.counter,
                IndexOp::WriteCounter { next, .. } => {
                    self.counter = Some(*next);
                    None
                }
                IndexOp::WritePoint { point_id, payload } => {
                    self.points
                        .insert(*point_id, (payload.rid.bytes.clone(), payload.vector.clone()));
                    None
                }
                IndexOp::WritePointId { id, point_id } => {
                    self.ids.insert(id.bytes.clone(), *point_id);
                    None
                }
                IndexOp::FindPointToRemove { id } => self.ids.get(&id.bytes).copied(),
                IndexOp::RemovePoint { point_id, .. } => {
                    self.points.remove(point_id);
                    None
                }
                IndexOp::RemovePointId { id } => {
                    self.ids.remove(&id.bytes);
                    None
                }
            };
            op = op.advance(reply);
            steps += 1;
        }
    }
}

fn index() -> QortexIndex {
    let ikb = IndexKeyBase {
        ns: NamespaceId(1),
        db: DatabaseId(2),
        tb: TableName::from("testtb"),
        ix: IndexId(3),
    };
    let p = QortexParams {
        dimension: 2,
        distance: Distance::Euclidean,
        vector_type: VectorType::F32,
    };
    QortexIndex::new(ikb, TableId(4), &p).unwrap().0
}

fn rid(name: &str) -> RecordIdKey {
    RecordIdKey { bytes: name.as_bytes().to_vec() }
}

fn vector(a: u8, b: u8) -> Option<Vec<Value>> {
    Some(vec![Value::Null, Value::Present(Ok(SerializedVector::U8(vec![a, b])))])
}

fn singles(a: f32, b: f32) -> Vec<u32> {
    vec![a.to_bits(), b.to_bits()]
}

#[test]
fn records_get_points_in_turn() {
    let ix = index();
    let mut st = Store { loaded: true, ..Store::default() };
    assert_eq!(st.run(ix.index(&rid("a"), None, vector(1, 2)).unwrap()), 6);
    assert!(!st.loaded);
    st.run(ix.index(&rid("b"), None, vector(3, 4)).unwrap());
    assert_eq!(st.counter, Some(2));
    assert_eq!(st.ids[b"a".as_slice()], 0);
    assert_eq!(st.ids[b"b".as_slice()], 1);
    assert_eq!(st.points[&0], (b"a".to_vec(), singles(1.0, 2.0)));
    assert_eq!(st.points[&1], (b"b".to_vec(), singles(3.0, 4.0)));
}

#[test]
fn an_update_keeps_the_point() {
    let ix = index();
    let mut st = Store::default();
    st.run(ix.index(&rid("a"), None, vector(1, 2)).unwrap());
    st.run(ix.index(&rid("b"), None, vector(3, 4)).unwrap());
    st.loaded = true;
    assert_eq!(st.run(ix.index(&rid("a"), vector(1, 2), vector(5, 6)).unwrap()), 4);
    assert!(!st.loaded);
    assert_eq!(st.counter, Some(2));
    assert_eq!(st.points[&0], (b"a".to_vec(), singles(5.0, 6.0)));
    assert_eq!(st.points[&1], (b"b".to_vec(), singles(3.0, 4.0)));
    let once = st.clone();
    st.run(ix.index(&rid("a"), None, vector(5, 6)).unwrap());
    assert_eq!(st, once);
}

#[test]
fn a_removal_drops_the_point_and_spends_its_id() {
    let ix = index();
    let mut st = Store::default();
    st.run(ix.index(&rid("a"), None, vector(1, 2)).unwrap());
    let before = st.clone();
    st.run(ix.index(&rid("b"), None, vector(3, 4)).unwrap());
    st.loaded = true;
    assert_eq!(st.run(ix.index(&rid("b"), vector(3, 4), None).unwrap()), 4);
    assert!(!st.loaded);
    assert_eq!(st.ids, before.ids);
    assert_eq!(st.points, before.points);
    st.run(ix.index(&rid("c"), None, vector(7, 8)).unwrap());
    assert_eq!(st.ids[b"c".as_slice()], 2);
}

#[test]
fn new_values_without_a_vector_remove_the_record() {
    let ix = index();
    let mut st = Store::default();
    st.run(ix.index(&rid("a"), None, vector(1, 2)).unwrap());
    st.run(ix.index(&rid("a"), vector(1, 2), Some(vec![Value::Absent])).unwrap());
    assert!(st.ids.is_empty() && st.points.is_empty());
    st.loaded = true;
    // Removing what is not there still marks the segment stale.
    assert_eq!(st.run(ix.index(&rid("a"), Some(vec![]), None).unwrap()), 2);
    assert!(!st.loaded);
}

#[test]
fn no_values_mean_no_change() {
    let ix = index();
    let mut st = Store { loaded: true, ..Store::default() };
    assert_eq!(st.run(ix.index(&rid("a"), None, None).unwrap()), 0);
    assert_eq!(st, Store { loaded: true, ..Store::default() });
}

#[test]
fn a_bad_vector_is_refused_before_the_store_is_touched() {
    let ix = index();
    let short = Some(vec![Value::Present(Ok(SerializedVector::U8(vec![1])))]);
    assert!(matches!(
        ix.index(&rid("a"), None, short),
        Err(VectorError::Dimension { current: 1, expected: 2 })
    ));
    let bad = Some(vec![Value::Present(Err("no".to_string()))]);
    assert!(matches!(ix.index(&rid("a"), None, bad), Err(VectorError::Invalid(_))));
}

#[test]
fn the_counter_stays_at_the_largest_number() {
    let ix = index();
    let mut st = Store { counter: Some(u64::MAX - 1), ..Store::default() };
    st.run(ix.index(&rid("a"), None, vector(1, 2)).unwrap());
    assert_eq!((st.ids[b"a".as_slice()], st.counter), (u64::MAX - 1, Some(u64::MAX)));
    st.run(ix.index(&rid("b"), None, vector(1, 2)).unwrap());
    assert_eq!((st.ids[b"b".as_slice()], st.counter), (u64::MAX, Some(u64::MAX)));
}
