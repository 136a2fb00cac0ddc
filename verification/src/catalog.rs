//! The catalog facts that an index is defined by: the ids that name it, and its parameters.

use vstd::prelude::*;
use std::ops::Range;
use crate::qv::{qv_root, range_end, range_start, Key, KeyError, Qv, QvRoot, QvView, RootView};
use crate::vector::VectorType;

verus! {

/// Id of a namespace.
#[derive(Clone, Copy, Debug, PartialEq, Eq, PartialOrd, Structural)]
pub struct NamespaceId(pub u32);

/// Id of a database within its namespace.
#[derive(Clone, Copy, Debug, PartialEq, Eq, PartialOrd, Structural)]
pub struct DatabaseId(pub u32);

/// Id of a table, which outlives a change of the table's name.
#[derive(Clone, Copy, Debug, PartialEq, Eq, Structural)]
pub struct TableId(pub u32);

/// Id of an index within its table.
#[derive(Clone, Copy, Debug, PartialEq, Eq, PartialOrd, Structural)]
pub struct IndexId(pub u32);

/// The name of a table.
#[derive(Debug, PartialEq, Eq, PartialOrd)]
pub struct TableName {
    name: String,
}

impl View for TableName {
    type V = Seq<char>;

    closed spec fn view(&self) -> Seq<char> {
        self.name@
    }
}

impl TableName {
    /// The table name that `name` spells.
    pub fn from(name: &str) -> (t: TableName)
        ensures
            t@ == name@,
    {
        TableName { name: name.to_owned() }
    }

    pub(crate) fn from_string(name: String) -> (t: TableName)
        ensures
            t@ == name@,
    {
        TableName { name }
    }

    /// The characters of the name.
    pub fn as_str(&self) -> (s: &str)
        ensures
            s@ == self@,
    {
        self.name.as_str()
    }
}

impl Clone for TableName {
    fn clone(&self) -> (t: Self)
        ensures
            t@ == self@,
    {
        TableName { name: self.name.clone() }
    }
}

/// The distance metrics that an index can be defined with.
#[derive(Clone, Copy, Debug, PartialEq, Eq, Structural)]
pub enum Distance {
    Chebyshev,
    Cosine,
    CosineNormalized,
    Euclidean,
    Hamming,
    InnerProduct,
    Jaccard,
    Manhattan,
    /// The order of the metric plays no part here.
    Minkowski,
    Pearson,
}

/// The parameters of an index definition.
#[derive(Clone, Copy, Debug)]
pub struct QortexParams {
    pub dimension: u16,
    pub distance: Distance,
    pub vector_type: VectorType,
}

/// What the keys of an index are made from.
#[derive(Debug)]
pub struct IndexKeyBase {
    pub ns: NamespaceId,
    pub db: DatabaseId,
    pub tb: TableName,
    pub ix: IndexId,
}

impl IndexKeyBase {
    /// What the `!qv` keys of the index have in common.
    pub open spec fn root(&self) -> RootView {
        qv_root(self.ns, self.db, self.tb@, self.ix)
    }

    /// The `!qv` key of the point `point_id`.
    pub fn new_qv_key(&self, point_id: u64) -> (q: Qv)
        ensures
            q@ == (QvView { root: self.root(), point_id }),
            q.ns == self.ns,
            q.db == self.db,
            q.tb@ == self.tb@,
            q.ix == self.ix,
            q.point_id == point_id,
    {
        Qv::new(self.ns, self.db, &self.tb, self.ix, point_id)
    }

    /// The range of the `!qv` keys.
    pub fn new_qv_range(&self) -> (r: Result<Range<Key>, KeyError>)
        ensures
            r matches Ok(range) && range.start@ == range_start(self.root()) && range.end@
                == range_end(self.root()),
    {
        QvRoot::range(self.ns, self.db, &self.tb, self.ix)
    }
}

impl Clone for IndexKeyBase {
    fn clone(&self) -> (r: Self)
        ensures
            r.ns == self.ns,
            r.db == self.db,
            r.tb@ == self.tb@,
            r.ix == self.ix,
    {
        IndexKeyBase { ns: self.ns, db: self.db, tb: self.tb.clone(), ix: self.ix }
    }
}

} // verus!
