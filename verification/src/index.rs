//! The index: what it is defined by, and how it begins each of its operations.
//!
//! The store is the source of truth. The segment is a mirror of it in memory, rebuilt whenever
//! it is stale. Writes mark the segment stale and go straight to the store.

use vstd::prelude::*;
use crate::catalog::{Distance, IndexKeyBase, QortexParams, TableId};
use crate::change::{IndexOp, StepView};
use crate::float::{single_from_double, single_of_double};
use crate::knn::{KnnSearch, KnnView};
use crate::qv::{range_end, range_start, KeyError};
use crate::rebuild::Rebuild;
use crate::segment::{
    exact_config, segment_distance, PointId, QortexSegment, SearchRequest, SegmentDistance,
    UnsupportedDistance,
};
use crate::slot::{dir_name, is_uuid_v7_text, unique_dir, SegmentSlot, NO_EPOCH};
use crate::vector::{
    first_present, indexed_as, serialized_to_f32, RecordIdKey, SerializedVector, Value,
    VectorError, VectorType,
};

verus! {

/// A vector index on one column of one table.
#[derive(Debug)]
pub struct QortexIndex {
    /// Expected vector dimensionality.
    pub dim: usize,
    /// Catalog distance metric (mapped to the segment metric on open).
    pub distance: Distance,
    /// The declared vector type, to which document values are coerced.
    pub vector_type: VectorType,
    /// Stable table id.
    pub table_id: TableId,
    /// Key base for generating index-related storage keys.
    pub ikb: IndexKeyBase,
}

/// Why a segment cannot be rebuilt.
#[derive(Clone, Copy, Debug, PartialEq, Eq, Structural)]
pub enum StateError {
    Distance(UnsupportedDistance),
    Key(KeyError),
}

/// The coerced value that a record is to be indexed under: the first of its new values that is
/// neither `NONE` nor `NULL`.
pub open spec fn value_to_index(new_values: Option<Vec<Value>>) -> Option<
    Result<SerializedVector, String>,
> {
    match new_values {
        Some(values) => first_present(values@),
        None => None,
    }
}

impl QortexIndex {
    /// Creates a new index with an empty, not-yet-loaded segment, in a directory of its own.
    pub fn new(ikb: IndexKeyBase, tb: TableId, p: &QortexParams) -> (r: Result<
        (QortexIndex, QortexSegment, SegmentSlot),
        UnsupportedDistance,
    >)
        ensures
            match segment_distance(p.distance) {
                None => r == Err::<(QortexIndex, QortexSegment, SegmentSlot), UnsupportedDistance>(
                    UnsupportedDistance { distance: p.distance },
                ),
                Some(d) => r matches Ok((index, segment, slot)) && index == (QortexIndex {
                    dim: p.dimension as usize,
                    distance: p.distance,
                    vector_type: p.vector_type,
                    table_id: tb,
                    ikb,
                }) && segment.config == exact_config(p.dimension as usize, d) && segment.op == 0
                    && !slot.loaded && slot.epoch == NO_EPOCH + 1 && slot.unsettled == 0 && (exists|
                    id: Seq<char>,
                | is_uuid_v7_text(id) && slot.dir@ == #[trigger] dir_name(id)),
            },
    {
        let distance = match Self::map_distance(&p.distance) {
            Ok(d) => d,
            Err(e) => return Err(e),
        };
        let dir = unique_dir();
        let segment = QortexSegment::open(p.dimension as usize, distance);
        let index = QortexIndex {
            dim: p.dimension as usize,
            distance: p.distance,
            vector_type: p.vector_type,
            table_id: tb,
            ikb,
        };
        Ok((index, segment, SegmentSlot::new(dir)))
    }

    /// Maps a catalog distance metric to the segment metric.
    pub fn map_distance(d: &Distance) -> (r: Result<SegmentDistance, UnsupportedDistance>)
        ensures
            match segment_distance(*d) {
                Some(s) => r == Ok::<SegmentDistance, UnsupportedDistance>(s),
                None => r == Err::<SegmentDistance, UnsupportedDistance>(
                    UnsupportedDistance { distance: *d },
                ),
            },
    {
        match d {
            Distance::Cosine | Distance::CosineNormalized => Ok(SegmentDistance::Cosine),
            Distance::Euclidean => Ok(SegmentDistance::Euclid),
            Distance::InnerProduct => Ok(SegmentDistance::Dot),
            Distance::Manhattan => Ok(SegmentDistance::Manhattan),
            Distance::Chebyshev
            | Distance::Hamming
            | Distance::Jaccard
            | Distance::Minkowski
            | Distance::Pearson => Err(UnsupportedDistance { distance: *d }),
        }
    }

    /// Validates a coerced document value and converts it into single precision.
    pub fn value_to_f32(&self, coerced: &Result<SerializedVector, String>) -> (r: Result<
        Vec<u32>,
        VectorError,
    >)
        ensures
            indexed_as(*coerced, self.dim, r),
    {
        match coerced {
            Ok(sv) => {
                let current: usize = sv.dimension();
                if current != self.dim {
                    return Err(VectorError::Dimension { current, expected: self.dim });
                }
                Ok(serialized_to_f32(sv))
            },
            Err(why) => Err(VectorError::Invalid(why.clone())),
        }
    }

    /// Picks the single indexed vector from the (possibly multi-valued) content: the first value
    /// that is neither `NONE` nor `NULL`.
    pub fn first_vector(&self, values: &Vec<Value>) -> (r: Result<Option<Vec<u32>>, VectorError>)
        ensures
            match first_present(values@) {
                None => r matches Ok(None),
                Some(coerced) => match r {
                    Ok(Some(v)) => indexed_as(coerced, self.dim, Ok(v)),
                    Ok(None) => false,
                    Err(e) => indexed_as(coerced, self.dim, Err(e)),
                },
            },
    {
        assert(values@.skip(0) =~= values@);
        for i in 0..values.len()
            invariant
                first_present(values@) == first_present(values@.skip(i as int)),
        {
            assert(values@.skip(i as int)[0] == values@[i as int]);
            assert(values@.skip(i as int).drop_first() =~= values@.skip(i + 1));
            match &values[i] {
                Value::Present(coerced) => {
                    return match self.value_to_f32(coerced) {
                        Ok(v) => Ok(Some(v)),
                        Err(e) => Err(e),
                    };
                },
                Value::Absent | Value::Null => {},
            }
        }
        Ok(None)
    }

    /// Begins to apply one record change to the store.
    ///
    /// With a vector among its new values the record is added or updated, and without one it is
    /// removed. Where neither old nor new values are given there is nothing to do.
    pub fn index(
        &self,
        id: &RecordIdKey,
        old_values: Option<Vec<Value>>,
        new_values: Option<Vec<Value>>,
    ) -> (r: Result<IndexOp, VectorError>)
        ensures
            if old_values is None && new_values is None {
                r matches Ok(op) && op@ == StepView::Finished
            } else {
                match value_to_index(new_values) {
                    None => r matches Ok(op) && op@ == (StepView::BeginRemoval { id: id@ }) && (
                    op matches IndexOp::BeginRemoval { id: i } && i.bytes@ == id.bytes@),
                    Some(coerced) => match r {
                        Ok(IndexOp::BeginWrite { id: i, vector }) => i.bytes@ == id.bytes@ && i@
                            == id@ && indexed_as(
                            coerced,
                            self.dim,
                            Ok(vector),
                        ),
                        Ok(_) => false,
                        Err(e) => indexed_as(coerced, self.dim, Err(e)),
                    },
                }
            },
    {
        if old_values.is_none() && new_values.is_none() {
            return Ok(IndexOp::Finished);
        }
        let new_vector = match &new_values {
            Some(values) => match self.first_vector(values) {
                Ok(v) => v,
                Err(e) => return Err(e),
            },
            None => None,
        };
        match new_vector {
            Some(vector) => Ok(IndexOp::BeginWrite { id: id.clone(), vector }),
            None => Ok(IndexOp::BeginRemoval { id: id.clone() }),
        }
    }

    /// Begins to make the segment reflect the store, where it is stale: gives the fresh segment
    /// to fill and the key range to fill it from. For the swap at the end, the epoch of the slot is
    /// noted before the transaction begins that reads the range.
    pub fn check_state(&self, loaded: bool) -> (r: Result<Option<Rebuild>, StateError>)
        ensures
            if loaded {
                r matches Ok(None)
            } else {
                match segment_distance(self.distance) {
                    None => r == Err::<Option<Rebuild>, StateError>(
                        StateError::Distance(UnsupportedDistance { distance: self.distance }),
                    ),
                    Some(d) => r matches Ok(Some(rebuild)) && rebuild.segment.config
                        == exact_config(self.dim, d) && rebuild.segment.op == 0
                        && rebuild.range.start@ == range_start(self.ikb.root())
                        && rebuild.range.end@ == range_end(self.ikb.root()),
                }
            },
    {
        if loaded {
            return Ok(None);
        }
        let distance = match Self::map_distance(&self.distance) {
            Ok(d) => d,
            Err(e) => return Err(StateError::Distance(e)),
        };
        let segment = QortexSegment::open(self.dim, distance);
        let range = match self.ikb.new_qv_range() {
            Ok(range) => range,
            Err(e) => return Err(StateError::Key(e)),
        };
        Ok(Some(Rebuild { segment, range }))
    }

    /// The request that a nearest-neighbour search makes of the segment. The query comes as
    /// double-precision bit patterns.
    pub fn knn_query(&self, segment: &QortexSegment, pt: &Vec<u64>, k: usize) -> (q: SearchRequest)
        ensures
            q.vector@.len() == pt@.len(),
            forall|i: int|
                0 <= i < pt@.len() ==> single_of_double(pt@[i], #[trigger] q.vector@[i]),
            q.top == k,
            q.search_optimized_threshold_kb == 20_000,
            !q.with_payload,
            !q.with_vector,
    {
        let mut query: Vec<u32> = Vec::new();
        for i in 0..pt.len()
            invariant
                query@.len() == i,
                forall|j: int| 0 <= j < i ==> single_of_double(pt@[j], #[trigger] query@[j]),
        {
            query.push(single_from_double(pt[i]));
        }
        segment.search(query, k)
    }

    /// Begins to turn the hits of a nearest-neighbour search into records, best first.
    pub fn knn_search(&self, hits: Vec<(PointId, u32)>) -> (s: KnnSearch)
        ensures
            s@ == (KnnView { tb: self.ikb.tb@, hits: hits@, results: Seq::empty() }),
            s.tb@ == self.ikb.tb@,
            s.hits@ == hits@,
            s.results@.len() == 0,
    {
        KnnSearch::new(&self.ikb.tb, hits)
    }
}

} // verus!
