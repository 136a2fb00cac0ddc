//! The in-memory vector segment as the index drives it: how it is set up, how its writes are
//! numbered, what is asked of it, and what is taken of its answer.

use vstd::prelude::*;
use crate::catalog::Distance;

verus! {

/// The metrics that a segment can search by.
#[derive(Clone, Copy, Debug, PartialEq, Eq, Structural)]
pub enum SegmentDistance {
    Cosine,
    Euclid,
    Dot,
    Manhattan,
}

/// Where a segment keeps its vectors.
#[derive(Clone, Copy, Debug, PartialEq, Eq, Structural)]
pub enum VectorStorageType {
    Memory,
    Mmap,
    ChunkedMmap,
    InRamChunkedMmap,
}

/// How a segment finds neighbours.
#[derive(Clone, Copy, Debug, PartialEq, Eq, Structural)]
pub enum IndexType {
    /// By comparing with every vector, which is exact.
    Plain,
    Hnsw,
}

/// Where a segment keeps its payloads.
#[derive(Clone, Copy, Debug, PartialEq, Eq, Structural)]
pub enum PayloadStorageType {
    InMemory,
    OnDisk,
    Mmap,
    InRamMmap,
}

/// How a segment is set up. It has one unnamed vector field, neither quantized nor
/// multi-valued, and no sparse one.
#[derive(Clone, Copy, Debug, PartialEq, Eq, Structural)]
pub struct SegmentConfig {
    pub size: usize,
    pub distance: SegmentDistance,
    pub storage_type: VectorStorageType,
    pub index: IndexType,
    pub payload_storage_type: PayloadStorageType,
}

/// The catalog metric has no counterpart in the segment.
#[derive(Clone, Copy, Debug, PartialEq, Eq, Structural)]
pub struct UnsupportedDistance {
    pub distance: Distance,
}

impl UnsupportedDistance {
    /// What to tell the user.
    pub fn message(&self) -> (text: String)
        ensures
            text@
                == "QORTEX supports COSINE, COSINE_NORMALIZED, EUCLIDEAN, INNER_PRODUCT, and MANHATTAN distances"@,
    {
        "QORTEX supports COSINE, COSINE_NORMALIZED, EUCLIDEAN, INNER_PRODUCT, and MANHATTAN distances".to_owned()
    }
}

/// The id of a point in a segment.
#[derive(Clone, Copy, Debug, PartialEq, Eq, Structural)]
pub enum PointId {
    NumId(u64),
    Uuid(u128),
}

/// A point that a search found.
#[derive(Clone, Copy, Debug)]
pub struct ScoredPoint {
    pub id: PointId,
    /// The number of the write that put the point there.
    pub version: u64,
    /// The score, a single-precision bit pattern.
    pub score: u32,
}

/// A write to a segment: the point `id` gets the vector `vector`, whether or not it had one.
#[derive(Debug)]
pub struct Upsert {
    pub op: u64,
    pub id: u64,
    pub vector: Vec<u32>,
}

/// The contents of a write.
pub struct UpsertView {
    pub op: u64,
    pub id: u64,
    pub vector: Seq<u32>,
}

impl View for Upsert {
    type V = UpsertView;

    open spec fn view(&self) -> UpsertView {
        UpsertView { op: self.op, id: self.id, vector: self.vector@ }
    }
}

/// What is asked of a segment: the `top` points nearest to `vector`, among all of them.
#[derive(Debug)]
pub struct SearchRequest {
    pub vector: Vec<u32>,
    pub top: usize,
    /// Up to which size, in kilobytes, unindexed data counts as searched fast enough.
    pub search_optimized_threshold_kb: usize,
    pub with_payload: bool,
    pub with_vector: bool,
}

/// A segment, as far as the index has to know it.
#[derive(Debug)]
pub struct QortexSegment {
    pub config: SegmentConfig,
    /// The number of the last write. A segment takes a write only under a number of its own.
    pub op: u64,
}

/// The segment metric that stands for a catalog metric, where there is one.
pub open spec fn segment_distance(d: Distance) -> Option<SegmentDistance> {
    match d {
        Distance::Cosine | Distance::CosineNormalized => Some(SegmentDistance::Cosine),
        Distance::Euclidean => Some(SegmentDistance::Euclid),
        Distance::InnerProduct => Some(SegmentDistance::Dot),
        Distance::Manhattan => Some(SegmentDistance::Manhattan),
        _ => None,
    }
}

/// The set-up of a segment for `dim`-dimensional vectors under the metric `distance`.
pub open spec fn exact_config(dim: usize, distance: SegmentDistance) -> SegmentConfig {
    SegmentConfig {
        size: dim,
        distance,
        storage_type: VectorStorageType::InRamChunkedMmap,
        index: IndexType::Plain,
        payload_storage_type: PayloadStorageType::InRamMmap,
    }
}

/// The ids and scores of `points`, in their order.
pub open spec fn ids_and_scores(points: Seq<ScoredPoint>) -> Seq<(PointId, u32)> {
    points.map_values(|p: ScoredPoint| (p.id, p.score))
}

impl QortexSegment {
    /// An empty segment for `dim`-dimensional vectors.
    pub fn open(dim: usize, distance: SegmentDistance) -> (s: QortexSegment)
        ensures
            s.config == exact_config(dim, distance),
            s.config.size == dim,
            s.config.distance == distance,
            s.config.storage_type == VectorStorageType::InRamChunkedMmap,
            s.config.index == IndexType::Plain,
            s.config.payload_storage_type == PayloadStorageType::InRamMmap,
            s.op == 0,
    {
        QortexSegment {
            config: SegmentConfig {
                size: dim,
                distance,
                storage_type: VectorStorageType::InRamChunkedMmap,
                index: IndexType::Plain,
                payload_storage_type: PayloadStorageType::InRamMmap,
            },
            op: 0,
        }
    }

    /// Insert or replace a vector by id: the write to perform, under the next number.
    pub fn insert(&mut self, id: u64, vector: &Vec<u32>) -> (u: Upsert)
        requires
            old(self).op < u64::MAX,
        ensures
            final(self).op == old(self).op + 1,
            final(self).config == old(self).config,
            u@ == (UpsertView { op: final(self).op, id, vector: vector@ }),
            u.op == old(self).op + 1,
            u.id == id,
            u.vector@ == vector@,
    {
        self.op = self.op + 1;
        Upsert { op: self.op, id, vector: vector.clone() }
    }

    /// The request for the `k` nearest neighbours of `vector`.
    pub fn search(&self, vector: Vec<u32>, k: usize) -> (q: SearchRequest)
        ensures
            q.vector == vector,
            q.top == k,
            q.search_optimized_threshold_kb == 20_000,
            !q.with_payload,
            !q.with_vector,
    {
        SearchRequest {
            vector,
            top: k,
            search_optimized_threshold_kb: 20_000,
            with_payload: false,
            with_vector: false,
        }
    }

    /// The answer to a search that was the only one of its batch: the points of the first
    /// result, best first, as the segment gave them. No points where there is no result.
    pub fn found(batches: &Vec<Vec<ScoredPoint>>) -> (hits: Vec<(PointId, u32)>)
        ensures
            batches@.len() == 0 ==> hits@ == Seq::<(PointId, u32)>::empty(),
            batches@.len() > 0 ==> hits@ == ids_and_scores(batches@[0]@),
            batches@.len() > 0 ==> hits@.len() == batches@[0]@.len(),
            batches@.len() > 0 ==> forall|i: int|
                0 <= i < hits@.len() ==> #[trigger] hits@[i] == (
                    batches@[0]@[i].id,
                    batches@[0]@[i].score,
                ),
    {
        let mut hits: Vec<(PointId, u32)> = Vec::new();
        if batches.len() == 0 {
            return hits;
        }
        let points = &batches[0];
        for i in 0..points.len()
            invariant
                hits@ == ids_and_scores(points@.take(i as int)),
        {
            let p: ScoredPoint = points[i];
            hits.push((p.id, p.score));
            assert(points@.take(i + 1) =~= points@.take(i as int).push(p));
            assert(hits@ =~= ids_and_scores(points@.take(i + 1)));
        }
        assert(points@.take(points@.len() as int) =~= points@);
        hits
    }
}

} // verus!
