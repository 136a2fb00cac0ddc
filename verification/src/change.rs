//! One record change, step by step.
//!
//! Three key families back an index: `!qs` holds the next point id, `!qi` maps a record to its
//! point id, and `!qv` maps a point id to the record and its vector. Applying a change means
//! reading and writing these keys one after the other; what comes next depends on what the reads
//! return. The store is the caller's: [`IndexOp`] says what to do, and is told what came of it.
//!
//! A change begins by marking the segment stale. The mark comes before the first write, so that no
//! rebuild takes for committed what the change has written so far, not even where a later step
//! fails.

use vstd::prelude::*;
use crate::vector::{PointView, QortexVecValue, RecordIdKey};

verus! {

/// The next step of a record change.
#[derive(Debug)]
pub enum IndexOp {
    /// Nothing is left to do.
    Finished,
    /// Mark the segment stale, as the record is to get the vector.
    BeginWrite { id: RecordIdKey, vector: Vec<u32> },
    /// Read `!qi` of the record, which is to get the vector.
    FindPoint { id: RecordIdKey, vector: Vec<u32> },
    /// Read `!qs`, as the record has no point yet.
    ReadCounter { id: RecordIdKey, vector: Vec<u32> },
    /// Write `next` to `!qs`, as `point_id` has been given to the record.
    WriteCounter { next: u64, point_id: u64, id: RecordIdKey, vector: Vec<u32> },
    /// Write the payload to `!qv` of the point.
    WritePoint { point_id: u64, payload: QortexVecValue },
    /// Write the point id to `!qi` of the record.
    WritePointId { id: RecordIdKey, point_id: u64 },
    /// Mark the segment stale, as the record is to leave the index.
    BeginRemoval { id: RecordIdKey },
    /// Read `!qi` of the record, which is to leave the index.
    FindPointToRemove { id: RecordIdKey },
    /// Delete `!qv` of the point.
    RemovePoint { id: RecordIdKey, point_id: u64 },
    /// Delete `!qi` of the record.
    RemovePointId { id: RecordIdKey },
}

/// The contents of a step.
pub enum StepView {
    Finished,
    BeginWrite { id: Seq<u8>, vector: Seq<u32> },
    FindPoint { id: Seq<u8>, vector: Seq<u32> },
    ReadCounter { id: Seq<u8>, vector: Seq<u32> },
    WriteCounter { next: u64, point_id: u64, id: Seq<u8>, vector: Seq<u32> },
    WritePoint { point_id: u64, point: PointView },
    WritePointId { id: Seq<u8>, point_id: u64 },
    BeginRemoval { id: Seq<u8> },
    FindPointToRemove { id: Seq<u8> },
    RemovePoint { id: Seq<u8>, point_id: u64 },
    RemovePointId { id: Seq<u8> },
}

impl View for IndexOp {
    type V = StepView;

    open spec fn view(&self) -> StepView {
        match *self {
            IndexOp::Finished => StepView::Finished,
            IndexOp::BeginWrite { id, vector } => StepView::BeginWrite { id: id@, vector: vector@ },
            IndexOp::FindPoint { id, vector } => StepView::FindPoint { id: id@, vector: vector@ },
            IndexOp::ReadCounter { id, vector } => StepView::ReadCounter {
                id: id@,
                vector: vector@,
            },
            IndexOp::WriteCounter { next, point_id, id, vector } => StepView::WriteCounter {
                next,
                point_id,
                id: id@,
                vector: vector@,
            },
            IndexOp::WritePoint { point_id, payload } => StepView::WritePoint {
                point_id,
                point: payload@,
            },
            IndexOp::WritePointId { id, point_id } => StepView::WritePointId { id: id@, point_id },
            IndexOp::BeginRemoval { id } => StepView::BeginRemoval { id: id@ },
            IndexOp::FindPointToRemove { id } => StepView::FindPointToRemove { id: id@ },
            IndexOp::RemovePoint { id, point_id } => StepView::RemovePoint { id: id@, point_id },
            IndexOp::RemovePointId { id } => StepView::RemovePointId { id: id@ },
        }
    }
}

/// The counter after it has handed out `n`. It stays at the largest number once it is there.
pub open spec fn counter_after(n: u64) -> u64 {
    if n < u64::MAX {
        (n + 1) as u64
    } else {
        u64::MAX
    }
}

/// The step after `s`, where `reply` is what the read of `s` returned.
pub open spec fn next_step(s: StepView, reply: Option<u64>) -> StepView {
    match s {
        StepView::Finished => StepView::Finished,
        StepView::BeginWrite { id, vector } => StepView::FindPoint { id, vector },
        StepView::FindPoint { id, vector } => match reply {
            Some(point_id) => StepView::WritePoint {
                point_id,
                point: PointView { rid: id, vector },
            },
            None => StepView::ReadCounter { id, vector },
        },
        StepView::ReadCounter { id, vector } => {
            let point_id = match reply {
                Some(n) => n,
                None => 0,
            };
            StepView::WriteCounter { next: counter_after(point_id), point_id, id, vector }
        },
        StepView::WriteCounter { next, point_id, id, vector } => StepView::WritePoint {
            point_id,
            point: PointView { rid: id, vector },
        },
        StepView::WritePoint { point_id, point } => StepView::WritePointId {
            id: point.rid,
            point_id,
        },
        StepView::WritePointId { id, point_id } => StepView::Finished,
        StepView::BeginRemoval { id } => StepView::FindPointToRemove { id },
        StepView::FindPointToRemove { id } => match reply {
            Some(point_id) => StepView::RemovePoint { id, point_id },
            None => StepView::Finished,
        },
        StepView::RemovePoint { id, point_id } => StepView::RemovePointId { id },
        StepView::RemovePointId { id } => StepView::Finished,
    }
}

impl IndexOp {
    /// The step after this one. `reply` is what the read returned, where this step is a read; a
    /// step that writes or deletes has no reply.
    pub fn advance(self, reply: Option<u64>) -> (next: IndexOp)
        ensures
            next@ == next_step(self@, reply),
            match self {
                IndexOp::Finished => next is Finished,
                IndexOp::BeginWrite { id, vector } => next == (IndexOp::FindPoint { id, vector }),
                IndexOp::FindPoint { id, vector } => match reply {
                    Some(point_id) => next == (IndexOp::WritePoint {
                        point_id,
                        payload: QortexVecValue { rid: id, vector },
                    }),
                    None => next == (IndexOp::ReadCounter { id, vector }),
                },
                IndexOp::ReadCounter { id, vector } => next matches IndexOp::WriteCounter {
                    next: _,
                    point_id: _,
                    id: i,
                    vector: v,
                } && i == id && v == vector,
                IndexOp::WriteCounter { next: _, point_id, id, vector } => next == (
                IndexOp::WritePoint { point_id, payload: QortexVecValue { rid: id, vector } }),
                IndexOp::WritePoint { point_id, payload } => next == (IndexOp::WritePointId {
                    id: payload.rid,
                    point_id,
                }),
                IndexOp::WritePointId { id: _, point_id: _ } => next is Finished,
                IndexOp::BeginRemoval { id } => next == (IndexOp::FindPointToRemove { id }),
                IndexOp::FindPointToRemove { id } => match reply {
                    Some(point_id) => next == (IndexOp::RemovePoint { id, point_id }),
                    None => next is Finished,
                },
                IndexOp::RemovePoint { id, point_id: _ } => next == (IndexOp::RemovePointId { id }),
                IndexOp::RemovePointId { id: _ } => next is Finished,
            },
    {
        match self {
            IndexOp::Finished => IndexOp::Finished,
            IndexOp::BeginWrite { id, vector } => IndexOp::FindPoint { id, vector },
            IndexOp::FindPoint { id, vector } => match reply {
                Some(point_id) => IndexOp::WritePoint {
                    point_id,
                    payload: QortexVecValue { rid: id, vector },
                },
                None => IndexOp::ReadCounter { id, vector },
            },
            IndexOp::ReadCounter { id, vector } => {
                let point_id: u64 = match reply {
                    Some(n) => n,
                    None => 0,
                };
                IndexOp::WriteCounter { next: point_id.saturating_add(1), point_id, id, vector }
            },
            IndexOp::WriteCounter { next: _, point_id, id, vector } => IndexOp::WritePoint {
                point_id,
                payload: QortexVecValue { rid: id, vector },
            },
            IndexOp::WritePoint { point_id, payload } => IndexOp::WritePointId {
                id: payload.rid,
                point_id,
            },
            IndexOp::WritePointId { id: _, point_id: _ } => IndexOp::Finished,
            IndexOp::BeginRemoval { id } => IndexOp::FindPointToRemove { id },
            IndexOp::FindPointToRemove { id } => match reply {
                Some(point_id) => IndexOp::RemovePoint { id, point_id },
                None => IndexOp::Finished,
            },
            IndexOp::RemovePoint { id, point_id: _ } => IndexOp::RemovePointId { id },
            IndexOp::RemovePointId { id: _ } => IndexOp::Finished,
        }
    }
}

} // verus!
