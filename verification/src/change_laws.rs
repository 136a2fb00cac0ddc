//! What a record change does: which step follows which, and what all of them together leave in
//! the store.

use vstd::prelude::*;
use crate::change::{IndexOp, StepView};
use crate::model::{run, IndexState};
use crate::slot::SlotView;

verus! {

/// A record that is to get a vector keeps its id and that vector from the first step to the last.
/// Its point is looked for, and where it has none the counter gives it the next one and moves on
/// by one. Then the vector is stored under the point, and the point under the record.
pub proof fn a_write_goes_step_by_step(op: IndexOp, reply: Option<u64>, next: IndexOp)
    requires
        call_ensures(IndexOp::advance, (op, reply), next),
    ensures
        op matches IndexOp::BeginWrite { id, vector } ==> (next matches IndexOp::FindPoint {
            id: i,
            vector: v,
        } && i.bytes@ == id.bytes@ && v@ == vector@),
        op matches IndexOp::FindPoint { id, vector } ==> (reply matches Some(p) ==> (
        next matches IndexOp::WritePoint { point_id, payload } && point_id == p && payload.rid.bytes@
            == id.bytes@ && payload.vector@ == vector@)),
        op matches IndexOp::FindPoint { id, vector } ==> (reply is None ==> (
        next matches IndexOp::ReadCounter { id: i, vector: v } && i.bytes@ == id.bytes@ && v@ == vector@)),
        op matches IndexOp::ReadCounter { id, vector } ==> (next matches IndexOp::WriteCounter {
            next: n,
            point_id,
            id: i,
            vector: v,
        } && i.bytes@ == id.bytes@ && v@ == vector@ && (reply matches Some(c) ==> point_id == c) && (
        reply is None ==> point_id == 0) && (point_id < u64::MAX ==> n == point_id + 1) && (point_id
            == u64::MAX ==> n == u64::MAX)),
        op matches IndexOp::WriteCounter { next: n, point_id, id, vector } ==> (
        next matches IndexOp::WritePoint { point_id: p, payload } && p == point_id && payload.rid.bytes@
            == id.bytes@ && payload.vector@ == vector@),
        op matches IndexOp::WritePoint { point_id, payload } ==> (
        next matches IndexOp::WritePointId { id, point_id: p } && p == point_id && id.bytes@
            == payload.rid.bytes@),
        op is WritePointId ==> next is Finished,
{
}

/// A record that is to leave the index keeps its id. Its point is looked for, and where it has one
/// the point is deleted and then the record's entry.
pub proof fn a_removal_goes_step_by_step(op: IndexOp, reply: Option<u64>, next: IndexOp)
    requires
        call_ensures(IndexOp::advance, (op, reply), next),
    ensures
        op matches IndexOp::BeginRemoval { id } ==> (next matches IndexOp::FindPointToRemove {
            id: i,
        } && i.bytes@ == id.bytes@),
        op matches IndexOp::FindPointToRemove { id } ==> (reply matches Some(p) ==> (
        next matches IndexOp::RemovePoint { id: i, point_id } && i.bytes@ == id.bytes@ && point_id == p)),
        op is FindPointToRemove && reply is None ==> next is Finished,
        op matches IndexOp::RemovePoint { id, point_id } ==> (next matches IndexOp::RemovePointId {
            id: i,
        } && i.bytes@ == id.bytes@),
        op is RemovePointId ==> next is Finished,
        op is Finished ==> next is Finished,
{
}

/// What is left after a record got a vector: it has a point, which holds the record and the
/// vector. That is the point that it had, with the counter where it was, or else the one that the
/// counter stood at, with the counter moved on by one. Every other record and every other point is
/// as before. The segment is stale, with one more change to wait for.
pub proof fn what_a_write_leaves(st: IndexState, slot: SlotView, rid: Seq<u8>, vector: Seq<u32>)
    ensures
        ({
            let (end, place) = run(StepView::BeginWrite { id: rid, vector }, st, slot);
            let p = end.ids[rid];
            &&& end.ids.contains_key(rid)
            &&& end.points.contains_key(p)
            &&& end.points[p].rid == rid
            &&& end.points[p].vector == vector
            &&& st.ids.contains_key(rid) ==> p == st.ids[rid] && end.counter == st.counter
            &&& !st.ids.contains_key(rid) ==> (st.counter matches Some(c) ==> p == c) && (
            st.counter is None ==> p == 0) && end.counter == Some(
                if p < u64::MAX {
                    (p + 1) as u64
                } else {
                    p
                },
            )
            &&& forall|other: Seq<u8>|
                other != rid ==> end.ids.contains_key(other) == st.ids.contains_key(other) && (
                st.ids.contains_key(other) ==> #[trigger] end.ids[other] == st.ids[other])
            &&& forall|q: u64|
                q != p ==> end.points.contains_key(q) == st.points.contains_key(q) && (
                st.points.contains_key(q) ==> #[trigger] end.points[q] == st.points[q])
            &&& !place.loaded
            &&& place.epoch == slot.epoch + 1
            &&& place.unsettled == slot.unsettled + 1
            &&& place.dir == slot.dir
        }),
{
    reveal_with_fuel(run, 8);
}

/// What is left after a record was removed: it has no point, and the point that it had is gone.
/// Every other record and every other point is as before, and so is the counter. The segment is
/// stale, with one more change to wait for.
pub proof fn what_a_removal_leaves(st: IndexState, slot: SlotView, rid: Seq<u8>)
    ensures
        ({
            let (end, place) = run(StepView::BeginRemoval { id: rid }, st, slot);
            &&& !end.ids.contains_key(rid)
            &&& st.ids.contains_key(rid) ==> !end.points.contains_key(st.ids[rid])
            &&& end.counter == st.counter
            &&& forall|other: Seq<u8>|
                other != rid ==> end.ids.contains_key(other) == st.ids.contains_key(other) && (
                st.ids.contains_key(other) ==> #[trigger] end.ids[other] == st.ids[other])
            &&& forall|q: u64|
                !(st.ids.contains_key(rid) && q == st.ids[rid]) ==> end.points.contains_key(q)
                    == st.points.contains_key(q) && (st.points.contains_key(q)
                    ==> #[trigger] end.points[q] == st.points[q])
            &&& !place.loaded
            &&& place.epoch == slot.epoch + 1
            &&& place.unsettled == slot.unsettled + 1
            &&& place.dir == slot.dir
        }),
{
    reveal_with_fuel(run, 8);
}

/// What a step reads and writes is what it holds.
pub proof fn steps_are_seen_as_they_are(op: IndexOp)
    ensures
        op matches IndexOp::BeginWrite { id, vector } ==> op@ == (StepView::BeginWrite {
            id: id.bytes@,
            vector: vector@,
        }),
        op matches IndexOp::BeginRemoval { id } ==> op@ == (StepView::BeginRemoval {
            id: id.bytes@,
        }),
        op matches IndexOp::WriteCounter { next, point_id, id, vector } ==> op@ == (
        StepView::WriteCounter { next, point_id, id: id.bytes@, vector: vector@ }),
        op matches IndexOp::WritePoint { point_id, payload } ==> (op@ matches StepView::WritePoint {
            point_id: p,
            point,
        } && p == point_id && point.rid == payload.rid.bytes@ && point.vector == payload.vector@),
        op matches IndexOp::WritePointId { id, point_id } ==> op@ == (StepView::WritePointId {
            id: id.bytes@,
            point_id,
        }),
        op matches IndexOp::RemovePoint { id, point_id } ==> op@ == (StepView::RemovePoint {
            id: id.bytes@,
            point_id,
        }),
        op matches IndexOp::RemovePointId { id } ==> op@ == (StepView::RemovePointId {
            id: id.bytes@,
        }),
{
}

} // verus!
