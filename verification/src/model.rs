//! The index as a whole: what the store holds for it, what the segment holds, and what the
//! operations do to both. How transactions see it is in [`crate::transactions`].

use vstd::prelude::*;
use crate::change::{counter_after, next_step, StepView};
use crate::knn::{
    fetched, first_numeric_is_numeric, from_first_numeric, is_step_of, neighbours, replied, resolved,
    stored, KnnSearch, KnnStep, KnnView, NeighbourView,
};
use crate::bytes::lex_within;
use crate::catalog::{DatabaseId, IndexId, NamespaceId};
use crate::qv::{qv_root, range_end, range_start, QvView, RootView};
use crate::qv_laws::{
    decode_undoes_encode, encoding_is_injective, range_covers_every_point,
    range_holds_no_other_index,
};
use crate::rebuild::{
    loadable, loadable_counts, loaded_entry, writes, EntryView, RebuildFault,
};
use crate::segment::{PointId, UpsertView};
use crate::slot::{marked, SlotView};
use crate::vector::{PointView, QortexVecValue};

verus! {

/// What the store holds for one index: what is committed, or what a transaction sees.
pub struct IndexState {
    /// `!qs`: the next point id.
    pub counter: Option<u64>,
    /// `!qi`: the point of each indexed record.
    pub ids: Map<Seq<u8>, u64>,
    /// `!qv`: the record and the vector of each point.
    pub points: Map<u64, PointView>,
}

impl IndexState {
    /// The point id that the next new record gets.
    pub open spec fn next_id(self) -> u64 {
        match self.counter {
            Some(n) => n,
            None => 0,
        }
    }

    /// Records and points belong to each other one to one, and every point id has been handed
    /// out by the counter.
    pub open spec fn consistent(self) -> bool {
        &&& forall|rid: Seq<u8>| #[trigger]
            self.ids.contains_key(rid) ==> self.points.contains_key(self.ids[rid])
                && self.points[self.ids[rid]].rid == rid
        &&& forall|p: u64| #[trigger]
            self.points.contains_key(p) ==> self.ids.contains_key(self.points[p].rid)
                && self.ids[self.points[p].rid] == p
        &&& forall|p: u64| #[trigger] self.points.contains_key(p) ==> p < self.next_id()
    }

    /// The vector under which a record is indexed.
    pub open spec fn vector_of(self, rid: Seq<u8>) -> Option<Seq<u32>> {
        if self.ids.contains_key(rid) && self.points.contains_key(self.ids[rid]) {
            Some(self.points[self.ids[rid]].vector)
        } else {
            None
        }
    }

    /// The state after the record `rid` was given `vector`, or was removed.
    pub open spec fn changed(self, rid: Seq<u8>, vector: Option<Seq<u32>>) -> IndexState {
        match vector {
            Some(v) => if self.ids.contains_key(rid) {
                IndexState {
                    points: self.points.insert(self.ids[rid], PointView { rid, vector: v }),
                    ..self
                }
            } else {
                let p = self.next_id();
                IndexState {
                    counter: Some(counter_after(p)),
                    ids: self.ids.insert(rid, p),
                    points: self.points.insert(p, PointView { rid, vector: v }),
                }
            },
            None => if self.ids.contains_key(rid) {
                IndexState {
                    ids: self.ids.remove(rid),
                    points: self.points.remove(self.ids[rid]),
                    ..self
                }
            } else {
                self
            },
        }
    }

    /// What a segment holds that reflects the store.
    pub open spec fn mirror(self) -> Map<u64, Seq<u32>> {
        self.points.map_values(|p: PointView| p.vector)
    }
}

/// What performing a step does to the keys, and what it returns where it is a read.
pub open spec fn perform(s: StepView, st: IndexState) -> (IndexState, Option<u64>) {
    match s {
        StepView::Finished => (st, None),
        StepView::BeginWrite { id, vector } => (st, None),
        StepView::FindPoint { id, vector } => (st, st.ids.get(id)),
        StepView::ReadCounter { id, vector } => (st, st.counter),
        StepView::WriteCounter { next, point_id, id, vector } => (
            IndexState { counter: Some(next), ..st },
            None,
        ),
        StepView::WritePoint { point_id, point } => (
            IndexState { points: st.points.insert(point_id, point), ..st },
            None,
        ),
        StepView::WritePointId { id, point_id } => (
            IndexState { ids: st.ids.insert(id, point_id), ..st },
            None,
        ),
        StepView::BeginRemoval { id } => (st, None),
        StepView::FindPointToRemove { id } => (st, st.ids.get(id)),
        StepView::RemovePoint { id, point_id } => (
            IndexState { points: st.points.remove(point_id), ..st },
            None,
        ),
        StepView::RemovePointId { id } => (IndexState { ids: st.ids.remove(id), ..st }, None),
    }
}

/// Whether a step marks the segment stale.
pub open spec fn is_mark(s: StepView) -> bool {
    s is BeginWrite || s is BeginRemoval
}

/// What performing a step does to the place of the segment.
pub open spec fn slot_after(s: StepView, slot: SlotView) -> SlotView {
    if is_mark(s) {
        marked(slot)
    } else {
        slot
    }
}

/// How many steps are left at most.
pub open spec fn steps_left(s: StepView) -> nat {
    match s {
        StepView::Finished => 0,
        StepView::BeginWrite { .. } => 6,
        StepView::FindPoint { .. } => 5,
        StepView::ReadCounter { .. } => 4,
        StepView::WriteCounter { .. } => 3,
        StepView::WritePoint { .. } => 2,
        StepView::WritePointId { .. } => 1,
        StepView::BeginRemoval { .. } => 4,
        StepView::FindPointToRemove { .. } => 3,
        StepView::RemovePoint { .. } => 2,
        StepView::RemovePointId { .. } => 1,
    }
}

/// The keys and the place of the segment after `s` and all steps that follow it.
pub open spec fn run(s: StepView, st: IndexState, slot: SlotView) -> (IndexState, SlotView)
    decreases steps_left(s),
{
    if s is Finished {
        (st, slot)
    } else {
        let (after, reply) = perform(s, st);
        run(next_step(s, reply), after, slot_after(s, slot))
    }
}

/// Adding or updating a record writes its vector, under the point id that it has or else under
/// the next free one, and marks the segment stale, once.
pub proof fn indexing_a_vector_applies_it(
    st: IndexState,
    slot: SlotView,
    rid: Seq<u8>,
    vector: Seq<u32>,
)
    ensures
        run(StepView::BeginWrite { id: rid, vector }, st, slot) == (
            st.changed(rid, Some(vector)),
            marked(slot),
        ),
{
    reveal_with_fuel(run, 8);
    let end = run(StepView::BeginWrite { id: rid, vector }, st, slot).0;
    let want = st.changed(rid, Some(vector));
    assert(end.points =~= want.points);
    assert(end.ids =~= want.ids);
}

/// Removing a record deletes its point and its point id, where it has one, and marks the segment
/// stale, once.
pub proof fn removing_a_record_applies_it(st: IndexState, slot: SlotView, rid: Seq<u8>)
    ensures
        run(StepView::BeginRemoval { id: rid }, st, slot) == (
            st.changed(rid, None),
            marked(slot),
        ),
{
    reveal_with_fuel(run, 8);
}

/// Changes keep records and points in step, as long as the counter has not run out: once it
/// stands at the largest number it hands that number out again and again.
pub proof fn changes_keep_the_index_consistent(
    st: IndexState,
    rid: Seq<u8>,
    vector: Option<Seq<u32>>,
)
    requires
        st.consistent(),
        vector is Some && !st.ids.contains_key(rid) ==> st.next_id() < u64::MAX,
    ensures
        st.changed(rid, vector).consistent(),
{
    let end = st.changed(rid, vector);
    assert forall|r: Seq<u8>| #[trigger] end.ids.contains_key(r) implies end.points.contains_key(
        end.ids[r],
    ) && end.points[end.ids[r]].rid == r by {
        if r != rid {
            assert(st.ids.contains_key(r));
            assert(st.points.contains_key(st.ids[r]));
        }
    }
    assert forall|p: u64| #[trigger] end.points.contains_key(p) implies end.ids.contains_key(
        end.points[p].rid,
    ) && end.ids[end.points[p].rid] == p && p < end.next_id() by {
        if st.points.contains_key(p) {
            assert(st.ids.contains_key(st.points[p].rid));
        }
    }
}

/// An empty index is consistent.
pub proof fn empty_index_is_consistent()
    ensures
        (IndexState { counter: None, ids: Map::empty(), points: Map::empty() }).consistent(),
{
}

/// After a record was indexed its vector is the one given, and after it was removed it has none.
pub proof fn a_record_has_the_vector_last_given(
    st: IndexState,
    rid: Seq<u8>,
    vector: Option<Seq<u32>>,
)
    ensures
        st.changed(rid, vector).vector_of(rid) == vector,
{
}

/// A change of one record leaves every other record with the point and the vector that it had.
pub proof fn other_records_keep_their_vectors(
    st: IndexState,
    rid: Seq<u8>,
    vector: Option<Seq<u32>>,
    other: Seq<u8>,
)
    requires
        st.consistent(),
        other != rid,
    ensures
        st.changed(rid, vector).ids.get(other) == st.ids.get(other),
        st.changed(rid, vector).vector_of(other) == st.vector_of(other),
{
    let end = st.changed(rid, vector);
    assert(end.ids.contains_key(other) == st.ids.contains_key(other));
    if st.ids.contains_key(other) {
        assert(st.points.contains_key(st.ids[other]));
        assert(st.points[st.ids[other]].rid == other);
        if st.ids.contains_key(rid) {
            assert(st.points[st.ids[rid]].rid == rid);
        }
    }
}

/// An update keeps the record's point id; a new record gets one that no point has.
pub proof fn point_ids_are_kept_and_fresh(st: IndexState, rid: Seq<u8>, vector: Seq<u32>)
    requires
        st.consistent(),
    ensures
        ({
            let end = st.changed(rid, Some(vector));
            &&& st.ids.contains_key(rid) ==> end.ids[rid] == st.ids[rid] && end.counter
                == st.counter
            &&& !st.ids.contains_key(rid) ==> !st.points.contains_key(end.ids[rid])
        }),
{
}

/// The counter never goes back, so a point id is not given to a second record, even after the
/// first has been removed, before the counter runs out.
pub proof fn the_counter_never_goes_back(st: IndexState, rid: Seq<u8>, vector: Option<Seq<u32>>)
    ensures
        st.next_id() <= st.changed(rid, vector).next_id(),
        vector is Some && !st.ids.contains_key(rid) && st.next_id() < u64::MAX ==> st.changed(
            rid,
            vector,
        ).ids[rid] < st.changed(rid, vector).next_id(),
{
}

/// Indexing a record twice with one vector is the same as doing it once.
pub proof fn indexing_is_idempotent(st: IndexState, rid: Seq<u8>, vector: Option<Seq<u32>>)
    ensures
        st.changed(rid, vector).changed(rid, vector) == st.changed(rid, vector),
{
    let once = st.changed(rid, vector);
    let twice = once.changed(rid, vector);
    assert(twice.points =~= once.points);
    assert(twice.ids =~= once.ids);
}

/// Removing a record that was added to an index without it gives back what was there, but for
/// the point id that is spent.
pub proof fn removal_undoes_addition(st: IndexState, rid: Seq<u8>, vector: Seq<u32>)
    requires
        st.consistent(),
        !st.ids.contains_key(rid),
    ensures
        ({
            let end = st.changed(rid, Some(vector)).changed(rid, None);
            end.ids == st.ids && end.points == st.points
        }),
{
    let end = st.changed(rid, Some(vector)).changed(rid, None);
    assert(end.ids =~= st.ids);
    assert(!st.points.contains_key(st.next_id()));
    assert(end.points =~= st.points);
}

/// What a segment holds after `list` of writes, where it held `contents` before.
pub open spec fn written(contents: Map<u64, Seq<u32>>, list: Seq<UpsertView>) -> Map<u64, Seq<u32>>
    decreases list.len(),
{
    if list.len() == 0 {
        contents
    } else {
        written(contents, list.drop_last()).insert(list.last().id, list.last().vector)
    }
}

/// The entry of the point `p`, where the store holds `points` for the index `root`.
pub open spec fn entry_of(root: RootView, points: Map<u64, PointView>, p: u64) -> EntryView {
    EntryView { key: QvView { root, point_id: p }.encoded(), payload: Ok(points[p]) }
}

/// `e` is the entry of some point.
#[verifier::opaque]
pub open spec fn is_entry(e: EntryView, root: RootView, points: Map<u64, PointView>) -> bool {
    exists|p: u64| #[trigger] points.contains_key(p) && e == entry_of(root, points, p)
}

/// `e` occurs in `list`.
#[verifier::opaque]
pub open spec fn is_listed(list: Seq<EntryView>, e: EntryView) -> bool {
    list.contains(e)
}

/// `list` is what a scan of the `!qv` range of the index `root` gives, where the store holds
/// `points`: an entry for every point, and no others.
pub open spec fn is_scan(list: Seq<EntryView>, root: RootView, points: Map<u64, PointView>) -> bool {
    &&& forall|i: int| 0 <= i < list.len() ==> is_entry(#[trigger] list[i], root, points)
    &&& forall|p: u64| #[trigger]
        points.contains_key(p) ==> is_listed(list, entry_of(root, points, p))
}

/// The entry of a point loads to that point.
pub proof fn entries_load(e: EntryView, root: RootView, points: Map<u64, PointView>) -> (p: u64)
    requires
        is_entry(e, root, points),
    ensures
        points.contains_key(p),
        e == entry_of(root, points, p),
        loaded_entry(e) == Ok::<(u64, Seq<u32>), RebuildFault>((p, points[p].vector)),
{
    reveal(is_entry);
    let p = choose|p: u64| #[trigger] points.contains_key(p) && e == entry_of(root, points, p);
    decode_undoes_encode(QvView { root, point_id: p });
    p
}

/// What a segment holds after the first `n` writes of a scan.
proof fn written_of_scan(
    list: Seq<EntryView>,
    root: RootView,
    points: Map<u64, PointView>,
    n: nat,
)
    requires
        is_scan(list, root, points),
        n <= list.len(),
    ensures
        ({
            let m = written(Map::empty(), writes(list, 0).take(n as int));
            &&& forall|p: u64| #[trigger]
                m.contains_key(p) ==> points.contains_key(p) && m[p] == points[p].vector
            &&& forall|i: int|
                0 <= i < n ==> m.contains_key(loaded_entry(#[trigger] list[i])->Ok_0.0)
        }),
    decreases n,
{
    let w = writes(list, 0).take(n as int);
    if n > 0 {
        written_of_scan(list, root, points, (n - 1) as nat);
        assert(w.drop_last() =~= writes(list, 0).take(n - 1));
        let p = entries_load(list[n - 1], root, points);
        assert(w.last().id == p && w.last().vector == points[p].vector);
        let before = written(Map::empty(), w.drop_last());
        let m = written(Map::empty(), w);
        assert(m == before.insert(p, points[p].vector));
        assert forall|i: int| 0 <= i < n implies m.contains_key(
            loaded_entry(#[trigger] list[i])->Ok_0.0,
        ) by {
            if i < n - 1 {
                assert(before.contains_key(loaded_entry(list[i])->Ok_0.0));
            }
        }
    }
}

/// Loading a scan of the store into a fresh segment makes it the mirror of the store.
pub proof fn a_rebuilt_segment_mirrors_the_store(
    list: Seq<EntryView>,
    root: RootView,
    st: IndexState,
)
    requires
        is_scan(list, root, st.points),
    ensures
        loadable(list) == list.len(),
        written(Map::empty(), writes(list, 0)) == st.mirror(),
{
    let points = st.points;
    assert forall|i: int| 0 <= i < list.len() implies loaded_entry(#[trigger] list[i]) is Ok by {
        entries_load(list[i], root, points);
    }
    loadable_counts(list, list.len());
    written_of_scan(list, root, points, list.len());
    let w = writes(list, 0);
    assert(w.take(list.len() as int) =~= w);
    let m = written(Map::empty(), w);
    assert forall|p: u64| #[trigger] points.contains_key(p) implies m.contains_key(p) by {
        assert(is_listed(list, entry_of(root, points, p)));
        let i = index_of(list, entry_of(root, points, p));
        let q = entries_load(list[i], root, points);
        encoding_is_injective(QvView { root, point_id: p }, QvView { root, point_id: q });
        assert(m.contains_key(loaded_entry(list[i])->Ok_0.0));
    }
    assert(m =~= st.mirror());
}

proof fn index_of(list: Seq<EntryView>, e: EntryView) -> (i: int)
    requires
        is_listed(list, e),
    ensures
        0 <= i < list.len(),
        list[i] == e,
{
    reveal(is_listed);
    choose|i: int| 0 <= i < list.len() && list[i] == e
}

/// It makes no difference how a scan is cut into batches.
pub proof fn batches_add_up(a: Seq<EntryView>, b: Seq<EntryView>, op: nat, contents: Map<u64, Seq<u32>>)
    ensures
        writes(a + b, op) == writes(a, op) + writes(b, op + a.len()),
        written(contents, writes(a + b, op)) == written(
            written(contents, writes(a, op)),
            writes(b, op + a.len()),
        ),
{
    let (wa, wb) = (writes(a, op), writes(b, op + a.len()));
    assert(writes(a + b, op) =~= wa + wb);
    written_in_two_parts(contents, wa, wb);
}

proof fn written_in_two_parts(
    contents: Map<u64, Seq<u32>>,
    a: Seq<UpsertView>,
    b: Seq<UpsertView>,
)
    ensures
        written(contents, a + b) == written(written(contents, a), b),
    decreases b.len(),
{
    if b.len() == 0 {
        assert(a + b =~= a);
    } else {
        assert((a + b).drop_last() =~= a + b.drop_last());
        written_in_two_parts(contents, a, b.drop_last());
    }
}

/// Running a search to its end, where the store holds `points`.
pub open spec fn searched(s: KnnView, points: Map<u64, PointView>) -> Seq<NeighbourView>
    decreases s.hits.len(),
{
    match fetched(s) {
        None => s.results,
        Some((point_id, score, rest)) => {
            proof {
                first_numeric_is_numeric(s.hits);
            }
            searched(replied(rest, score, points.get(point_id)), points)
        },
    }
}

/// A turn of a search, which is to ask for the next point and to be told what the store holds
/// there, does not change what the search gives in the end. Where nothing is asked for, that has
/// been found.
pub proof fn a_turn_keeps_the_search(
    before: KnnSearch,
    step: KnnStep,
    payload: Option<QortexVecValue>,
    after: KnnSearch,
    points: Map<u64, PointView>,
)
    requires
        is_step_of(before@, step),
        step matches KnnStep::Fetch { point_id, pending } ==> stored(payload) == points.get(point_id)
            && after@ == replied(pending.search@, pending.score, stored(payload)),
    ensures
        step is Fetch ==> searched(after@, points) == searched(before@, points) && after@.hits.len()
            < before@.hits.len(),
        step matches KnnStep::Done { results } ==> neighbours(results@) == searched(before@, points),
{
    first_numeric_is_numeric(before@.hits);
}

proof fn skipping_changes_nothing(
    tb: Seq<char>,
    hits: Seq<(PointId, u32)>,
    points: Map<u64, PointView>,
)
    ensures
        resolved(tb, from_first_numeric(hits), points) == resolved(tb, hits, points),
    decreases hits.len(),
{
    if hits.len() > 0 && !(hits[0].0 is NumId) {
        skipping_changes_nothing(tb, hits.drop_first(), points);
    }
}

/// A search gives the records of the points that were hit and are still stored, in the order of
/// the hits. Hits on points that are gone are passed over.
pub proof fn searches_resolve_their_hits(s: KnnView, points: Map<u64, PointView>)
    ensures
        searched(s, points) == s.results + resolved(s.tb, s.hits, points),
    decreases s.hits.len(),
{
    let rest = from_first_numeric(s.hits);
    skipping_changes_nothing(s.tb, s.hits, points);
    first_numeric_is_numeric(s.hits);
    if rest.len() == 0 {
        assert(s.results + resolved(s.tb, s.hits, points) =~= s.results);
    } else {
        let point_id = rest[0].0->NumId_0;
        let after = KnnView { hits: rest.drop_first(), ..s };
        if points.contains_key(point_id) {
            let n = NeighbourView {
                tb: s.tb,
                key: points[point_id].rid,
                score: crate::float::widened(rest[0].1),
            };
            let pushed = KnnView { results: s.results.push(n), ..after };
            searches_resolve_their_hits(pushed, points);
            assert(s.results.push(n) + resolved(s.tb, rest.drop_first(), points) =~= s.results + (
            seq![n] + resolved(s.tb, rest.drop_first(), points)));
        } else {
            searches_resolve_their_hits(after, points);
        }
    }
}

/// Every point that a mirror of the store can give as a hit leads to the record that is indexed
/// under it: a search over such hits loses none, and keeps their order and scores.
pub proof fn hits_of_a_mirror_lead_to_their_records(
    tb: Seq<char>,
    hits: Seq<(PointId, u32)>,
    st: IndexState,
)
    requires
        st.consistent(),
        forall|i: int|
            0 <= i < hits.len() ==> ((#[trigger] hits[i]).0 matches PointId::NumId(p)
                && st.mirror().contains_key(p)),
    ensures
        ({
            let found = resolved(tb, hits, st.points);
            &&& found.len() == hits.len()
            &&& forall|i: int|
                0 <= i < hits.len() ==> st.ids.contains_key((#[trigger] found[i]).key)
                    && hits[i].0 == PointId::NumId(st.ids[found[i].key]) && found[i].score
                    == crate::float::widened(hits[i].1) && found[i].tb == tb
        }),
    decreases hits.len(),
{
    if hits.len() > 0 {
        let rest = hits.drop_first();
        assert forall|i: int| 0 <= i < rest.len() implies ((#[trigger] rest[i]).0 matches PointId::NumId(
            p,
        ) && st.mirror().contains_key(p)) by {
            assert(rest[i] == hits[i + 1]);
        }
        hits_of_a_mirror_lead_to_their_records(tb, rest, st);
        let p = hits[0].0->NumId_0;
        assert(hits[0].0 is NumId && st.mirror().contains_key(p));
        assert(st.points.contains_key(p));
        let found = resolved(tb, hits, st.points);
        let tail = resolved(tb, rest, st.points);
        assert(found =~= seq![found[0]] + tail);
        assert forall|i: int| 0 <= i < hits.len() implies st.ids.contains_key(
            (#[trigger] found[i]).key,
        ) && hits[i].0 == PointId::NumId(st.ids[found[i].key]) && found[i].score
            == crate::float::widened(hits[i].1) && found[i].tb == tb by {
            if i > 0 {
                assert(found[i] == tail[i - 1]);
                assert(hits[i] == rest[i - 1]);
            }
        }
    }
}

/// Whatever the segment hits, a search names only records that are indexed, each in the table of
/// the index, and no more of them than there are hits.
pub proof fn searches_name_indexed_records_only(
    tb: Seq<char>,
    hits: Seq<(PointId, u32)>,
    st: IndexState,
)
    requires
        st.consistent(),
    ensures
        resolved(tb, hits, st.points).len() <= hits.len(),
        forall|i: int|
            0 <= i < resolved(tb, hits, st.points).len() ==> st.ids.contains_key(
                (#[trigger] resolved(tb, hits, st.points)[i]).key,
            ) && resolved(tb, hits, st.points)[i].tb == tb,
    decreases hits.len(),
{
    if hits.len() > 0 {
        let rest = hits.drop_first();
        searches_name_indexed_records_only(tb, rest, st);
        let found = resolved(tb, hits, st.points);
        let tail = resolved(tb, rest, st.points);
        assert forall|i: int| 0 <= i < found.len() implies st.ids.contains_key(
            (#[trigger] found[i]).key,
        ) && found[i].tb == tb by {
            if found.len() == tail.len() {
                assert(found == tail);
                assert(tail[i].tb == tb);
            } else if i > 0 {
                assert(found[i] == tail[i - 1]);
            }
        }
    }
}

/// The writes of a rebuild are numbered upwards without a gap.
pub proof fn writes_are_numbered(list: Seq<EntryView>, op: nat, i: int)
    requires
        op + list.len() <= u64::MAX,
        0 <= i < list.len(),
    ensures
        writes(list, op)[i].op == op + i + 1,
{
}

/// A record that was indexed can be found after the next rebuild: the segment holds its vector,
/// and a hit on its point leads to it.
pub proof fn an_indexed_record_can_be_found(
    st: IndexState,
    root: RootView,
    list: Seq<EntryView>,
    rid: Seq<u8>,
    vector: Seq<u32>,
    tb: Seq<char>,
    score: u32,
)
    requires
        is_scan(list, root, st.changed(rid, Some(vector)).points),
    ensures
        ({
            let end = st.changed(rid, Some(vector));
            let segment = written(Map::empty(), writes(list, 0));
            let p = end.ids[rid];
            &&& segment.contains_key(p)
            &&& segment[p] == vector
            &&& resolved(tb, seq![(PointId::NumId(p), score)], end.points) == seq![
                NeighbourView { tb, key: rid, score: crate::float::widened(score) },
            ]
        }),
{
    let end = st.changed(rid, Some(vector));
    a_rebuilt_segment_mirrors_the_store(list, root, end);
    let p = end.ids[rid];
    let hits = seq![(PointId::NumId(p), score)];
    assert(end.points.contains_key(p) && end.points[p].rid == rid);
    assert(end.mirror().contains_key(p));
    assert(hits.drop_first() =~= Seq::empty());
    assert(resolved(tb, hits.drop_first(), end.points) =~= Seq::empty());
    assert(resolved(tb, hits, end.points) =~= seq![
        NeighbourView { tb, key: rid, score: crate::float::widened(score) },
    ]);
}

/// A record that was removed is not found any more, whatever the segment hits, even before the
/// next rebuild.
pub proof fn a_removed_record_is_not_found(
    st: IndexState,
    rid: Seq<u8>,
    tb: Seq<char>,
    hits: Seq<(PointId, u32)>,
)
    requires
        st.consistent(),
    ensures
        ({
            let found = resolved(tb, hits, st.changed(rid, None).points);
            forall|i: int| 0 <= i < found.len() ==> (#[trigger] found[i]).key != rid
        }),
{
    let end = st.changed(rid, None);
    changes_keep_the_index_consistent(st, rid, None);
    searches_name_indexed_records_only(tb, hits, end);
}

/// The points that a store holds for the index `root`, where `kv` are its `!qv` entries, those
/// of all indexes together.
pub open spec fn points_in(kv: Map<Seq<u8>, PointView>, root: RootView) -> Map<u64, PointView> {
    Map::new(
        |p: u64| kv.contains_key(QvView { root, point_id: p }.encoded()),
        |p: u64| kv[QvView { root, point_id: p }.encoded()],
    )
}

/// `k` is the key of a point of some index.
#[verifier::opaque]
pub open spec fn is_point_key(k: Seq<u8>) -> bool {
    exists|q: QvView| k == #[trigger] q.encoded()
}

/// Reading the key range of an index from a store that many indexes share gives the points of
/// that index, all of them and no others.
pub proof fn a_range_scan_finds_the_points_of_its_index(
    kv: Map<Seq<u8>, PointView>,
    ns: NamespaceId,
    db: DatabaseId,
    tb: Seq<char>,
    ix: IndexId,
    list: Seq<EntryView>,
)
    requires
        forall|k: Seq<u8>| #[trigger] kv.contains_key(k) ==> is_point_key(k),
        forall|i: int|
            0 <= i < list.len() ==> kv.contains_key((#[trigger] list[i]).key) && lex_within(
                range_start(qv_root(ns, db, tb, ix)),
                list[i].key,
                range_end(qv_root(ns, db, tb, ix)),
            ) && list[i].payload == Ok::<PointView, Seq<char>>(kv[list[i].key]),
        forall|k: Seq<u8>| #[trigger]
            kv.contains_key(k) && lex_within(
                range_start(qv_root(ns, db, tb, ix)),
                k,
                range_end(qv_root(ns, db, tb, ix)),
            ) ==> is_listed(list, EntryView { key: k, payload: Ok(kv[k]) }),
    ensures
        is_scan(list, qv_root(ns, db, tb, ix), points_in(kv, qv_root(ns, db, tb, ix))),
{
    let root = qv_root(ns, db, tb, ix);
    let points = points_in(kv, root);
    assert forall|i: int| 0 <= i < list.len() implies is_entry(#[trigger] list[i], root, points) by {
        let k = list[i].key;
        assert(kv.contains_key(k));
        reveal(is_point_key);
        let q = choose|q: QvView| k == #[trigger] q.encoded();
        range_holds_no_other_index(ns, db, tb, ix, q);
        reveal(is_entry);
        assert(points.contains_key(q.point_id));
        assert(list[i] == entry_of(root, points, q.point_id));
    }
    assert forall|p: u64| #[trigger] points.contains_key(p) implies is_listed(
        list,
        entry_of(root, points, p),
    ) by {
        range_covers_every_point(ns, db, tb, ix, p);
        let k = QvView { root, point_id: p }.encoded();
        assert(kv.contains_key(k));
    }
}

} // verus!
