//! Turning the hits of a segment search into records.
//!
//! The segment knows points, not records. For each hit the payload of the point is read from the
//! store, which names the record. [`KnnSearch`] says which payload to read next, and is told
//! what the store holds.

use vstd::prelude::*;
use std::collections::VecDeque;
use crate::catalog::TableName;
use crate::float::{double_from_single, widened};
use crate::segment::PointId;
use crate::vector::{PointView, QortexVecValue, RecordIdKey};

verus! {

/// The id of a record: its table, and its key within it.
#[derive(Debug)]
pub struct RecordId {
    pub tb: TableName,
    pub key: RecordIdKey,
}

/// One neighbour: the record, and its score as a double-precision bit pattern.
#[derive(Debug)]
pub struct KnnResult {
    pub record: RecordId,
    pub score: u64,
}

/// The contents of a neighbour.
pub struct NeighbourView {
    pub tb: Seq<char>,
    pub key: Seq<u8>,
    pub score: u64,
}

impl View for KnnResult {
    type V = NeighbourView;

    open spec fn view(&self) -> NeighbourView {
        NeighbourView { tb: self.record.tb@, key: self.record.key@, score: self.score }
    }
}

/// A search whose hits are being turned into records.
#[derive(Debug)]
pub struct KnnSearch {
    /// The table that the index is on.
    pub tb: TableName,
    /// The hits that have not been looked at, best first.
    pub hits: VecDeque<(PointId, u32)>,
    /// The records found, best first.
    pub results: VecDeque<KnnResult>,
}

/// A search that waits for the payload of a point.
#[derive(Debug)]
pub struct KnnPending {
    pub search: KnnSearch,
    /// The score of the point.
    pub score: u32,
}

/// What a search needs next.
#[derive(Debug)]
pub enum KnnStep {
    /// Read `!qv` of the point.
    Fetch { point_id: u64, pending: KnnPending },
    /// Nothing: these are the neighbours, best first.
    Done { results: VecDeque<KnnResult> },
}

/// The contents of a search.
pub struct KnnView {
    pub tb: Seq<char>,
    pub hits: Seq<(PointId, u32)>,
    pub results: Seq<NeighbourView>,
}

/// The contents of neighbours, in their order.
pub open spec fn neighbours(results: Seq<KnnResult>) -> Seq<NeighbourView> {
    results.map_values(|r: KnnResult| r@)
}

impl View for KnnSearch {
    type V = KnnView;

    open spec fn view(&self) -> KnnView {
        KnnView { tb: self.tb@, hits: self.hits@, results: neighbours(self.results@) }
    }
}

/// `hits` from the first that has a numeric id on. Points of an index have no other ids.
pub open spec fn from_first_numeric(hits: Seq<(PointId, u32)>) -> Seq<(PointId, u32)>
    decreases hits.len(),
{
    if hits.len() == 0 || hits[0].0 is NumId {
        hits
    } else {
        from_first_numeric(hits.drop_first())
    }
}

/// The neighbours that `hits` stand for, where the store holds `points`: for each hit on a
/// stored point the record of that point, in the order of the hits.
pub open spec fn resolved(
    tb: Seq<char>,
    hits: Seq<(PointId, u32)>,
    points: Map<u64, PointView>,
) -> Seq<NeighbourView>
    decreases hits.len(),
{
    if hits.len() == 0 {
        Seq::empty()
    } else {
        let rest = resolved(tb, hits.drop_first(), points);
        match hits[0].0 {
            PointId::NumId(point_id) => if points.contains_key(point_id) {
                seq![NeighbourView { tb, key: points[point_id].rid, score: widened(hits[0].1) }]
                    + rest
            } else {
                rest
            },
            PointId::Uuid(_) => rest,
        }
    }
}

/// What a search needs next, where it is not done: the point to read, its score, and the search
/// without the hits that have been looked at.
pub open spec fn fetched(s: KnnView) -> Option<(u64, u32, KnnView)> {
    let rest = from_first_numeric(s.hits);
    if rest.len() == 0 {
        None
    } else {
        Some((rest[0].0->NumId_0, rest[0].1, KnnView { hits: rest.drop_first(), ..s }))
    }
}

/// The search after the point with the given score was read.
pub open spec fn replied(s: KnnView, score: u32, payload: Option<PointView>) -> KnnView {
    match payload {
        None => s,
        Some(p) => KnnView {
            results: s.results.push(
                NeighbourView { tb: s.tb, key: p.rid, score: widened(score) },
            ),
            ..s
        },
    }
}

/// `step` is what the search `s` needs next.
pub open spec fn is_step_of(s: KnnView, step: KnnStep) -> bool {
    match fetched(s) {
        None => step matches KnnStep::Done { results } && neighbours(results@) == s.results,
        Some((p, score, rest)) => step matches KnnStep::Fetch { point_id, pending } && point_id == p
            && pending.score == score && pending.search@ == rest,
    }
}

/// The contents of what the store returned for a point.
pub open spec fn stored(payload: Option<QortexVecValue>) -> Option<PointView> {
    match payload {
        None => None,
        Some(p) => Some(p@),
    }
}

/// The first hit that is not passed over has a numeric id.
pub proof fn first_numeric_is_numeric(hits: Seq<(PointId, u32)>)
    ensures
        from_first_numeric(hits).len() <= hits.len(),
        from_first_numeric(hits).len() > 0 ==> from_first_numeric(hits)[0].0 is NumId,
    decreases hits.len(),
{
    if hits.len() > 0 && !(hits[0].0 is NumId) {
        first_numeric_is_numeric(hits.drop_first());
    }
}

impl KnnSearch {
    /// A search on the table `tb` with the given hits, best first.
    pub fn new(tb: &TableName, hits: Vec<(PointId, u32)>) -> (s: KnnSearch)
        ensures
            s@ == (KnnView { tb: tb@, hits: hits@, results: Seq::empty() }),
            s.tb@ == tb@,
            s.hits@ == hits@,
            s.results@.len() == 0,
    {
        let mut queue: VecDeque<(PointId, u32)> = VecDeque::new();
        for i in 0..hits.len()
            invariant
                queue@ == hits@.take(i as int),
        {
            queue.push_back(hits[i]);
            assert(hits@.take(i + 1) =~= hits@.take(i as int).push(hits@[i as int]));
        }
        assert(hits@.take(hits@.len() as int) =~= hits@);
        let s = KnnSearch { tb: tb.clone(), hits: queue, results: VecDeque::new() };
        assert(neighbours(s.results@) =~= Seq::empty());
        s
    }

    /// What the search needs next. Hits without a numeric id are passed over.
    pub fn step(self) -> (s: KnnStep)
        ensures
            is_step_of(self@, s),
            s matches KnnStep::Done { results } ==> results == self.results,
            s matches KnnStep::Fetch { point_id, pending } ==> pending.search.results
                == self.results && pending.search.tb == self.tb,
            ({
                let rest = from_first_numeric(self@.hits);
                if rest.len() == 0 {
                    s matches KnnStep::Done { results } && neighbours(results@) == self@.results
                } else {
                    s matches KnnStep::Fetch { point_id, pending } && rest[0].0 == PointId::NumId(
                        point_id,
                    ) && rest[0].1 == pending.score && pending.search@ == (KnnView {
                        hits: rest.drop_first(),
                        ..self@
                    })
                }
            }),
    {
        let mut search = self;
        loop
            invariant
                from_first_numeric(search@.hits) == from_first_numeric(self@.hits),
                search.tb == self.tb,
                search.results == self.results,
            decreases search.hits@.len(),
        {
            let ghost before = search.hits@;
            match search.hits.pop_front() {
                None => {
                    return KnnStep::Done { results: search.results };
                },
                Some((PointId::NumId(point_id), score)) => {
                    assert(search.hits@ =~= before.drop_first());
                    return KnnStep::Fetch { point_id, pending: KnnPending { search, score } };
                },
                Some((PointId::Uuid(_), _)) => {
                    assert(search.hits@ =~= before.drop_first());
                },
            }
        }
    }
}

impl KnnPending {
    /// Goes on with what the store holds under the point: its payload, or nothing where the
    /// point was removed since the segment was built. Such a stale hit is passed over.
    pub fn reply(self, payload: Option<QortexVecValue>) -> (s: KnnSearch)
        ensures
            s@ == replied(self.search@, self.score, stored(payload)),
            s.tb == self.search.tb,
            s.hits == self.search.hits,
            payload is None ==> s.results == self.search.results,
            payload matches Some(p) ==> s.results@.len() == self.search.results@.len() + 1
                && s.results@.drop_last() == self.search.results@ && s.results@.last().record.tb@
                == self.search.tb@ && s.results@.last().record.key == p.rid
                && s.results@.last().score == widened(self.score),
            s@.tb == self.search@.tb,
            s@.hits == self.search@.hits,
            payload is None ==> s@.results == self.search@.results,
            payload matches Some(p) ==> s@.results == self.search@.results.push(
                NeighbourView {
                    tb: self.search@.tb,
                    key: p@.rid,
                    score: widened(self.score),
                },
            ),
    {
        let mut search = self.search;
        match payload {
            None => search,
            Some(p) => {
                let record = RecordId { tb: search.tb.clone(), key: p.rid };
                let result = KnnResult { record, score: double_from_single(self.score) };
                let ghost before = search.results@;
                search.results.push_back(result);
                assert(search.results@.drop_last() =~= before);
                assert(neighbours(search.results@) =~= neighbours(before).push(result@));
                search
            },
        }
    }
}

} // verus!
