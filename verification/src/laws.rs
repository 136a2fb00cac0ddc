//! What the operations of an index do, in terms of what goes into them and what comes out: how a
//! segment is set up, which value of a record is indexed and as what, what is asked of a segment
//! and what its answer becomes.

use vstd::prelude::*;
use crate::catalog::{Distance, IndexKeyBase, QortexParams, TableId, TableName};
use crate::change::IndexOp;
use crate::float::{
    double_from_single, equal_singles, single_from_double, single_from_half, single_from_i64,
    single_of_double_is_unique, single_of_half_is_unique, single_of_integer_is_unique,
};
use crate::float_laws::{equal_numbers_have_one_value, signed_value};
use crate::index::{QortexIndex, StateError};
use crate::knn::{from_first_numeric, resolved, KnnPending, KnnSearch, KnnStep};
use crate::qv::KeyError;
use crate::rebuild::Rebuild;
use crate::segment::{
    PointId, QortexSegment, ScoredPoint, SearchRequest, SegmentDistance, UnsupportedDistance, Upsert,
};
use crate::slot::SegmentSlot;
use crate::vector::{
    first_present, serialized_to_f32, single_precision_is_unique, PointView,
    QortexVecValue, RecordIdKey, SerializedVector, Value, VectorError,
};

verus! {

/// A search gives as many hits as the segment found points, each with the id and the score of the
/// point in its place. Without a result there are none.
pub proof fn every_point_found_is_a_hit(
    batches: Vec<Vec<ScoredPoint>>,
    hits: Vec<(PointId, u32)>,
)
    requires
        call_ensures(QortexSegment::found, (&batches,), hits),
    ensures
        batches@.len() == 0 ==> hits@.len() == 0,
        batches@.len() > 0 ==> hits@.len() == batches@[0]@.len(),
        batches@.len() > 0 ==> forall|i: int|
            0 <= i < batches@[0]@.len() ==> (#[trigger] hits@[i]).0 == batches@[0]@[i].id
                && hits@[i].1 == batches@[0]@[i].score,
{
}

/// A segment is opened empty, with the size and the metric that were asked for, and searches
/// exactly.
pub proof fn a_segment_is_set_up_as_asked_for(
    dim: usize,
    distance: SegmentDistance,
    s: QortexSegment,
)
    requires
        call_ensures(QortexSegment::open, (dim, distance), s),
    ensures
        s.config.size == dim,
        s.config.distance == distance,
        s.config.index is Plain,
        s.config.storage_type is InRamChunkedMmap,
        s.config.payload_storage_type is InRamMmap,
        s.op == 0,
{
}

/// The metric that a segment searches by is the one that the index was defined with. Normalized
/// or not, cosine is cosine, and the metrics that a segment does not know are refused.
pub proof fn metrics_are_kept(d: Distance, r: Result<SegmentDistance, UnsupportedDistance>)
    requires
        call_ensures(QortexIndex::map_distance, (&d,), r),
    ensures
        d is Cosine || d is CosineNormalized <==> (r matches Ok(s) && s is Cosine),
        d is Euclidean <==> (r matches Ok(s) && s is Euclid),
        d is InnerProduct <==> (r matches Ok(s) && s is Dot),
        d is Manhattan <==> (r matches Ok(s) && s is Manhattan),
        r matches Err(e) ==> e.distance == d,
{
}

/// The metrics that can be had are named to the user, whichever was asked for.
pub proof fn the_metrics_that_can_be_had_are_named(e: UnsupportedDistance, text: String)
    requires
        call_ensures(UnsupportedDistance::message, (&e,), text),
    ensures
        text@
            == "QORTEX supports COSINE, COSINE_NORMALIZED, EUCLIDEAN, INNER_PRODUCT, and MANHATTAN distances"@,
{
}

/// A new index is the one that was defined, with an empty segment of its dimension and its metric
/// that counts as stale. It is refused exactly where its metric is.
pub proof fn a_new_index_is_as_defined(
    ikb: IndexKeyBase,
    tb: TableId,
    p: QortexParams,
    r: Result<(QortexIndex, QortexSegment, SegmentSlot), UnsupportedDistance>,
    d: Result<SegmentDistance, UnsupportedDistance>,
)
    requires
        call_ensures(QortexIndex::new, (ikb, tb, &p), r),
        call_ensures(QortexIndex::map_distance, (&p.distance,), d),
    ensures
        d matches Err(e) ==> (r matches Err(f) && f == e),
        d matches Ok(metric) ==> (r matches Ok((index, segment, slot)) && index.dim == p.dimension
            && index.distance == p.distance && index.vector_type == p.vector_type && index.table_id
            == tb && index.ikb == ikb && segment.config.size == p.dimension
            && segment.config.distance == metric && segment.config.index is Plain && segment.op
            == 0 && !slot.loaded && slot.unsettled == 0),
{
}

/// A stale segment is rebuilt with the dimension and the metric of its index, from the key range
/// of its index. A current one is left alone, whatever the metric.
pub proof fn a_rebuild_is_as_defined(
    index: QortexIndex,
    loaded: bool,
    r: Result<Option<Rebuild>, StateError>,
    d: Result<SegmentDistance, UnsupportedDistance>,
    range: Result<std::ops::Range<Vec<u8>>, KeyError>,
)
    requires
        call_ensures(QortexIndex::check_state, (&index, loaded), r),
        call_ensures(QortexIndex::map_distance, (&index.distance,), d),
        call_ensures(IndexKeyBase::new_qv_range, (&index.ikb,), range),
    ensures
        loaded ==> (r matches Ok(None)),
        !loaded ==> (d matches Err(e) ==> (r matches Err(StateError::Distance(f)) && f == e)),
        !loaded ==> (d matches Ok(metric) ==> (r matches Ok(Some(rebuild))
            && rebuild.segment.config.size == index.dim && rebuild.segment.config.distance == metric
            && rebuild.segment.config.index is Plain && rebuild.segment.op == 0 && (range matches Ok(
            own,
        ) && rebuild.range.start@ == own.start@ && rebuild.range.end@ == own.end@))),
{
}

/// Each write goes to its point with its vector, under the number after that of the write before.
pub proof fn writes_keep_point_and_vector(
    before: QortexSegment,
    id: u64,
    vector: Vec<u32>,
    u: Upsert,
    after: QortexSegment,
)
    requires
        before.op < u64::MAX,
        exists|s: &mut QortexSegment|
            *s == before && *final(s) == after && #[trigger] call_ensures(
                QortexSegment::insert,
                (s, id, &vector),
                u,
            ),
    ensures
        u.id == id,
        u.vector@ == vector@,
        u.op == before.op + 1,
        after.op == u.op,
        after.config == before.config,
{
}

/// A search asks for the given number of neighbours of the given vector.
pub proof fn searches_ask_for_what_is_wanted(
    s: QortexSegment,
    vector: Vec<u32>,
    k: usize,
    q: SearchRequest,
)
    requires
        call_ensures(QortexSegment::search, (&s, vector, k), q),
    ensures
        q.vector == vector,
        q.top == k,
        !q.with_payload && !q.with_vector,
        q.search_optimized_threshold_kb == 20_000,
{
}

/// A search of an index asks for the given number of neighbours, and its query is the given one,
/// element by element in single precision.
pub proof fn queries_are_narrowed(
    index: QortexIndex,
    s: QortexSegment,
    pt: Vec<u64>,
    k: usize,
    q: SearchRequest,
    i: int,
    narrow: u32,
)
    requires
        call_ensures(QortexIndex::knn_query, (&index, &s, &pt, k), q),
        0 <= i < pt@.len(),
        call_ensures(single_from_double, (pt@[i],), narrow),
    ensures
        q.top == k,
        q.vector@.len() == pt@.len(),
        q.vector@[i] == narrow,
        !q.with_payload && !q.with_vector,
        q.search_optimized_threshold_kb == 20_000,
{
    single_of_double_is_unique(pt@[i], q.vector@[i], narrow);
}

/// A vector has as many elements as were given, whatever their type.
pub proof fn dimensions_count_elements(sv: SerializedVector, d: usize, r: Vec<u32>)
    requires
        call_ensures(SerializedVector::dimension, (&sv,), d),
        call_ensures(serialized_to_f32, (&sv,), r),
    ensures
        r@.len() == d,
        sv matches SerializedVector::F64(v) ==> d == v@.len(),
        sv matches SerializedVector::F32(v) ==> d == v@.len(),
        sv matches SerializedVector::I64(v) ==> d == v@.len(),
        sv matches SerializedVector::I32(v) ==> d == v@.len(),
        sv matches SerializedVector::I16(v) ==> d == v@.len(),
        sv matches SerializedVector::F16(v) ==> d == v@.len(),
        sv matches SerializedVector::I8(v) ==> d == v@.len(),
        sv matches SerializedVector::U8(v) ==> d == v@.len(),
{
}

/// A single-precision vector is stored unchanged.
pub proof fn single_precision_is_kept(v: Vec<u32>, r: Vec<u32>)
    requires
        call_ensures(serialized_to_f32, (&SerializedVector::F32(v),), r),
    ensures
        r@ == v@,
{
}

/// Every element of a double-precision vector is narrowed by itself, and in one way at all
/// positions.
pub proof fn doubles_are_narrowed_one_by_one(v: Vec<u64>, r: Vec<u32>, i: int, narrow: u32)
    requires
        call_ensures(serialized_to_f32, (&SerializedVector::F64(v),), r),
        0 <= i < v@.len(),
        call_ensures(single_from_double, (v@[i],), narrow),
    ensures
        r@.len() == v@.len(),
        r@[i] == narrow,
{
    let sv = SerializedVector::F64(v);
    assert(sv.element_is(i, r@[i]));
    single_of_double_is_unique(v@[i], r@[i], narrow);
}

/// Every element of a half-precision vector is widened by itself, and in one way at all positions.
pub proof fn halves_are_widened_one_by_one(v: Vec<u16>, r: Vec<u32>, i: int, wide: u32)
    requires
        call_ensures(serialized_to_f32, (&SerializedVector::F16(v),), r),
        0 <= i < v@.len(),
        call_ensures(single_from_half, (v@[i],), wide),
    ensures
        r@.len() == v@.len(),
        r@[i] == wide,
{
    let sv = SerializedVector::F16(v);
    assert(sv.element_is(i, r@[i]));
    single_of_half_is_unique(v@[i], r@[i], wide);
}

/// Every element of an integer vector is converted by itself, in one way at all positions and in
/// all integer types.
pub proof fn integers_are_converted_one_by_one(
    sv: SerializedVector,
    r: Vec<u32>,
    i: int,
    x: i64,
    single: u32,
)
    requires
        call_ensures(serialized_to_f32, (&sv,), r),
        match sv {
            SerializedVector::I64(v) => 0 <= i < v@.len() && v@[i] == x,
            SerializedVector::I32(v) => 0 <= i < v@.len() && v@[i] == x,
            SerializedVector::I16(v) => 0 <= i < v@.len() && v@[i] == x,
            SerializedVector::I8(v) => 0 <= i < v@.len() && v@[i] == x,
            SerializedVector::U8(v) => 0 <= i < v@.len() && v@[i] == x,
            _ => false,
        },
        call_ensures(single_from_i64, (x,), single),
    ensures
        i < r@.len(),
        r@[i] == single,
{
    assert(sv.element_is(i, r@[i]));
    single_of_integer_is_unique(x as int, r@[i], single);
}

/// A vector that is stored in single precision and given back as double precision, element by
/// element, is stored as it was.
pub proof fn stored_vectors_come_back(v: Vec<u32>, wide: Vec<u64>, r: Vec<u32>)
    requires
        wide@.len() == v@.len(),
        forall|i: int|
            0 <= i < v@.len() ==> call_ensures(double_from_single, (v@[i],), #[trigger] wide@[i])
                && v@[i] % 0x8000_0000 <= 0x7f80_0000,
        call_ensures(serialized_to_f32, (&SerializedVector::F64(wide),), r),
    ensures
        r@ == v@,
{
    let sv = SerializedVector::F64(wide);
    assert forall|i: int| 0 <= i < v@.len() implies r@[i] == v@[i] by {
        assert(sv.element_is(i, r@[i]));
        assert(call_ensures(double_from_single, (v@[i],), wide@[i]));
        crate::float::narrowing_undoes_widening(v@[i], wide@[i], r@[i]);
    }
    assert(r@ =~= v@);
}

/// A value of the dimension of the index is indexed as its vector in single precision. One of
/// another dimension is refused with both dimensions, and one that is no vector with the reason.
pub proof fn values_of_the_dimension_are_indexed(
    index: QortexIndex,
    coerced: Result<SerializedVector, String>,
    r: Result<Vec<u32>, VectorError>,
    d: usize,
    single: Vec<u32>,
)
    requires
        call_ensures(QortexIndex::value_to_f32, (&index, &coerced), r),
        coerced matches Ok(sv) ==> call_ensures(SerializedVector::dimension, (&sv,), d)
            && call_ensures(serialized_to_f32, (&sv,), single),
    ensures
        coerced is Ok && d == index.dim ==> (r matches Ok(v) && v@ == single@),
        coerced is Ok && d != index.dim ==> (r matches Err(
            VectorError::Dimension { current, expected },
        ) && current == d && expected == index.dim),
        coerced matches Err(why) ==> (r matches Err(VectorError::Invalid(text)) && text@ == why@),
{
    if let Ok(sv) = coerced {
        if d == index.dim {
            single_precision_is_unique(sv, r->Ok_0@, single@);
        }
    }
}

/// The first value that is neither `NONE` nor `NULL` is the one that counts, whatever it is. There
/// is none only where every value is `NONE` or `NULL`.
pub proof fn the_first_present_value_counts(values: Seq<Value>, n: int)
    requires
        0 <= n <= values.len(),
        forall|i: int| 0 <= i < n ==> (#[trigger] values[i] is Absent || values[i] is Null),
    ensures
        n < values.len() ==> (values[n] matches Value::Present(c) ==> first_present(values) == Some(
            c,
        )),
        n == values.len() ==> first_present(values) is None,
    decreases values.len(),
{
    if n > 0 {
        let rest = values.drop_first();
        assert(values[0] is Absent || values[0] is Null);
        assert forall|i: int| 0 <= i < n - 1 implies (#[trigger] rest[i] is Absent
            || rest[i] is Null) by {
            assert(rest[i] == values[i + 1]);
        }
        the_first_present_value_counts(rest, n - 1);
        if n < values.len() {
            assert(rest[n - 1] == values[n]);
        }
    }
}

/// What is picked from the values of a record: the first that is neither `NONE` nor `NULL`,
/// converted as such a value is, or refused where it is.
pub proof fn the_first_present_value_is_picked(
    index: QortexIndex,
    values: Vec<Value>,
    r: Result<Option<Vec<u32>>, VectorError>,
    n: int,
    coerced: Result<SerializedVector, String>,
    converted: Result<Vec<u32>, VectorError>,
)
    requires
        call_ensures(QortexIndex::first_vector, (&index, &values), r),
        0 <= n < values@.len(),
        forall|i: int| 0 <= i < n ==> (#[trigger] values@[i] is Absent || values@[i] is Null),
        values@[n] == Value::Present(coerced),
        call_ensures(QortexIndex::value_to_f32, (&index, &coerced), converted),
    ensures
        converted matches Ok(v) ==> (r matches Ok(Some(w)) && w@ == v@),
        converted matches Err(VectorError::Invalid(why)) ==> (r matches Err(
            VectorError::Invalid(text),
        ) && text@ == why@),
        converted matches Err(VectorError::Dimension { current, expected }) ==> (r matches Err(
            VectorError::Dimension { current: c, expected: e },
        ) && c == current && e == expected),
{
    the_first_present_value_counts(values@, n);
    if let Ok(sv) = coerced {
        if converted is Ok {
            single_precision_is_unique(sv, r->Ok_0->Some_0@, converted->Ok_0@);
        }
    }
}

/// Nothing is picked exactly where every value is `NONE` or `NULL`.
pub proof fn nothing_is_picked_where_nothing_is_present(
    index: QortexIndex,
    values: Vec<Value>,
    r: Result<Option<Vec<u32>>, VectorError>,
)
    requires
        call_ensures(QortexIndex::first_vector, (&index, &values), r),
    ensures
        (r matches Ok(None)) <==> forall|i: int|
            0 <= i < values@.len() ==> (#[trigger] values@[i] is Absent || values@[i] is Null),
{
    let n = present_from(values@, 0);
    the_first_present_value_counts(values@, n);
    if n < values@.len() {
        assert(!(values@[n] is Absent || values@[n] is Null));
        assert(first_present(values@) is Some);
    }
}

/// The position of the first value from `n` on that is neither `NONE` nor `NULL`.
proof fn present_from(values: Seq<Value>, n: int) -> (m: int)
    requires
        0 <= n <= values.len(),
        forall|i: int| 0 <= i < n ==> (#[trigger] values[i] is Absent || values[i] is Null),
    ensures
        0 <= m <= values.len(),
        forall|i: int| 0 <= i < m ==> (#[trigger] values[i] is Absent || values[i] is Null),
        m < values.len() ==> values[m] is Present,
    decreases values.len() - n,
{
    if n == values.len() || values[n] is Present {
        n
    } else {
        present_from(values, n + 1)
    }
}

/// A record with a vector among its new values is to be written under its id with that vector, or
/// is refused where the vector is. One without is to be removed. Where no values are given at all
/// there is nothing to do.
pub proof fn changes_follow_the_new_values(
    index: QortexIndex,
    id: RecordIdKey,
    old_values: Option<Vec<Value>>,
    new_values: Option<Vec<Value>>,
    r: Result<IndexOp, VectorError>,
    picked: Result<Option<Vec<u32>>, VectorError>,
)
    requires
        call_ensures(QortexIndex::index, (&index, &id, old_values, new_values), r),
        new_values matches Some(values) ==> call_ensures(
            QortexIndex::first_vector,
            (&index, &values),
            picked,
        ),
    ensures
        old_values is None && new_values is None ==> (r matches Ok(op) && op is Finished),
        old_values is Some && new_values is None ==> (r matches Ok(IndexOp::BeginRemoval { id: i })
            && i.bytes@ == id.bytes@),
        new_values is Some && (picked matches Ok(None)) ==> (r matches Ok(
            IndexOp::BeginRemoval { id: i },
        ) && i.bytes@ == id.bytes@),
        new_values is Some ==> (picked matches Ok(Some(v)) ==> (r matches Ok(
            IndexOp::BeginWrite { id: i, vector },
        ) && i.bytes@ == id.bytes@ && vector@ == v@)),
        new_values is Some ==> (picked matches Err(VectorError::Invalid(why)) ==> (r matches Err(
            VectorError::Invalid(text),
        ) && text@ == why@)),
        new_values is Some ==> (picked matches Err(
            VectorError::Dimension { current, expected },
        ) ==> (r matches Err(VectorError::Dimension { current: c, expected: e }) && c == current && e
            == expected)),
{
    if let Some(values) = new_values {
        if let Ok(Some(v)) = picked {
            let coerced = first_present(values@)->Some_0;
            single_precision_is_unique(coerced->Ok_0, v@, r->Ok_0->BeginWrite_vector@);
        }
    }
}

/// A copy of what is stored of a point, and of the key of a record, is the same.
pub proof fn copies_of_points_are_the_same(
    p: QortexVecValue,
    copy: QortexVecValue,
    id: RecordIdKey,
    other: RecordIdKey,
)
    requires
        call_ensures(<QortexVecValue as Clone>::clone, (&p,), copy),
        call_ensures(<RecordIdKey as Clone>::clone, (&id,), other),
    ensures
        copy.rid.bytes@ == p.rid.bytes@,
        copy.vector@ == p.vector@,
        other.bytes@ == id.bytes@,
{
}

/// A search begins with all hits of the segment, in their order, in the table of its index, and
/// with nothing found.
pub proof fn searches_begin_with_every_hit(
    index: QortexIndex,
    hits: Vec<(PointId, u32)>,
    s: KnnSearch,
)
    requires
        call_ensures(QortexIndex::knn_search, (&index, hits), s),
    ensures
        s.hits@ == hits@,
        s.results@.len() == 0,
        s.tb@ == index.ikb.tb@,
{
}

/// So does one that is begun by itself.
pub proof fn searches_by_themselves_begin_with_every_hit(
    tb: TableName,
    hits: Vec<(PointId, u32)>,
    s: KnnSearch,
)
    requires
        call_ensures(KnnSearch::new, (&tb, hits), s),
    ensures
        s.hits@ == hits@,
        s.results@.len() == 0,
        s.tb@ == tb@,
{
}

/// The hits before the first with a numeric id are passed over, and nothing else is.
pub proof fn only_hits_without_a_number_are_passed_over(hits: Seq<(PointId, u32)>, n: int)
    requires
        0 <= n <= hits.len(),
        forall|i: int| 0 <= i < n ==> (#[trigger] hits[i]).0 is Uuid,
        n < hits.len() ==> hits[n].0 is NumId,
    ensures
        from_first_numeric(hits) == hits.skip(n),
    decreases hits.len(),
{
    if n > 0 {
        let rest = hits.drop_first();
        assert(hits[0].0 is Uuid);
        assert forall|i: int| 0 <= i < n - 1 implies (#[trigger] rest[i]).0 is Uuid by {
            assert(rest[i] == hits[i + 1]);
        }
        only_hits_without_a_number_are_passed_over(rest, n - 1);
        assert(rest.skip(n - 1) =~= hits.skip(n));
    } else {
        assert(hits.skip(0) =~= hits);
    }
}

/// The next point to be read is that of the next hit with a numeric id, under the score of that
/// hit, and all hits after it are left. Where there is no such hit the search is done, with what
/// it had found.
pub proof fn the_next_numeric_hit_is_read(s: KnnSearch, step: KnnStep, n: int)
    requires
        call_ensures(KnnSearch::step, (s,), step),
        0 <= n <= s.hits@.len(),
        forall|i: int| 0 <= i < n ==> (#[trigger] s.hits@[i]).0 is Uuid,
        n < s.hits@.len() ==> s.hits@[n].0 is NumId,
    ensures
        n == s.hits@.len() ==> (step matches KnnStep::Done { results } && results@ == s.results@),
        n < s.hits@.len() ==> (step matches KnnStep::Fetch { point_id, pending } && s.hits@[n].0
            == PointId::NumId(point_id) && pending.score == s.hits@[n].1 && pending.search.hits@
            == s.hits@.skip(n + 1) && pending.search.results@ == s.results@ && pending.search.tb@
            == s.tb@),
{
    only_hits_without_a_number_are_passed_over(s.hits@, n);
    if n < s.hits@.len() {
        assert(s.hits@.skip(n)[0] == s.hits@[n]);
        assert(s.hits@.skip(n).drop_first() =~= s.hits@.skip(n + 1));
    }
}

/// A point that is stored adds one neighbour at the end: its record, in the table of the index,
/// with the score of its hit. A point that is gone adds nothing.
pub proof fn a_stored_point_is_one_more_neighbour(
    pending: KnnPending,
    payload: Option<QortexVecValue>,
    s: KnnSearch,
    score: u64,
)
    requires
        call_ensures(KnnPending::reply, (pending, payload), s),
        call_ensures(double_from_single, (pending.score,), score),
    ensures
        s.hits@ == pending.search.hits@,
        s.tb@ == pending.search.tb@,
        payload is None ==> s.results@ == pending.search.results@,
        payload matches Some(p) ==> s.results@.len() == pending.search.results@.len() + 1
            && s.results@.take(pending.search.results@.len() as int) == pending.search.results@
            && s.results@.last().record.tb@ == pending.search.tb@ && s.results@.last().record.key.bytes@
            == p.rid.bytes@ && s.results@.last().score == score,
{
    if payload is Some {
        assert(s.results@.drop_last() =~= s.results@.take(pending.search.results@.len() as int));
    }
}

/// The neighbours of two lists of hits one after the other are those of the first and then those
/// of the second: no hit has a part in what another one gives.
pub proof fn hits_are_resolved_one_by_one(
    tb: Seq<char>,
    a: Seq<(PointId, u32)>,
    b: Seq<(PointId, u32)>,
    points: Map<u64, PointView>,
)
    ensures
        resolved(tb, a + b, points) == resolved(tb, a, points) + resolved(tb, b, points),
    decreases a.len(),
{
    if a.len() == 0 {
        assert(a + b =~= b);
        assert(resolved(tb, a, points) + resolved(tb, b, points) =~= resolved(tb, b, points));
    } else {
        assert((a + b).drop_first() =~= a.drop_first() + b);
        hits_are_resolved_one_by_one(tb, a.drop_first(), b, points);
        assert(resolved(tb, a + b, points) =~= resolved(tb, a, points) + resolved(tb, b, points));
    }
}

/// A single hit on a stored point gives its record with the score of the hit, and one on a point
/// that is not stored, or under another kind of id, gives none.
pub proof fn a_hit_gives_its_record(
    tb: Seq<char>,
    id: PointId,
    score: u32,
    points: Map<u64, PointView>,
    wide: u64,
)
    requires
        call_ensures(double_from_single, (score,), wide),
    ensures
        ({
            let found = resolved(tb, seq![(id, score)], points);
            &&& id matches PointId::NumId(p) ==> points.contains_key(p) ==> found.len() == 1
                && found[0].tb == tb && found[0].key == points[p].rid && found[0].score == wide
            &&& id matches PointId::NumId(p) ==> !points.contains_key(p) ==> found.len() == 0
            &&& id is Uuid ==> found.len() == 0
        }),
{
    let hits = seq![(id, score)];
    assert(hits.drop_first() =~= Seq::empty());
    assert(resolved(tb, hits.drop_first(), points).len() == 0);
}

/// Stored points are equal exactly where they are of one record and their vectors have the same
/// numbers as elements. What is not a number is equal to nothing.
pub proof fn points_are_equal_as_numbers(a: QortexVecValue, b: QortexVecValue, r: bool)
    requires
        call_ensures(<QortexVecValue as PartialEq>::eq, (&a, &b), r),
    ensures
        r <==> a.rid.bytes@ == b.rid.bytes@ && a.vector@.len() == b.vector@.len() && (forall|i: int|
            0 <= i < a.vector@.len() ==> (#[trigger] a.vector@[i]) % 0x8000_0000 <= 0x7f80_0000
                && b.vector@[i] % 0x8000_0000 <= 0x7f80_0000 && signed_value(a.vector@[i])
                == signed_value(b.vector@[i])),
{
    assert forall|i: int| 0 <= i < a.vector@.len() implies (equal_singles(
        #[trigger] a.vector@[i],
        b.vector@[i],
    ) <==> a.vector@[i] % 0x8000_0000 <= 0x7f80_0000 && b.vector@[i] % 0x8000_0000 <= 0x7f80_0000
        && signed_value(a.vector@[i]) == signed_value(b.vector@[i])) by {
        equal_numbers_have_one_value(a.vector@[i], b.vector@[i]);
    }
}

} // verus!
