//! What holds of the `!qv` keys as a whole: no two keys share an encoding, decoding undoes
//! encoding, the range of an index holds its keys and no others, and keys sort as their fields
//! do.

use vstd::prelude::*;
use vstd::utf8::{decode_utf8_encode_utf8, encode_utf8, encode_utf8_decode_utf8, encode_utf8_valid_utf8};
use crate::bytes::{
    big_endian, big_endian_len, big_endian_of_from_big_endian, big_endian_order, digit_spans,
    escape, extensions_are_a_range, from_big_endian, from_big_endian_of_big_endian,
    less_at, lex_less, lex_less_after_prefix, lex_within, starts_with, unescape,
    unescape_of_escape,
};
use crate::catalog::{DatabaseId, IndexId, NamespaceId};
use crate::qv::{
    decoded, prefix_shape, qv_key, qv_marks, qv_root, range_end, range_start, QvView, RootView,
};

verus! {

/// The bytes before the table name determine the fields before it.
proof fn head_determines(a: RootView)
    ensures
        a.head().len() == 12,
        a.head()[0] == a.marks.root,
        a.head()[1] == a.marks.ns,
        a.head()[6] == a.marks.db,
        a.head()[11] == a.marks.tb,
        from_big_endian(a.head().subrange(2, 6)) == a.ns,
        from_big_endian(a.head().subrange(7, 11)) == a.db,
{
    prefix_shape(a);
    big_endian_len(a.ns as nat, 4);
    big_endian_len(a.db as nat, 4);
    digit_spans();
    from_big_endian_of_big_endian(a.ns as nat, 4);
    from_big_endian_of_big_endian(a.db as nat, 4);
    assert(a.head().subrange(2, 6) =~= big_endian(a.ns as nat, 4));
    assert(a.head().subrange(7, 11) =~= big_endian(a.db as nat, 4));
}

/// The bytes after the table name determine the fields after it.
proof fn foot_determines(a: RootView)
    ensures
        a.foot().len() == 8,
        a.foot()[0] == a.marks.ix,
        from_big_endian(a.foot().subrange(1, 5)) == a.ix,
        a.foot()[5] == a.marks.family.0,
        a.foot()[6] == a.marks.family.1,
        a.foot()[7] == a.marks.family.2,
{
    prefix_shape(a);
    big_endian_len(a.ix as nat, 4);
    digit_spans();
    from_big_endian_of_big_endian(a.ix as nat, 4);
    assert(a.foot().subrange(1, 5) =~= big_endian(a.ix as nat, 4));
}

/// After the head, an encoded prefix splits into the table name and the rest.
proof fn name_splits_off(root: RootView, rest: Seq<u8>)
    ensures
        (root.encoded() + rest).take(12) == root.head(),
        unescape((root.encoded() + rest).skip(12)) == Some(
            (encode_utf8(root.tb), root.foot() + rest),
        ),
{
    prefix_shape(root);
    let name = encode_utf8(root.tb);
    unescape_of_escape(name, root.foot() + rest);
    assert((root.encoded() + rest).take(12) =~= root.head());
    assert((root.encoded() + rest).skip(12) =~= escape(name) + seq![0u8] + (root.foot() + rest));
}

/// Decoding an encoded key gives the key back.
pub proof fn decode_undoes_encode(q: QvView)
    ensures
        decoded(q.encoded()) == Ok::<QvView, crate::codec::DecodeFault>(q),
{
    let k = q.encoded();
    let tail = big_endian(q.point_id as nat, 8);
    name_splits_off(q.root, tail);
    head_determines(q.root);
    foot_determines(q.root);
    big_endian_len(q.point_id as nat, 8);
    digit_spans();
    from_big_endian_of_big_endian(q.point_id as nat, 8);
    encode_utf8_valid_utf8(q.root.tb);
    encode_utf8_decode_utf8(q.root.tb);
    let foot = q.root.foot() + tail;
    assert(foot.subrange(8, 16) =~= tail);
    assert(foot.subrange(1, 5) =~= q.root.foot().subrange(1, 5));
    assert(k.subrange(2, 6) =~= k.take(12).subrange(2, 6));
    assert(k.subrange(7, 11) =~= k.take(12).subrange(7, 11));
    assert(k[0] == k.take(12)[0]);
    assert(k[1] == k.take(12)[1]);
    assert(k[6] == k.take(12)[6]);
    assert(k[11] == k.take(12)[11]);
}

/// Encoding a decoded key gives its bytes back, where the table name stands in them in escape
/// form. (A byte above one may be escaped needlessly: it is read all the same.)
pub proof fn encode_undoes_decode(k: Seq<u8>, q: QvView, name: Seq<u8>, foot: Seq<u8>)
    requires
        decoded(k) == Ok::<QvView, crate::codec::DecodeFault>(q),
        k.skip(12) == escape(name) + seq![0u8] + foot,
    ensures
        q.encoded() == k,
{
    unescape_of_escape(name, foot);
    assert((escape(name) + seq![0u8]) + foot == escape(name) + seq![0u8] + foot);
    decode_utf8_encode_utf8(name);
    digit_spans();
    big_endian_of_from_big_endian(k.subrange(2, 6));
    big_endian_of_from_big_endian(k.subrange(7, 11));
    big_endian_of_from_big_endian(foot.subrange(1, 5));
    big_endian_of_from_big_endian(foot.subrange(8, 16));
    let tail = big_endian(q.point_id as nat, 8);
    assert(q.root.head() =~= k.take(12));
    assert(q.root.foot() + tail =~= foot);
    assert(q.encoded() =~= q.root.head() + (escape(name) + seq![0u8] + (q.root.foot() + tail)));
    assert(k =~= k.take(12) + k.skip(12));
}

/// Distinct keys have distinct encodings.
pub proof fn encoding_is_injective(a: QvView, b: QvView)
    requires
        a.encoded() == b.encoded(),
    ensures
        a == b,
{
    decode_undoes_encode(a);
    decode_undoes_encode(b);
}

/// The prefixes of two indexes never run into each other: a byte string begins with the prefix
/// of one index at most.
pub proof fn prefixes_are_apart(a: RootView, b: RootView, k: Seq<u8>)
    requires
        starts_with(k, a.encoded()),
        starts_with(k, b.encoded()),
    ensures
        a == b,
{
    let x = k.skip(a.encoded().len() as int);
    let y = k.skip(b.encoded().len() as int);
    assert(k =~= a.encoded() + x);
    assert(k =~= b.encoded() + y);
    name_splits_off(a, x);
    name_splits_off(b, y);
    head_determines(a);
    head_determines(b);
    foot_determines(a);
    foot_determines(b);
    assert(a.foot() =~= (a.foot() + x).take(8));
    assert(b.foot() =~= (b.foot() + y).take(8));
    encode_utf8_decode_utf8(a.tb);
    encode_utf8_decode_utf8(b.tb);
}

/// The range of an index holds exactly the byte strings that properly extend its prefix.
pub proof fn range_holds_the_extensions(
    ns: NamespaceId,
    db: DatabaseId,
    tb: Seq<char>,
    ix: IndexId,
    k: Seq<u8>,
)
    ensures
        ({
            let root = qv_root(ns, db, tb, ix);
            lex_within(range_start(root), k, range_end(root)) <==> starts_with(k, root.encoded())
                && root.encoded().len() < k.len()
        }),
{
    let root = qv_root(ns, db, tb, ix);
    foot_determines(root);
    assert(root.encoded().last() == root.foot()[7]);
    extensions_are_a_range(root.encoded(), k);
}

/// The range of an index covers the key of every point id, from zero to the largest.
pub proof fn range_covers_every_point(
    ns: NamespaceId,
    db: DatabaseId,
    tb: Seq<char>,
    ix: IndexId,
    point_id: u64,
)
    ensures
        lex_within(
            range_start(qv_root(ns, db, tb, ix)),
            qv_key(ns, db, tb, ix, point_id).encoded(),
            range_end(qv_root(ns, db, tb, ix)),
        ),
{
    let root = qv_root(ns, db, tb, ix);
    let k = qv_key(ns, db, tb, ix, point_id).encoded();
    big_endian_len(point_id as nat, 8);
    assert(k.take(root.encoded().len() as int) =~= root.encoded());
    range_holds_the_extensions(ns, db, tb, ix, k);
}

/// The range of an index holds no key of another index, whatever family, table, database or
/// namespace that one is of.
pub proof fn range_holds_no_other_index(
    ns: NamespaceId,
    db: DatabaseId,
    tb: Seq<char>,
    ix: IndexId,
    other: QvView,
)
    requires
        lex_within(
            range_start(qv_root(ns, db, tb, ix)),
            other.encoded(),
            range_end(qv_root(ns, db, tb, ix)),
        ),
    ensures
        other == qv_key(ns, db, tb, ix, other.point_id),
{
    range_holds_the_extensions(ns, db, tb, ix, other.encoded());
    let k = other.encoded();
    assert(k.take(other.root.encoded().len() as int) =~= other.root.encoded());
    prefixes_are_apart(qv_root(ns, db, tb, ix), other.root, k);
}

/// The keys of one index sort by point id, so that a forward scan meets the points in the order
/// of their ids.
pub proof fn keys_of_an_index_sort_by_point(root: RootView, a: u64, b: u64)
    ensures
        lex_less(
            QvView { root, point_id: a }.encoded(),
            QvView { root, point_id: b }.encoded(),
        ) <==> a < b,
{
    digit_spans();
    lex_less_after_prefix(root.encoded(), big_endian(a as nat, 8), big_endian(b as nat, 8));
    big_endian_order(a as nat, b as nat, 8);
}

/// Where the first parts differ and have one length, they decide the order.
proof fn lex_less_of_fixed_parts(a: Seq<u8>, x: Seq<u8>, b: Seq<u8>, y: Seq<u8>)
    requires
        a.len() == b.len(),
        a != b,
    ensures
        lex_less(a + x, b + y) <==> lex_less(a, b),
{
    if lex_less(a, b) {
        let i = choose|i: int| less_at(a, b, i);
        assert((a + x).take(i) =~= a.take(i));
        assert((b + y).take(i) =~= b.take(i));
        assert(i < a.len());
        assert(less_at(a + x, b + y, i));
    }
    if lex_less(a + x, b + y) {
        let i = choose|i: int| less_at(a + x, b + y, i);
        if i >= a.len() {
            assert(a =~= (a + x).take(i).take(a.len() as int));
            assert(b =~= (b + y).take(i).take(a.len() as int));
        } else {
            assert((a + x).take(i) =~= a.take(i));
            assert((b + y).take(i) =~= b.take(i));
            assert(less_at(a, b, i));
        }
    }
}

proof fn first_bytes_decide(a: Seq<u8>, b: Seq<u8>)
    requires
        a.len() > 0,
        b.len() > 0,
        a[0] != b[0],
    ensures
        lex_less(a, b) <==> a[0] < b[0],
{
    if a[0] < b[0] {
        assert(a.take(0) =~= b.take(0));
        assert(less_at(a, b, 0));
    }
    if lex_less(a, b) {
        let i = choose|i: int| less_at(a, b, i);
        if i > 0 {
            assert(a.take(i)[0] == b.take(i)[0]);
        }
    }
}

/// The escape form keeps the order of what it holds, whatever follows the terminator.
proof fn escape_keeps_order(a: Seq<u8>, x: Seq<u8>, b: Seq<u8>, y: Seq<u8>)
    requires
        a != b,
    ensures
        lex_less(escape(a) + seq![0u8] + x, escape(b) + seq![0u8] + y) <==> lex_less(a, b),
    decreases a.len() + b.len(),
{
    let ea = escape(a) + seq![0u8] + x;
    let eb = escape(b) + seq![0u8] + y;
    if a.len() == 0 {
        assert(b.len() > 0) by {
            if b.len() == 0 {
                assert(a =~= b);
            }
        }
        assert(a.take(0) =~= b.take(0));
        assert(less_at(a, b, 0));
        first_bytes_decide(ea, eb);
    } else if b.len() == 0 {
        first_bytes_decide(ea, eb);
        if lex_less(a, b) {
            let i = choose|i: int| less_at(a, b, i);
        }
    } else if a[0] == b[0] {
        let ta = a.drop_first();
        let tb = b.drop_first();
        assert(a =~= seq![a[0]] + ta);
        assert(b =~= seq![a[0]] + tb);
        assert(ta != tb);
        escape_keeps_order(ta, x, tb, y);
        lex_less_after_prefix(seq![a[0]], ta, tb);
        let p = if a[0] <= 1 {
            seq![1u8, a[0]]
        } else {
            seq![a[0]]
        };
        let ra = escape(ta) + seq![0u8] + x;
        let rb = escape(tb) + seq![0u8] + y;
        assert(ea =~= p + ra);
        assert(eb =~= p + rb);
        lex_less_after_prefix(p, ra, rb);
    } else {
        first_bytes_decide(a, b);
        if a[0] <= 1 && b[0] <= 1 {
            assert(ea =~= seq![1u8] + ea.drop_first());
            assert(eb =~= seq![1u8] + eb.drop_first());
            lex_less_after_prefix(seq![1u8], ea.drop_first(), eb.drop_first());
            first_bytes_decide(ea.drop_first(), eb.drop_first());
        } else {
            first_bytes_decide(ea, eb);
        }
    }
}

/// The order of keys by their fields: namespace, database, table name by its UTF-8 bytes, index,
/// point id.
pub open spec fn fields_less(a: QvView, b: QvView) -> bool {
    if a.root.ns != b.root.ns {
        a.root.ns < b.root.ns
    } else if a.root.db != b.root.db {
        a.root.db < b.root.db
    } else if a.root.tb != b.root.tb {
        lex_less(encode_utf8(a.root.tb), encode_utf8(b.root.tb))
    } else if a.root.ix != b.root.ix {
        a.root.ix < b.root.ix
    } else {
        a.point_id < b.point_id
    }
}

/// Encoded `!qv` keys sort as their fields do.
pub proof fn keys_sort_as_their_fields(a: QvView, b: QvView)
    requires
        a.root.marks == qv_marks(),
        b.root.marks == qv_marks(),
    ensures
        lex_less(a.encoded(), b.encoded()) <==> fields_less(a, b),
{
    let (ra, rb) = (a.root, b.root);
    let m = qv_marks();
    let (pa, pb) = (big_endian(a.point_id as nat, 8), big_endian(b.point_id as nat, 8));
    let (na, nb) = (big_endian(ra.ns as nat, 4), big_endian(rb.ns as nat, 4));
    let (da, db) = (big_endian(ra.db as nat, 4), big_endian(rb.db as nat, 4));
    let (ia, ib) = (big_endian(ra.ix as nat, 4), big_endian(rb.ix as nat, 4));
    let fam = seq![m.family.0, m.family.1, m.family.2];
    digit_spans();
    big_endian_len(ra.ns as nat, 4);
    big_endian_len(rb.ns as nat, 4);
    big_endian_len(ra.db as nat, 4);
    big_endian_len(rb.db as nat, 4);
    big_endian_len(ra.ix as nat, 4);
    big_endian_len(rb.ix as nat, 4);
    from_big_endian_of_big_endian(ra.ns as nat, 4);
    from_big_endian_of_big_endian(rb.ns as nat, 4);
    from_big_endian_of_big_endian(ra.db as nat, 4);
    from_big_endian_of_big_endian(rb.db as nat, 4);
    from_big_endian_of_big_endian(ra.ix as nat, 4);
    from_big_endian_of_big_endian(rb.ix as nat, 4);
    big_endian_order(ra.ns as nat, rb.ns as nat, 4);
    big_endian_order(ra.db as nat, rb.db as nat, 4);
    big_endian_order(ra.ix as nat, rb.ix as nat, 4);
    let before_ns = seq![m.root, m.ns];
    let (ua, ub) = (encode_utf8(ra.tb), encode_utf8(rb.tb));
    encode_utf8_decode_utf8(ra.tb);
    encode_utf8_decode_utf8(rb.tb);
    // Each tail begins where the field before it ends.
    let (t4a, t4b) = (fam + pa, fam + pb);
    let (t3a, t3b) = (seq![m.ix] + (ia + t4a), seq![m.ix] + (ib + t4b));
    let (ea, eb) = (escape(ua) + seq![0u8] + t3a, escape(ub) + seq![0u8] + t3b);
    let (t2a, t2b) = (seq![m.tb] + ea, seq![m.tb] + eb);
    let (t1a, t1b) = (seq![m.db] + (da + t2a), seq![m.db] + (db + t2b));
    assert(a.encoded() =~= before_ns + (na + t1a));
    assert(b.encoded() =~= before_ns + (nb + t1b));
    lex_less_after_prefix(before_ns, na + t1a, nb + t1b);
    if ra.ns != rb.ns {
        assert(na != nb);
        lex_less_of_fixed_parts(na, t1a, nb, t1b);
    } else {
        lex_less_after_prefix(na, t1a, t1b);
        lex_less_after_prefix(seq![m.db], da + t2a, db + t2b);
        if ra.db != rb.db {
            assert(da != db);
            lex_less_of_fixed_parts(da, t2a, db, t2b);
        } else {
            lex_less_after_prefix(da, t2a, t2b);
            lex_less_after_prefix(seq![m.tb], ea, eb);
            if ra.tb != rb.tb {
                assert(ua != ub);
                escape_keeps_order(ua, t3a, ub, t3b);
            } else {
                let p = escape(ua) + seq![0u8];
                lex_less_after_prefix(p, t3a, t3b);
                lex_less_after_prefix(seq![m.ix], ia + t4a, ib + t4b);
                if ra.ix != rb.ix {
                    assert(ia != ib);
                    lex_less_of_fixed_parts(ia, t4a, ib, t4b);
                } else {
                    lex_less_after_prefix(ia, t4a, t4b);
                    lex_less_after_prefix(fam, pa, pb);
                    big_endian_order(a.point_id as nat, b.point_id as nat, 8);
                }
            }
        }
    }
}

} // verus!
