//! What writing and reading keys does, in terms of the fields that go in and come out.

use vstd::prelude::*;
use vstd::utf8::{encode_utf8, encode_utf8_valid_utf8, valid_utf8};
use std::ops::Range;
use crate::bytes::{
    big_endian, big_endian_len, digit_spans, escape, from_big_endian, from_big_endian_of_big_endian,
    lex_less, lex_within, unescape, unescape_of_escape,
};
use crate::catalog::{DatabaseId, IndexId, IndexKeyBase, NamespaceId, TableName};
use crate::codec::DecodeFault;
use crate::qv::{prefix_shape, Key, KeyError, Qv, QvRoot};
use crate::qv_laws::{
    decode_undoes_encode, encoding_is_injective, keys_sort_as_their_fields, range_covers_every_point,
    range_holds_no_other_index,
};

verus! {

/// Every key can be encoded, and decoding gives every field back.
pub proof fn keys_are_read_as_they_were_written(
    q: Qv,
    k: Result<Key, KeyError>,
    bytes: &[u8],
    r: Result<Qv, KeyError>,
)
    requires
        call_ensures(Qv::encode_key, (&q,), k),
        k matches Ok(b) ==> bytes@ == b@,
        call_ensures(Qv::decode_key, (bytes,), r),
    ensures
        k is Ok,
        r matches Ok(d) && d.ns == q.ns && d.db == q.db && d.tb@ == q.tb@ && d.ix == q.ix
            && d.point_id == q.point_id,
        r matches Ok(d) && d.__ == q.__ && d._a == q._a && d._b == q._b && d._c == q._c && d._d
            == q._d && d._e == q._e && d._f == q._f && d._g == q._g,
{
    decode_undoes_encode(q@);
}

/// Two points have one key only where they are one point: of one namespace, database, table and
/// index, and with one id.
pub proof fn points_have_keys_of_their_own(
    ns: NamespaceId,
    db: DatabaseId,
    tb: TableName,
    ix: IndexId,
    p: u64,
    a: Qv,
    ka: Key,
    ns2: NamespaceId,
    db2: DatabaseId,
    tb2: TableName,
    ix2: IndexId,
    p2: u64,
    b: Qv,
    kb: Key,
)
    requires
        call_ensures(Qv::new, (ns, db, &tb, ix, p), a),
        call_ensures(Qv::encode_key, (&a,), Ok(ka)),
        call_ensures(Qv::new, (ns2, db2, &tb2, ix2, p2), b),
        call_ensures(Qv::encode_key, (&b,), Ok(kb)),
    ensures
        ka@ == kb@ <==> ns == ns2 && db == db2 && tb@ == tb2@ && ix == ix2 && p == p2,
{
    if ka@ == kb@ {
        encoding_is_injective(a@, b@);
    }
}

/// The number that four bytes hold, and that eight hold, most significant first.
pub proof fn digits_count(s: Seq<u8>)
    ensures
        s.len() == 4 ==> from_big_endian(s) == s[0] * 0x100_0000 + s[1] * 0x1_0000 + s[2] * 0x100
            + s[3],
        s.len() == 8 ==> from_big_endian(s) == s[0] * 0x100_0000_0000_0000 + s[1]
            * 0x1_0000_0000_0000 + s[2] * 0x100_0000_0000 + s[3] * 0x1_0000_0000 + s[4] * 0x100_0000
            + s[5] * 0x1_0000 + s[6] * 0x100 + s[7],
{
    reveal_with_fuel(from_big_endian, 9);
}

/// The number that is written in the four bytes of `k` from `at` on.
pub open spec fn number_at(k: Seq<u8>, at: int) -> int {
    k[at] * 0x100_0000 + k[at + 1] * 0x1_0000 + k[at + 2] * 0x100 + k[at + 3]
}

/// How a key is laid out: `/*`, the namespace in four bytes, `*`, the database in four bytes, `*`,
/// the table name in escape form, a zero byte, `+`, the index in four bytes, `!qv`, and the point
/// in eight bytes, all numbers with the most significant byte first.
pub proof fn keys_are_laid_out_in_order(
    ns: NamespaceId,
    db: DatabaseId,
    tb: TableName,
    ix: IndexId,
    p: u64,
    q: Qv,
    k: Key,
)
    requires
        call_ensures(Qv::new, (ns, db, &tb, ix, p), q),
        call_ensures(Qv::encode_key, (&q,), Ok(k)),
    ensures
        ({
            let k = k@;
            let n = k.len() as int;
            &&& n >= 29
            &&& (k[0], k[1], k[6], k[11]) == (0x2fu8, 0x2au8, 0x2au8, 0x2au8)
            &&& number_at(k, 2) == ns.0
            &&& number_at(k, 7) == db.0
            &&& k.subrange(12, n - 17) == escape(encode_utf8(tb@))
            &&& (k[n - 17], k[n - 16]) == (0u8, 0x2bu8)
            &&& number_at(k, n - 15) == ix.0
            &&& (k[n - 11], k[n - 10], k[n - 9]) == (0x21u8, 0x71u8, 0x76u8)
            &&& number_at(k, n - 8) * 0x1_0000_0000 + number_at(k, n - 4) == p
        }),
{
    let root = q@.root;
    let name = escape(encode_utf8(root.tb));
    let tail = big_endian(p as nat, 8);
    let k = k@;
    let n = k.len() as int;
    prefix_shape(root);
    big_endian_len(p as nat, 8);
    big_endian_len(ns.0 as nat, 4);
    big_endian_len(db.0 as nat, 4);
    big_endian_len(ix.0 as nat, 4);
    digit_spans();
    from_big_endian_of_big_endian(ns.0 as nat, 4);
    from_big_endian_of_big_endian(db.0 as nat, 4);
    from_big_endian_of_big_endian(ix.0 as nat, 4);
    from_big_endian_of_big_endian(p as nat, 8);
    digits_count(big_endian(ns.0 as nat, 4));
    digits_count(big_endian(db.0 as nat, 4));
    digits_count(big_endian(ix.0 as nat, 4));
    digits_count(tail);
    assert(k =~= root.head() + name + seq![0u8] + root.foot() + tail);
    assert(n == 12 + name.len() + 1 + 8 + 8);
    assert(k.subrange(12, n - 17) =~= name);
    assert(k.subrange(2, 6) =~= big_endian(ns.0 as nat, 4));
    assert(k.subrange(7, 11) =~= big_endian(db.0 as nat, 4));
    assert(k.subrange(n - 15, n - 11) =~= big_endian(ix.0 as nat, 4));
    assert(k.subrange(n - 8, n) =~= tail);
    assert(k[2] == k.subrange(2, 6)[0] && k[3] == k.subrange(2, 6)[1] && k[4] == k.subrange(2, 6)[2]
        && k[5] == k.subrange(2, 6)[3]);
    assert(k[7] == k.subrange(7, 11)[0] && k[8] == k.subrange(7, 11)[1] && k[9] == k.subrange(
        7,
        11,
    )[2] && k[10] == k.subrange(7, 11)[3]);
    let i4 = k.subrange(n - 15, n - 11);
    assert(k[n - 15] == i4[0] && k[n - 14] == i4[1] && k[n - 13] == i4[2] && k[n - 12] == i4[3]);
    let p8 = k.subrange(n - 8, n);
    assert(k[n - 8] == p8[0] && k[n - 7] == p8[1] && k[n - 6] == p8[2] && k[n - 5] == p8[3]);
    assert(k[n - 4] == p8[4] && k[n - 3] == p8[5] && k[n - 2] == p8[6] && k[n - 1] == p8[7]);
}

/// A name without the bytes zero and one stands in a key as it is.
pub proof fn ordinary_names_stand_as_they_are(s: Seq<u8>)
    requires
        forall|i: int| 0 <= i < s.len() ==> #[trigger] s[i] > 1,
    ensures
        escape(s) == s,
    decreases s.len(),
{
    if s.len() > 0 {
        let tail = s.drop_first();
        assert(s[0] > 1);
        assert forall|i: int| 0 <= i < tail.len() implies #[trigger] tail[i] > 1 by {
            assert(tail[i] == s[i + 1]);
        }
        ordinary_names_stand_as_they_are(tail);
        assert(escape(s) =~= s);
    } else {
        assert(escape(s) =~= s);
    }
}

/// The key range of an index holds the key of a point exactly where the point is of that index,
/// whatever its id.
pub proof fn a_range_holds_the_points_of_its_index(
    ns: NamespaceId,
    db: DatabaseId,
    tb: TableName,
    ix: IndexId,
    range: Result<Range<Key>, KeyError>,
    ns2: NamespaceId,
    db2: DatabaseId,
    tb2: TableName,
    ix2: IndexId,
    p: u64,
    q: Qv,
    k: Key,
)
    requires
        call_ensures(QvRoot::range, (ns, db, &tb, ix), range),
        call_ensures(Qv::new, (ns2, db2, &tb2, ix2, p), q),
        call_ensures(Qv::encode_key, (&q,), Ok(k)),
    ensures
        range is Ok,
        range matches Ok(r) ==> (lex_within(r.start@, k@, r.end@) <==> ns == ns2 && db == db2 && tb@
            == tb2@ && ix == ix2),
{
    let r = range->Ok_0;
    range_covers_every_point(ns, db, tb@, ix, p);
    if lex_within(r.start@, k@, r.end@) {
        range_holds_no_other_index(ns, db, tb@, ix, q@);
    }
}

/// The bounds of a range are made from the common prefix of its keys: the prefix with a zero byte
/// after it, and the prefix with its last byte one higher.
pub proof fn a_range_is_bounded_by_its_prefix(
    ns: NamespaceId,
    db: DatabaseId,
    tb: TableName,
    ix: IndexId,
    range: Range<Key>,
    p: u64,
    q: Qv,
    k: Key,
)
    requires
        call_ensures(QvRoot::range, (ns, db, &tb, ix), Ok(range)),
        call_ensures(Qv::new, (ns, db, &tb, ix, p), q),
        call_ensures(Qv::encode_key, (&q,), Ok(k)),
    ensures
        ({
            let n = k@.len() - 8;
            &&& range.start@ == k@.take(n).push(0)
            &&& range.end@.len() == n
            &&& range.end@.take(n - 1) == k@.take(n - 1)
            &&& range.end@[n - 1] == k@[n - 1] + 1
        }),
{
    let prefix = q@.root.encoded();
    prefix_shape(q@.root);
    big_endian_len(p as nat, 8);
    let n = k@.len() - 8;
    assert(k@.take(n) =~= prefix);
    assert(range.end@.take(n - 1) =~= k@.take(n - 1));
}

/// The key of a point and the range of an index are those of its key base.
pub proof fn a_key_base_names_its_index(
    ikb: IndexKeyBase,
    p: u64,
    own: Qv,
    q: Qv,
    range: Range<Key>,
    r: Range<Key>,
)
    requires
        call_ensures(IndexKeyBase::new_qv_key, (&ikb, p), own),
        call_ensures(Qv::new, (ikb.ns, ikb.db, &ikb.tb, ikb.ix, p), q),
        call_ensures(IndexKeyBase::new_qv_range, (&ikb,), Ok(range)),
        call_ensures(QvRoot::range, (ikb.ns, ikb.db, &ikb.tb, ikb.ix), Ok(r)),
    ensures
        own@ == q@,
        own.point_id == p,
        own.ns == ikb.ns && own.db == ikb.db && own.tb@ == ikb.tb@ && own.ix == ikb.ix,
        range.start@ == r.start@,
        range.end@ == r.end@,
{
}

/// The prefix of an index is what its keys have before the point.
pub proof fn a_prefix_is_a_key_without_its_point(root: QvRoot, prefix: Key, q: Qv, k: Key)
    requires
        call_ensures(QvRoot::encode_key, (&root,), Ok(prefix)),
        call_ensures(Qv::encode_key, (&q,), Ok(k)),
        root.ns == q.ns && root.db == q.db && root.tb@ == q.tb@ && root.ix == q.ix,
        root.__ == q.__ && root._a == q._a && root._b == q._b && root._c == q._c && root._d == q._d,
        root._e == q._e && root._f == q._f && root._g == q._g,
    ensures
        k@.len() == prefix@.len() + 8,
        k@.take(prefix@.len() as int) == prefix@,
{
    big_endian_len(q.point_id as nat, 8);
    assert(k@.take(prefix@.len() as int) =~= prefix@);
}

/// A copy of a key has the fields of the key.
pub proof fn copies_of_keys_are_the_same(q: Qv, copy: Qv, root: QvRoot, other: QvRoot)
    requires
        call_ensures(<Qv as Clone>::clone, (&q,), copy),
        call_ensures(<QvRoot as Clone>::clone, (&root,), other),
    ensures
        copy.ns == q.ns && copy.db == q.db && copy.tb@ == q.tb@ && copy.ix == q.ix && copy.point_id
            == q.point_id,
        other.ns == root.ns && other.db == root.db && other.tb@ == root.tb@ && other.ix == root.ix,
        copy.__ == q.__ && copy._a == q._a && copy._b == q._b && copy._c == q._c && copy._d == q._d,
        copy._e == q._e && copy._f == q._f && copy._g == q._g,
        other.__ == root.__ && other._a == root._a && other._b == root._b && other._c == root._c
            && other._d == root._d,
        other._e == root._e && other._f == root._f && other._g == root._g,
{
}

/// Keys sort by namespace, then database, then table name, then index, then point.
pub proof fn keys_sort_by_their_fields(
    ns: NamespaceId,
    db: DatabaseId,
    tb: TableName,
    ix: IndexId,
    p: u64,
    a: Qv,
    ka: Key,
    ns2: NamespaceId,
    db2: DatabaseId,
    tb2: TableName,
    ix2: IndexId,
    p2: u64,
    b: Qv,
    kb: Key,
)
    requires
        call_ensures(Qv::new, (ns, db, &tb, ix, p), a),
        call_ensures(Qv::encode_key, (&a,), Ok(ka)),
        call_ensures(Qv::new, (ns2, db2, &tb2, ix2, p2), b),
        call_ensures(Qv::encode_key, (&b,), Ok(kb)),
    ensures
        ns.0 < ns2.0 ==> lex_less(ka@, kb@),
        ns == ns2 && db.0 < db2.0 ==> lex_less(ka@, kb@),
        ns == ns2 && db == db2 && lex_less(encode_utf8(tb@), encode_utf8(tb2@)) && tb@ != tb2@
            ==> lex_less(ka@, kb@),
        ns == ns2 && db == db2 && tb@ == tb2@ && ix.0 < ix2.0 ==> lex_less(ka@, kb@),
        ns == ns2 && db == db2 && tb@ == tb2@ && ix == ix2 ==> (lex_less(ka@, kb@) <==> p < p2),
{
    keys_sort_as_their_fields(a@, b@);
}

proof fn unescape_of_cut(s: Seq<u8>, m: int)
    requires
        0 <= m <= escape(s).len(),
    ensures
        unescape(escape(s).take(m)) is None,
    decreases s.len(),
{
    let cut = escape(s).take(m);
    if m > 0 {
        let tail = s.drop_first();
        if s[0] <= 1 {
            if m >= 2 {
                assert(cut.skip(2) =~= escape(tail).take(m - 2));
                unescape_of_cut(tail, m - 2);
            }
        } else {
            assert(cut.drop_first() =~= escape(tail).take(m - 1));
            unescape_of_cut(tail, m - 1);
        }
    }
}

/// A key that is cut short is refused as ending too early, wherever it is cut.
pub proof fn cut_keys_are_refused(q: Qv, k: Key, n: int, bytes: &[u8], r: Result<Qv, KeyError>)
    requires
        call_ensures(Qv::encode_key, (&q,), Ok(k)),
        0 <= n < k@.len(),
        bytes@ == k@.take(n),
        call_ensures(Qv::decode_key, (bytes,), r),
    ensures
        r matches Err(e) && e == KeyError::Decode(DecodeFault::UnexpectedEnd),
{
    let root = q@.root;
    let utf8 = encode_utf8(root.tb);
    let name = escape(utf8);
    let foot = root.foot() + big_endian(q.point_id as nat, 8);
    prefix_shape(root);
    big_endian_len(q.point_id as nat, 8);
    assert(k@ =~= root.head() + name + seq![0u8] + foot);
    if n >= 12 {
        let rest = bytes@.skip(12);
        if n <= 12 + name.len() {
            assert(rest =~= name.take(n - 12));
            unescape_of_cut(utf8, n - 12);
        } else {
            let left = foot.take(n - 13 - name.len());
            assert(rest =~= name + seq![0u8] + left);
            unescape_of_escape(utf8, left);
            encode_utf8_valid_utf8(root.tb);
        }
    }
}

/// A key with bytes after its end is refused.
pub proof fn keys_with_bytes_left_are_refused(
    q: Qv,
    k: Key,
    extra: Seq<u8>,
    bytes: &[u8],
    r: Result<Qv, KeyError>,
)
    requires
        call_ensures(Qv::encode_key, (&q,), Ok(k)),
        extra.len() > 0,
        bytes@ == k@ + extra,
        call_ensures(Qv::decode_key, (bytes,), r),
    ensures
        r matches Err(e) && e == KeyError::Decode(DecodeFault::BytesRemaining),
{
    let root = q@.root;
    let utf8 = encode_utf8(root.tb);
    let foot = root.foot() + big_endian(q.point_id as nat, 8) + extra;
    prefix_shape(root);
    big_endian_len(q.point_id as nat, 8);
    assert(bytes@.skip(12) =~= escape(utf8) + seq![0u8] + foot);
    unescape_of_escape(utf8, foot);
    encode_utf8_valid_utf8(root.tb);
}

/// A key whose table name is not UTF-8 is refused as such.
pub proof fn names_that_are_not_utf8_are_refused(
    head: Seq<u8>,
    name: Seq<u8>,
    foot: Seq<u8>,
    bytes: &[u8],
    r: Result<Qv, KeyError>,
)
    requires
        head.len() == 12,
        !valid_utf8(name),
        bytes@ == head + escape(name) + seq![0u8] + foot,
        call_ensures(Qv::decode_key, (bytes,), r),
    ensures
        r matches Err(e) && e == KeyError::Decode(DecodeFault::Utf8),
{
    assert(bytes@.skip(12) =~= escape(name) + seq![0u8] + foot);
    unescape_of_escape(name, foot);
}

/// Whatever bytes decode to a key, its point is what the last eight of them hold.
pub proof fn a_key_ends_with_its_point(bytes: &[u8], q: Qv)
    requires
        call_ensures(Qv::decode_key, (bytes,), Ok(q)),
    ensures
        bytes@.len() >= 29,
        number_at(bytes@, bytes@.len() - 8) * 0x1_0000_0000 + number_at(bytes@, bytes@.len() - 4)
            == q.point_id,
        number_at(bytes@, 2) == q.ns.0,
        number_at(bytes@, 7) == q.db.0,
        number_at(bytes@, bytes@.len() - 15) == q.ix.0,
{
    let k = bytes@;
    let n = k.len() as int;
    let rest = k.skip(12);
    unescape_leaves_the_end(rest);
    let foot = unescape(rest)->Some_0.1;
    assert(foot =~= k.skip(n - 16));
    let p8 = foot.subrange(8, 16);
    let i4 = foot.subrange(1, 5);
    digits_count(k.subrange(2, 6));
    digits_count(k.subrange(7, 11));
    digits_count(i4);
    digits_count(p8);
    assert(k[2] == k.subrange(2, 6)[0] && k[3] == k.subrange(2, 6)[1] && k[4] == k.subrange(2, 6)[2]
        && k[5] == k.subrange(2, 6)[3]);
    assert(k[7] == k.subrange(7, 11)[0] && k[8] == k.subrange(7, 11)[1] && k[9] == k.subrange(
        7,
        11,
    )[2] && k[10] == k.subrange(7, 11)[3]);
    assert(k[n - 15] == i4[0] && k[n - 14] == i4[1] && k[n - 13] == i4[2] && k[n - 12] == i4[3]);
    assert(k[n - 8] == p8[0] && k[n - 7] == p8[1] && k[n - 6] == p8[2] && k[n - 5] == p8[3]);
    assert(k[n - 4] == p8[4] && k[n - 3] == p8[5] && k[n - 2] == p8[6] && k[n - 1] == p8[7]);
}

/// What is left after the terminator is the end of the bytes.
proof fn unescape_leaves_the_end(s: Seq<u8>)
    ensures
        unescape(s) matches Some((data, rest)) ==> rest.len() < s.len() && rest == s.skip(
            s.len() - rest.len(),
        ),
    decreases s.len(),
{
    if s.len() > 0 {
        if s[0] == 0 {
            assert(s.drop_first() =~= s.skip(1));
        } else if s[0] == 1 {
            if s.len() > 1 {
                unescape_leaves_the_end(s.skip(2));
                if let Some((data, rest)) = unescape(s.skip(2)) {
                    assert(rest =~= s.skip(s.len() - rest.len()));
                }
            }
        } else {
            unescape_leaves_the_end(s.drop_first());
            if let Some((data, rest)) = unescape(s.drop_first()) {
                assert(rest =~= s.skip(s.len() - rest.len()));
            }
        }
    }
}

/// A copy of a key base names the same index.
pub proof fn copies_of_key_bases_are_the_same(ikb: IndexKeyBase, copy: IndexKeyBase)
    requires
        call_ensures(<IndexKeyBase as Clone>::clone, (&ikb,), copy),
    ensures
        copy.ns == ikb.ns && copy.db == ikb.db && copy.tb@ == ikb.tb@ && copy.ix == ikb.ix,
{
}

/// The name of a table is the one that it was made from, in every copy.
pub proof fn table_names_are_kept(name: &str, t: TableName, copy: TableName, s: &str)
    requires
        call_ensures(TableName::from, (name,), t),
        call_ensures(<TableName as Clone>::clone, (&t,), copy),
        call_ensures(TableName::as_str, (&copy,), s),
    ensures
        s@ == name@,
{
}

} // verus!
