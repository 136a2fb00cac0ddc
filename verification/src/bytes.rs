//! Byte strings as sort keys: big-endian integers, the zero-terminated escape form of
//! runtime-sized data, and the lexicographic order of a key-value store.

use vstd::prelude::*;

verus! {

/// The `n` low base-256 digits of `v`, most significant first.
pub open spec fn big_endian(v: nat, n: nat) -> Seq<u8>
    decreases n,
{
    if n == 0 {
        Seq::empty()
    } else {
        big_endian(v / 256, (n - 1) as nat).push((v % 256) as u8)
    }
}

/// The number whose base-256 digits are `s`, most significant first.
pub open spec fn from_big_endian(s: Seq<u8>) -> nat
    decreases s.len(),
{
    if s.len() == 0 {
        0
    } else {
        from_big_endian(s.drop_last()) * 256 + s.last() as nat
    }
}

/// How many values `n` base-256 digits can tell apart.
pub open spec fn digit_span(n: nat) -> nat
    decreases n,
{
    if n == 0 {
        1
    } else {
        256 * digit_span((n - 1) as nat)
    }
}

/// `s` with a `1` put before every byte that is `0` or `1`.
pub open spec fn escape(s: Seq<u8>) -> Seq<u8>
    decreases s.len(),
{
    if s.len() == 0 {
        Seq::empty()
    } else if s[0] <= 1 {
        seq![1u8, s[0]] + escape(s.drop_first())
    } else {
        seq![s[0]] + escape(s.drop_first())
    }
}

/// Splits `s` at its first unescaped `0` into the data before it, with the escapes removed, and
/// the bytes after it. `None` where no such `0` comes before the end.
pub open spec fn unescape(s: Seq<u8>) -> Option<(Seq<u8>, Seq<u8>)>
    decreases s.len(),
{
    if s.len() == 0 {
        None
    } else if s[0] == 0 {
        Some((Seq::empty(), s.drop_first()))
    } else if s[0] == 1 {
        if s.len() == 1 {
            None
        } else {
            match unescape(s.skip(2)) {
                Some((data, rest)) => Some((seq![s[1]] + data, rest)),
                None => None,
            }
        }
    } else {
        match unescape(s.drop_first()) {
            Some((data, rest)) => Some((seq![s[0]] + data, rest)),
            None => None,
        }
    }
}

/// `a` and `b` agree before position `i`, and there `a` is the smaller: it ends, or has the
/// smaller byte.
pub open spec fn less_at(a: Seq<u8>, b: Seq<u8>, i: int) -> bool {
    &&& 0 <= i <= a.len()
    &&& i < b.len()
    &&& a.take(i) == b.take(i)
    &&& i == a.len() || a[i] < b[i]
}

/// Lexicographic order of byte strings, in which a proper prefix comes first.
pub open spec fn lex_less(a: Seq<u8>, b: Seq<u8>) -> bool {
    exists|i: int| less_at(a, b, i)
}

/// `start <= k < end` in lexicographic order.
pub open spec fn lex_within(start: Seq<u8>, k: Seq<u8>, end: Seq<u8>) -> bool {
    !lex_less(k, start) && lex_less(k, end)
}

/// `p` is the beginning of `s`.
pub open spec fn starts_with(s: Seq<u8>, p: Seq<u8>) -> bool {
    p.len() <= s.len() && s.take(p.len() as int) == p
}

pub proof fn big_endian_len(v: nat, n: nat)
    ensures
        big_endian(v, n).len() == n,
    decreases n,
{
    if n > 0 {
        big_endian_len(v / 256, (n - 1) as nat);
    }
}

/// Reading back the digits of a number that fits gives the number.
pub proof fn from_big_endian_of_big_endian(v: nat, n: nat)
    requires
        v < digit_span(n),
    ensures
        from_big_endian(big_endian(v, n)) == v,
    decreases n,
{
    if n > 0 {
        let s = big_endian(v, n);
        assert(s.drop_last() =~= big_endian(v / 256, (n - 1) as nat));
        from_big_endian_of_big_endian(v / 256, (n - 1) as nat);
    }
}

/// Writing the number that a digit string denotes, in as many digits, gives the string.
pub proof fn big_endian_of_from_big_endian(s: Seq<u8>)
    ensures
        big_endian(from_big_endian(s), s.len()) == s,
        from_big_endian(s) < digit_span(s.len()),
    decreases s.len(),
{
    if s.len() > 0 {
        big_endian_of_from_big_endian(s.drop_last());
        let v = from_big_endian(s);
        assert(v / 256 == from_big_endian(s.drop_last()));
        assert(v % 256 == s.last() as nat);
        assert(s.drop_last().push(s.last()) =~= s);
    }
}

pub proof fn digit_spans()
    ensures
        digit_span(4) == 0x1_0000_0000,
        digit_span(8) == 0x1_0000_0000_0000_0000,
{
    reveal_with_fuel(digit_span, 9);
}

/// Among digit strings of one length the lexicographic order is the numeric order.
pub proof fn big_endian_order(a: nat, b: nat, n: nat)
    requires
        a < digit_span(n),
        b < digit_span(n),
    ensures
        lex_less(big_endian(a, n), big_endian(b, n)) <==> a < b,
    decreases n,
{
    let sa = big_endian(a, n);
    let sb = big_endian(b, n);
    big_endian_len(a, n);
    big_endian_len(b, n);
    if n > 0 {
        let m = (n - 1) as nat;
        let pa = big_endian(a / 256, m);
        let pb = big_endian(b / 256, m);
        big_endian_len(a / 256, m);
        big_endian_len(b / 256, m);
        big_endian_order(a / 256, b / 256, m);
        assert(sa.take(m as int) =~= pa);
        assert(sb.take(m as int) =~= pb);
        if lex_less(pa, pb) {
            let i = choose|i: int| less_at(pa, pb, i);
            assert(sa.take(i) =~= pa.take(i));
            assert(sb.take(i) =~= pb.take(i));
            assert(less_at(sa, sb, i));
        }
        if a < b && !(a / 256 < b / 256) {
            assert(a / 256 == b / 256);
            assert(less_at(sa, sb, m as int));
        }
        if lex_less(sa, sb) {
            let i = choose|i: int| less_at(sa, sb, i);
            if i < m {
                assert(sa.take(i) =~= pa.take(i));
                assert(sb.take(i) =~= pb.take(i));
                assert(less_at(pa, pb, i));
            } else {
                assert(i == m);
                from_big_endian_of_big_endian(a / 256, m);
                from_big_endian_of_big_endian(b / 256, m);
                assert(a / 256 == b / 256);
            }
        }
    } else {
        if lex_less(sa, sb) {
            let i = choose|i: int| less_at(sa, sb, i);
        }
    }
}

/// Escaping, terminating and splitting again gives the data back, and the bytes that follow the
/// terminator untouched.
pub proof fn unescape_of_escape(s: Seq<u8>, rest: Seq<u8>)
    ensures
        unescape(escape(s) + seq![0u8] + rest) == Some((s, rest)),
    decreases s.len(),
{
    let whole = escape(s) + seq![0u8] + rest;
    if s.len() == 0 {
        assert(whole.drop_first() =~= rest);
        assert(s =~= Seq::empty());
    } else {
        let tail = s.drop_first();
        unescape_of_escape(tail, rest);
        if s[0] <= 1 {
            assert(whole.skip(2) =~= escape(tail) + seq![0u8] + rest);
        } else {
            assert(whole.drop_first() =~= escape(tail) + seq![0u8] + rest);
        }
        assert(seq![s[0]] + tail =~= s);
    }
}

/// Both sides of a common beginning compare as what follows it.
pub proof fn lex_less_after_prefix(p: Seq<u8>, a: Seq<u8>, b: Seq<u8>)
    ensures
        lex_less(p + a, p + b) <==> lex_less(a, b),
{
    let n = p.len() as int;
    if lex_less(a, b) {
        let i = choose|i: int| less_at(a, b, i);
        assert((p + a).take(n + i) =~= p + a.take(i));
        assert((p + b).take(n + i) =~= p + b.take(i));
        assert(less_at(p + a, p + b, n + i));
    }
    if lex_less(p + a, p + b) {
        let i = choose|i: int| less_at(p + a, p + b, i);
        if i < n {
            assert((p + a)[i] == (p + b)[i]);
        }
        assert(a.take(i - n) =~= (p + a).take(i).skip(n));
        assert(b.take(i - n) =~= (p + b).take(i).skip(n));
        assert(less_at(a, b, i - n));
    }
}

/// The strings that properly extend `p` are those from `p` followed by a zero byte up to, and
/// without, `p` with its last byte raised by one.
pub proof fn extensions_are_a_range(p: Seq<u8>, k: Seq<u8>)
    requires
        p.len() > 0,
        p.last() < 0xff,
    ensures
        lex_within(p.push(0), k, p.update(p.len() - 1, (p.last() + 1) as u8)) <==> starts_with(k, p)
            && p.len() < k.len(),
{
    let n = p.len() as int;
    let start = p.push(0);
    let end = p.update(n - 1, (p.last() + 1) as u8);
    if starts_with(k, p) && n < k.len() {
        assert(k.take(n - 1) =~= end.take(n - 1)) by {
            assert(k.take(n - 1) =~= k.take(n).take(n - 1));
        }
        assert(k[n - 1] == k.take(n)[n - 1]);
        assert(less_at(k, end, n - 1));
        if lex_less(k, start) {
            let i = choose|i: int| less_at(k, start, i);
            assert(i <= n);
            if i < n {
                assert(k[i] == k.take(n)[i]);
                assert(start[i] == p[i]);
            }
        }
    }
    if lex_within(start, k, end) {
        let i = choose|i: int| less_at(k, end, i);
        assert(forall|j: int| 0 <= j < i ==> k[j] == k.take(i)[j] && end[j] == end.take(i)[j]);
        if i < n - 1 {
            assert(start.take(i) =~= k.take(i));
            assert(less_at(k, start, i));
        } else {
            assert(i == n - 1);
            if i == k.len() || k[i] < p[i] {
                assert(start.take(i) =~= k.take(i));
                assert(less_at(k, start, i));
            } else {
                assert(k[i] == p[i]);
                assert(k.take(n) =~= p);
                if k.len() == n {
                    assert(start.take(n) =~= k.take(n));
                    assert(less_at(k, start, n));
                }
            }
        }
    }
}

} // verus!
