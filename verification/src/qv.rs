//! The `!qv` keys: one per indexed point, under which the record id and the vector of the point
//! are stored.
//!
//! The key-value store holds the points of an index in one contiguous key range, in the order of
//! their ids. The in-memory segment is rebuilt by scanning that range.

use vstd::prelude::*;
use vstd::utf8::encode_utf8;
use std::ops::Range;
use crate::bytes::{big_endian, escape, from_big_endian};
use crate::catalog::{DatabaseId, IndexId, NamespaceId, TableName};
use crate::codec::{
    put_str, put_u32, put_u64, put_u8, take_string, take_u32, take_u64, take_u8, DecodeFault,
};

verus! {

/// An encoded key.
pub type Key = Vec<u8>;

/// `/`, which begins every key.
pub const SLASH: u8 = 0x2f;

/// `*`, which comes before the namespace, the database and the table.
pub const STAR: u8 = 0x2a;

/// `+`, which comes before the index.
pub const PLUS: u8 = 0x2b;

/// `!`, which begins the name of a key family.
pub const BANG: u8 = 0x21;

/// `q`.
pub const LETTER_Q: u8 = 0x71;

/// `v`.
pub const LETTER_V: u8 = 0x76;

/// Why a key could not be written or read.
#[derive(Clone, Copy, Debug, PartialEq, Eq, Structural)]
pub enum KeyError {
    /// A field has no encoding.
    Unencodable,
    /// The bytes are not an encoded key.
    Decode(DecodeFault),
}

/// The bytes that set the fields of a key apart.
pub struct Marks {
    pub root: u8,
    pub ns: u8,
    pub db: u8,
    pub tb: u8,
    pub ix: u8,
    pub family: (u8, u8, u8),
}

/// What the keys of one index have in common.
pub struct RootView {
    pub marks: Marks,
    pub ns: u32,
    pub db: u32,
    pub tb: Seq<char>,
    pub ix: u32,
}

/// A key, field by field.
pub struct QvView {
    pub root: RootView,
    pub point_id: u64,
}

/// The marks of a `!qv` key: `/*ns*db*tb+ix!qv`.
pub open spec fn qv_marks() -> Marks {
    Marks {
        root: SLASH,
        ns: STAR,
        db: STAR,
        tb: STAR,
        ix: PLUS,
        family: (BANG, LETTER_Q, LETTER_V),
    }
}

/// What the `!qv` keys of the given index have in common.
pub open spec fn qv_root(ns: NamespaceId, db: DatabaseId, tb: Seq<char>, ix: IndexId) -> RootView {
    RootView { marks: qv_marks(), ns: ns.0, db: db.0, tb, ix: ix.0 }
}

/// The `!qv` key of one point of the given index.
pub open spec fn qv_key(
    ns: NamespaceId,
    db: DatabaseId,
    tb: Seq<char>,
    ix: IndexId,
    point_id: u64,
) -> QvView {
    QvView { root: qv_root(ns, db, tb, ix), point_id }
}

impl RootView {
    /// The bytes before the table name.
    pub open spec fn head(self) -> Seq<u8> {
        seq![self.marks.root, self.marks.ns] + big_endian(self.ns as nat, 4) + seq![self.marks.db]
            + big_endian(self.db as nat, 4) + seq![self.marks.tb]
    }

    /// The bytes after the table name's terminator.
    pub open spec fn foot(self) -> Seq<u8> {
        seq![self.marks.ix] + big_endian(self.ix as nat, 4) + seq![
            self.marks.family.0,
            self.marks.family.1,
            self.marks.family.2,
        ]
    }

    /// The bytes with which the keys of the index begin.
    pub open spec fn encoded(self) -> Seq<u8> {
        self.head() + escape(encode_utf8(self.tb)) + seq![0u8] + self.foot()
    }
}

impl QvView {
    /// The bytes of the key.
    pub open spec fn encoded(self) -> Seq<u8> {
        self.root.encoded() + big_endian(self.point_id as nat, 8)
    }
}

/// The key that the bytes `k` hold: twelve bytes up to the table name, the terminated name, and
/// sixteen bytes after it.
pub open spec fn decoded(k: Seq<u8>) -> Result<QvView, DecodeFault> {
    if k.len() < 12 {
        Err(DecodeFault::UnexpectedEnd)
    } else {
        match crate::codec::string_field(k.skip(12)) {
            Err(fault) => Err(fault),
            Ok((tb, foot)) => if foot.len() < 16 {
                Err(DecodeFault::UnexpectedEnd)
            } else if foot.len() > 16 {
                Err(DecodeFault::BytesRemaining)
            } else {
                Ok(
                    QvView {
                        root: RootView {
                            marks: Marks {
                                root: k[0],
                                ns: k[1],
                                db: k[6],
                                tb: k[11],
                                ix: foot[0],
                                family: (foot[5], foot[6], foot[7]),
                            },
                            ns: from_big_endian(k.subrange(2, 6)) as u32,
                            db: from_big_endian(k.subrange(7, 11)) as u32,
                            tb,
                            ix: from_big_endian(foot.subrange(1, 5)) as u32,
                        },
                        point_id: from_big_endian(foot.subrange(8, 16)) as u64,
                    },
                )
            },
        }
    }
}

/// The key under which one point's record id and vector are stored.
#[derive(Debug, PartialEq, Eq, PartialOrd)]
pub struct Qv {
    pub __: u8,
    pub _a: u8,
    pub ns: NamespaceId,
    pub _b: u8,
    pub db: DatabaseId,
    pub _c: u8,
    pub tb: TableName,
    pub _d: u8,
    pub ix: IndexId,
    pub _e: u8,
    pub _f: u8,
    pub _g: u8,
    pub point_id: u64,
}

impl View for Qv {
    type V = QvView;

    open spec fn view(&self) -> QvView {
        QvView {
            root: RootView {
                marks: Marks {
                    root: self.__,
                    ns: self._a,
                    db: self._b,
                    tb: self._c,
                    ix: self._d,
                    family: (self._e, self._f, self._g),
                },
                ns: self.ns.0,
                db: self.db.0,
                tb: self.tb@,
                ix: self.ix.0,
            },
            point_id: self.point_id,
        }
    }
}

impl Clone for Qv {
    fn clone(&self) -> (r: Self)
        ensures
            r@ == self@,
            r.tb@ == self.tb@,
            r.__ == self.__,
            r._a == self._a,
            r.ns == self.ns,
            r._b == self._b,
            r.db == self.db,
            r._c == self._c,
            r._d == self._d,
            r.ix == self.ix,
            r._e == self._e,
            r._f == self._f,
            r._g == self._g,
            r.point_id == self.point_id,
    {
        Qv {
            __: self.__,
            _a: self._a,
            ns: self.ns,
            _b: self._b,
            db: self.db,
            _c: self._c,
            tb: self.tb.clone(),
            _d: self._d,
            ix: self.ix,
            _e: self._e,
            _f: self._f,
            _g: self._g,
            point_id: self.point_id,
        }
    }
}

fn written(r: Result<(), storekey::EncodeError>) -> (res: Result<(), KeyError>)
    ensures
        r is Ok ==> res == Ok::<(), KeyError>(()),
        r is Err ==> res == Err::<(), _>(KeyError::Unencodable),
{
    match r {
        Ok(()) => Ok(()),
        Err(_) => Err(KeyError::Unencodable),
    }
}

fn put_head(
    k: &mut Vec<u8>,
    __: u8,
    _a: u8,
    ns: NamespaceId,
    _b: u8,
    db: DatabaseId,
    _c: u8,
) -> (r: Result<(), KeyError>)
    ensures
        r is Ok,
        final(k)@ == old(k)@ + (seq![__, _a] + big_endian(ns.0 as nat, 4) + seq![_b] + big_endian(
            db.0 as nat,
            4,
        ) + seq![_c]),
{
    written(put_u8(k, __))?;
    written(put_u8(k, _a))?;
    written(put_u32(k, ns.0))?;
    written(put_u8(k, _b))?;
    written(put_u32(k, db.0))?;
    written(put_u8(k, _c))?;
    Ok(())
}

fn put_foot(k: &mut Vec<u8>, _d: u8, ix: IndexId, _e: u8, _f: u8, _g: u8) -> (r: Result<
    (),
    KeyError,
>)
    ensures
        r is Ok,
        final(k)@ == old(k)@ + (seq![_d] + big_endian(ix.0 as nat, 4) + seq![_e, _f, _g]),
{
    written(put_u8(k, _d))?;
    written(put_u32(k, ix.0))?;
    written(put_u8(k, _e))?;
    written(put_u8(k, _f))?;
    written(put_u8(k, _g))?;
    Ok(())
}

impl Qv {
    /// Creates the `!qv{point_id}` key for one point.
    pub fn new(ns: NamespaceId, db: DatabaseId, tb: &TableName, ix: IndexId, point_id: u64) -> (q:
        Qv)
        ensures
            q@ == qv_key(ns, db, tb@, ix, point_id),
            q.ns == ns,
            q.db == db,
            q.tb@ == tb@,
            q.ix == ix,
            q.point_id == point_id,
            (q.__, q._a, q._b, q._c, q._d) == (SLASH, STAR, STAR, STAR, PLUS),
            (q._e, q._f, q._g) == (BANG, LETTER_Q, LETTER_V),
    {
        Qv {
            __: SLASH,
            _a: STAR,
            ns,
            _b: STAR,
            db,
            _c: STAR,
            tb: tb.clone(),
            _d: PLUS,
            ix,
            _e: BANG,
            _f: LETTER_Q,
            _g: LETTER_V,
            point_id,
        }
    }

    /// Encodes the key, field by field.
    pub fn encode_key(&self) -> (r: Result<Key, KeyError>)
        ensures
            r matches Ok(k) && k@ == self@.encoded(),
    {
        let mut k: Vec<u8> = Vec::new();
        put_head(&mut k, self.__, self._a, self.ns, self._b, self.db, self._c)?;
        written(put_str(&mut k, self.tb.as_str()))?;
        put_foot(&mut k, self._d, self.ix, self._e, self._f, self._g)?;
        assert(k@ =~= self@.root.encoded());
        written(put_u64(&mut k, self.point_id))?;
        Ok(k)
    }

    /// Decodes a stored `!qv` key back into its components (notably `point_id`).
    ///
    /// The marks are taken as they come: that the bytes are a key of the `!qv` family is the
    /// caller's knowledge.
    pub fn decode_key(k: &[u8]) -> (r: Result<Qv, KeyError>)
        ensures
            match decoded(k@) {
                Ok(view) => r matches Ok(q) && q@ == view,
                Err(fault) => r == Err::<Qv, KeyError>(KeyError::Decode(fault)),
            },
    {
        match Self::read_fields(k) {
            Ok(q) => Ok(q),
            Err(fault) => Err(KeyError::Decode(fault)),
        }
    }

    fn read_fields(k: &[u8]) -> (r: Result<Qv, DecodeFault>)
        ensures
            match decoded(k@) {
                Ok(view) => r matches Ok(q) && q@ == view,
                Err(fault) => r == Err::<Qv, DecodeFault>(fault),
            },
    {
        let mut r = storekey::BorrowReader::new(k);
        let __: u8 = take_u8(&mut r)?;
        let _a: u8 = take_u8(&mut r)?;
        let ns: u32 = take_u32(&mut r)?;
        let _b: u8 = take_u8(&mut r)?;
        let db: u32 = take_u32(&mut r)?;
        let _c: u8 = take_u8(&mut r)?;
        proof {
            assert(k@.skip(1).skip(1) =~= k@.skip(2));
            assert(k@.skip(2).skip(4) =~= k@.skip(6));
            assert(k@.skip(6).skip(1) =~= k@.skip(7));
            assert(k@.skip(7).skip(4) =~= k@.skip(11));
            assert(k@.skip(11).skip(1) =~= k@.skip(12));
            assert(k@.skip(2).take(4) =~= k@.subrange(2, 6));
            assert(k@.skip(7).take(4) =~= k@.subrange(7, 11));
        }
        let tb = take_string(&mut r)?;
        let ghost foot = crate::codec::unread(r);
        let _d: u8 = take_u8(&mut r)?;
        let ix: u32 = take_u32(&mut r)?;
        let _e: u8 = take_u8(&mut r)?;
        let _f: u8 = take_u8(&mut r)?;
        let _g: u8 = take_u8(&mut r)?;
        let point_id: u64 = take_u64(&mut r)?;
        proof {
            assert(foot.skip(1).skip(4) =~= foot.skip(5));
            assert(foot.skip(5).skip(1) =~= foot.skip(6));
            assert(foot.skip(6).skip(1) =~= foot.skip(7));
            assert(foot.skip(7).skip(1) =~= foot.skip(8));
            assert(foot.skip(1).take(4) =~= foot.subrange(1, 5));
            assert(foot.skip(8).take(8) =~= foot.subrange(8, 16));
        }
        if !r.is_empty() {
            return Err(DecodeFault::BytesRemaining);
        }
        Ok(
            Qv {
                __,
                _a,
                ns: NamespaceId(ns),
                _b,
                db: DatabaseId(db),
                _c,
                tb: TableName::from_string(tb),
                _d,
                ix: IndexId(ix),
                _e,
                _f,
                _g,
                point_id,
            },
        )
    }
}

/// Prefix of all `!qv` keys of one index.
#[derive(Debug, PartialEq, Eq, PartialOrd)]
pub struct QvRoot {
    pub __: u8,
    pub _a: u8,
    pub ns: NamespaceId,
    pub _b: u8,
    pub db: DatabaseId,
    pub _c: u8,
    pub tb: TableName,
    pub _d: u8,
    pub ix: IndexId,
    pub _e: u8,
    pub _f: u8,
    pub _g: u8,
}

impl View for QvRoot {
    type V = RootView;

    open spec fn view(&self) -> RootView {
        RootView {
            marks: Marks {
                root: self.__,
                ns: self._a,
                db: self._b,
                tb: self._c,
                ix: self._d,
                family: (self._e, self._f, self._g),
            },
            ns: self.ns.0,
            db: self.db.0,
            tb: self.tb@,
            ix: self.ix.0,
        }
    }
}

impl Clone for QvRoot {
    fn clone(&self) -> (r: Self)
        ensures
            r@ == self@,
            r.tb@ == self.tb@,
            r.__ == self.__,
            r._a == self._a,
            r.ns == self.ns,
            r._b == self._b,
            r.db == self.db,
            r._c == self._c,
            r._d == self._d,
            r.ix == self.ix,
            r._e == self._e,
            r._f == self._f,
            r._g == self._g,
    {
        QvRoot {
            __: self.__,
            _a: self._a,
            ns: self.ns,
            _b: self._b,
            db: self.db,
            _c: self._c,
            tb: self.tb.clone(),
            _d: self._d,
            ix: self.ix,
            _e: self._e,
            _f: self._f,
            _g: self._g,
        }
    }
}

/// The first key of the range that holds the keys of the index `root`.
pub open spec fn range_start(root: RootView) -> Seq<u8> {
    root.encoded().push(0)
}

/// The key just past the range that holds the keys of the index `root`.
pub open spec fn range_end(root: RootView) -> Seq<u8> {
    let prefix = root.encoded();
    prefix.update(prefix.len() - 1, (prefix.last() + 1) as u8)
}

impl QvRoot {
    /// Encodes the prefix, field by field.
    pub fn encode_key(&self) -> (r: Result<Key, KeyError>)
        ensures
            r matches Ok(k) && k@ == self@.encoded(),
    {
        let mut k: Vec<u8> = Vec::new();
        put_head(&mut k, self.__, self._a, self.ns, self._b, self.db, self._c)?;
        written(put_str(&mut k, self.tb.as_str()))?;
        put_foot(&mut k, self._d, self.ix, self._e, self._f, self._g)?;
        assert(k@ =~= self@.encoded());
        Ok(k)
    }

    /// Returns the key range covering every `!qv` key of one index.
    ///
    /// The upper bound increments the final prefix byte (`v` to `w`) so the range covers the
    /// full `u64` point-id space with no gap.
    pub fn range(ns: NamespaceId, db: DatabaseId, tb: &TableName, ix: IndexId) -> (r: Result<
        Range<Key>,
        KeyError,
    >)
        ensures
            r matches Ok(range) && range.start@ == range_start(qv_root(ns, db, tb@, ix))
                && range.end@ == range_end(qv_root(ns, db, tb@, ix)),
    {
        let root = QvRoot {
            __: SLASH,
            _a: STAR,
            ns,
            _b: STAR,
            db,
            _c: STAR,
            tb: tb.clone(),
            _d: PLUS,
            ix,
            _e: BANG,
            _f: LETTER_Q,
            _g: LETTER_V,
        };
        let prefix = root.encode_key()?;
        let mut beg = prefix.clone();
        beg.push(0);
        let mut end = prefix;
        let n: usize = end.len();
        proof {
            prefix_shape(root@);
        }
        // The final prefix byte is `v`, so incrementing it yields the exclusive upper bound.
        let last: u8 = end[n - 1];
        end.set(n - 1, last + 1);
        Ok(beg..end)
    }
}

/// How long the parts of a prefix are, and what it ends with.
pub proof fn prefix_shape(root: RootView)
    ensures
        root.head().len() == 12,
        root.foot().len() == 8,
        root.encoded().len() >= 21,
        root.encoded().last() == root.marks.family.2,
{
    crate::bytes::big_endian_len(root.ns as nat, 4);
    crate::bytes::big_endian_len(root.db as nat, 4);
    crate::bytes::big_endian_len(root.ix as nat, 4);
}

} // verus!
