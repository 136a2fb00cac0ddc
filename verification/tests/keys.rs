use qortex::catalog::{DatabaseId, IndexId, NamespaceId, TableName};
use qortex::codec::DecodeFault;
use qortex::qv::{KeyError, Qv, QvRoot};

#[test]
fn key() {
    let tb = TableName::from("testtb");
    let val = Qv::new(NamespaceId(1), DatabaseId(2), &tb, IndexId(3), 7);
    let enc = Qv::encode_key(&val).unwrap();
    assert_eq!(
        enc,
        b"/*\x00\x00\x00\x01*\x00\x00\x00\x02*testtb\0+\0\0\0\x03!qv\0\0\0\0\0\0\0\x07"
    );
}

#[test]
fn range_contains_keys() {
    let tb = TableName::from("testtb");
    let range = QvRoot::range(NamespaceId(1), DatabaseId(2), &tb, IndexId(3)).unwrap();
    let k0 = Qv::new(NamespaceId(1), DatabaseId(2), &tb, IndexId(3), 0).encode_key().unwrap();
    let kmax =
        Qv::new(NamespaceId(1), DatabaseId(2), &tb, IndexId(3), u64::MAX).encode_key().unwrap();
    assert!(range.start <= k0 && k0 < range.end);
    assert!(range.start <= kmax && kmax < range.end);
}

fn encoded(ns: u32, db: u32, tb: &str, ix: u32, point_id: u64) -> Vec<u8> {
    Qv::new(NamespaceId(ns), DatabaseId(db), &TableName::from(tb), IndexId(ix), point_id)
        .encode_key()
        .unwrap()
}

#[test]
fn decoding_gives_the_fields_back() {
    let k = encoded(1, 0x0102_0304, "testtb", u32::MAX, 0xfedc_ba98_7654_3210);
    let q = Qv::decode_key(&k).unwrap();
    assert_eq!(q.ns, NamespaceId(1));
    assert_eq!(q.db, DatabaseId(0x0102_0304));
    assert_eq!(q.tb.as_str(), "testtb");
    assert_eq!(q.ix, IndexId(u32::MAX));
    assert_eq!(q.point_id, 0xfedc_ba98_7654_3210);
    assert_eq!(q.encode_key().unwrap(), k);
}

#[test]
fn zero_and_one_bytes_of_a_name_are_escaped() {
    let k = encoded(0, 0, "a\0b\u{1}\u{e9}", 0, 1);
    assert_eq!(
        k,
        b"/*\0\0\0\0*\0\0\0\0*a\x01\0b\x01\x01\xc3\xa9\0+\0\0\0\0!qv\0\0\0\0\0\0\0\x01"
    );
    assert_eq!(Qv::decode_key(&k).unwrap().tb.as_str(), "a\0b\u{1}\u{e9}");
}

#[test]
fn an_escaped_plain_byte_is_read_as_itself() {
    let k = b"/*\0\0\0\x01*\0\0\0\x02*\x01t\0+\0\0\0\x03!qv\0\0\0\0\0\0\0\x07";
    let q = Qv::decode_key(k).unwrap();
    assert_eq!(q.tb.as_str(), "t");
    assert_eq!(q.point_id, 7);
}

#[test]
fn the_marks_are_read_as_they_come() {
    let k = b"ab\0\0\0\x01c\0\0\0\x02dt\0e\0\0\0\x03fgh\0\0\0\0\0\0\0\x07";
    let q = Qv::decode_key(k).unwrap();
    assert_eq!((q.__, q._a, q._b, q._c), (b'a', b'b', b'c', b'd'));
    assert_eq!((q._d, q._e, q._f, q._g), (b'e', b'f', b'g', b'h'));
    assert_eq!(q.encode_key().unwrap(), k);
}

#[test]
fn malformed_keys_are_refused() {
    let fault = |k: &[u8]| Qv::decode_key(k).unwrap_err();
    let k = encoded(1, 2, "testtb", 3, 7);
    assert_eq!(fault(b""), KeyError::Decode(DecodeFault::UnexpectedEnd));
    // Cut short before the name, within it, and after it.
    for n in 0..k.len() {
        assert_eq!(fault(&k[..n]), KeyError::Decode(DecodeFault::UnexpectedEnd));
    }
    let mut long = k.clone();
    long.push(0);
    assert_eq!(fault(&long), KeyError::Decode(DecodeFault::BytesRemaining));
    let mut not_text = k.clone();
    not_text[12] = 0xff;
    assert_eq!(fault(&not_text), KeyError::Decode(DecodeFault::Utf8));
    // The name is looked at before what follows it.
    assert_eq!(fault(&not_text[..20]), KeyError::Decode(DecodeFault::Utf8));
    // An escape at the very end escapes nothing.
    assert_eq!(
        fault(b"/*\0\0\0\x01*\0\0\0\x02*t\x01"),
        KeyError::Decode(DecodeFault::UnexpectedEnd)
    );
}

#[test]
fn keys_sort_as_their_fields() {
    let sorted = [
        encoded(0, 9, "z", 9, 9),
        encoded(1, 0, "z", 9, 9),
        encoded(1, 1, "", 9, 9),
        encoded(1, 1, "\0", 9, 9),
        encoded(1, 1, "\u{1}", 9, 9),
        encoded(1, 1, "a", 9, 9),
        encoded(1, 1, "a\0", 0, 0),
        encoded(1, 1, "ab", 0, 0),
        encoded(1, 1, "ab", 0, 255),
        encoded(1, 1, "ab", 0, 256),
        encoded(1, 1, "ab", 1, 0),
        encoded(256, 0, "", 0, 0),
    ];
    for i in 1..sorted.len() {
        assert!(sorted[i - 1] < sorted[i]);
    }
}

#[test]
fn a_range_is_the_prefix_extended() {
    let tb = TableName::from("testtb");
    let range = QvRoot::range(NamespaceId(1), DatabaseId(2), &tb, IndexId(3)).unwrap();
    assert_eq!(range.start, b"/*\0\0\0\x01*\0\0\0\x02*testtb\0+\0\0\0\x03!qv\0");
    assert_eq!(range.end, b"/*\0\0\0\x01*\0\0\0\x02*testtb\0+\0\0\0\x03!qw");
}

#[test]
fn a_range_holds_no_key_of_another_index() {
    let tb = TableName::from("a");
    let range = QvRoot::range(NamespaceId(1), DatabaseId(1), &tb, IndexId(1)).unwrap();
    for point_id in [0, 1, 255, 256, u64::MAX] {
        assert!(range.contains(&encoded(1, 1, "a", 1, point_id)));
        for other in [
            encoded(0, 1, "a", 1, point_id),
            encoded(2, 1, "a", 1, point_id),
            encoded(1, 0, "a", 1, point_id),
            encoded(1, 2, "a", 1, point_id),
            encoded(1, 1, "", 1, point_id),
            encoded(1, 1, "a\0", 1, point_id),
            encoded(1, 1, "ab", 1, point_id),
            encoded(1, 1, "a", 0, point_id),
            encoded(1, 1, "a", 2, point_id),
        ] {
            assert!(!range.contains(&other));
        }
    }
}

#[test]
fn keys_compare_field_by_field() {
    let key = |ns: u32, tb: &str, point_id: u64| {
        Qv::new(NamespaceId(ns), DatabaseId(2), &TableName::from(tb), IndexId(3), point_id)
    };
    let a = key(1, "b", 7);
    assert_eq!(a.clone(), a);
    assert_eq!(a.clone().encode_key().unwrap(), a.encode_key().unwrap());
    assert_ne!(a, key(1, "b", 8));
    assert!(a < key(1, "b", 8) && a < key(2, "a", 0) && a > key(1, "a", 9));
    let root = QvRoot {
        __: a.__,
        _a: a._a,
        ns: a.ns,
        _b: a._b,
        db: a.db,
        _c: a._c,
        tb: a.tb.clone(),
        _d: a._d,
        ix: a.ix,
        _e: a._e,
        _f: a._f,
        _g: a._g,
    };
    assert_eq!(root.clone(), root);
    assert!(root < QvRoot { ix: IndexId(4), ..root.clone() });
    assert_eq!(root.clone().encode_key().unwrap(), a.encode_key().unwrap()[..root_len(&a)]);
}

fn root_len(q: &Qv) -> usize {
    q.encode_key().unwrap().len() - 8
}
