use qortex::catalog::{
    DatabaseId, Distance, IndexId, IndexKeyBase, NamespaceId, QortexParams, TableId, TableName,
};
use qortex::index::QortexIndex;
use qortex::vector::{
    serialized_to_f32, QortexVecValue, RecordIdKey, SerializedVector, Value, VectorError, VectorType,
};

fn index(dimension: u16) -> QortexIndex {
    let ikb = IndexKeyBase {
        ns: NamespaceId(1),
        db: DatabaseId(2),
        tb: TableName::from("testtb"),
        ix: IndexId(3),
    };
    let p =
        QortexParams { dimension, distance: Distance::Cosine, vector_type: VectorType::F64 };
    QortexIndex::new(ikb, TableId(4), &p).unwrap().0
}

fn bits(v: &[f32]) -> Vec<u32> {
    v.iter().map(|x| x.to_bits()).collect()
}

#[test]
fn every_element_type_converts() {
    let f64s = [0.95f64, -0.05, 1e-50, 1e50].iter().map(|x| x.to_bits()).collect();
    assert_eq!(
        serialized_to_f32(&SerializedVector::F64(f64s)),
        bits(&[0.95, -0.05, 0.0, f32::INFINITY])
    );
    assert_eq!(
        serialized_to_f32(&SerializedVector::F32(bits(&[1.5, -2.25]))),
        bits(&[1.5, -2.25])
    );
    assert_eq!(
        serialized_to_f32(&SerializedVector::I64(vec![i64::MAX, -5])),
        bits(&[9.223372e18, -5.0])
    );
    assert_eq!(
        serialized_to_f32(&SerializedVector::I32(vec![i32::MIN, 16_777_217])),
        bits(&[-2147483648.0, 16777216.0])
    );
    assert_eq!(
        serialized_to_f32(&SerializedVector::I16(vec![i16::MIN, i16::MAX])),
        bits(&[-32768.0, 32767.0])
    );
    assert_eq!(
        serialized_to_f32(&SerializedVector::F16(vec![0x3c00, 0xc000])),
        bits(&[1.0, -2.0])
    );
    assert_eq!(
        serialized_to_f32(&SerializedVector::I8(vec![-128, 127])),
        bits(&[-128.0, 127.0])
    );
    assert_eq!(serialized_to_f32(&SerializedVector::U8(vec![0, 255])), bits(&[0.0, 255.0]));
}

#[test]
fn the_dimension_must_match() {
    let ix = index(3);
    let sv = SerializedVector::I8(vec![1, 2]);
    assert!(matches!(
        ix.value_to_f32(&Ok(sv)),
        Err(VectorError::Dimension { current: 2, expected: 3 })
    ));
    let sv = SerializedVector::I8(vec![1, 2, 3]);
    assert_eq!(ix.value_to_f32(&Ok(sv)).unwrap(), bits(&[1.0, 2.0, 3.0]));
}

#[test]
fn a_value_that_is_no_vector_is_refused() {
    match index(3).value_to_f32(&Err("a string".to_string())) {
        Err(VectorError::Invalid(why)) => assert_eq!(why, "a string"),
        other => panic!("{:?}", other),
    }
}

#[test]
fn the_first_present_value_is_indexed() {
    let ix = index(1);
    let one = || Value::Present(Ok(SerializedVector::U8(vec![1])));
    let two = || Value::Present(Ok(SerializedVector::U8(vec![2])));
    let bad = || Value::Present(Err("bad".to_string()));
    assert_eq!(ix.first_vector(&vec![]).unwrap(), None);
    assert_eq!(ix.first_vector(&vec![Value::Absent, Value::Null]).unwrap(), None);
    assert_eq!(
        ix.first_vector(&vec![Value::Null, one(), two(), bad()]).unwrap(),
        Some(bits(&[1.0]))
    );
    assert!(matches!(
        ix.first_vector(&vec![Value::Absent, bad(), one()]),
        Err(VectorError::Invalid(_))
    ));
}

#[test]
fn stored_points_are_equal_as_numbers() {
    let point = |rid: &[u8], v: &[f32]| QortexVecValue {
        rid: RecordIdKey { bytes: rid.to_vec() },
        vector: bits(v),
    };
    let p = point(b"a", &[1.0, -2.5, f32::INFINITY]);
    assert_eq!(p.clone(), p);
    assert_ne!(p, point(b"b", &[1.0, -2.5, f32::INFINITY]));
    assert_ne!(p, point(b"ab", &[1.0, -2.5, f32::INFINITY]));
    assert_ne!(p, point(b"a", &[1.0, 2.5, f32::INFINITY]));
    assert_ne!(p, point(b"a", &[1.0, -2.5]));
    assert_eq!(point(b"a", &[0.0]), point(b"a", &[-0.0]));
    assert_ne!(point(b"a", &[f32::NAN]), point(b"a", &[f32::NAN]));
}
