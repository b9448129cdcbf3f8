use columnar::array::{
    Array, BooleanArray, BytesArray, BytesKind, DictionaryArray, FixedSizeBinaryArray,
    FixedSizeListArray, ListArray, NullArray, PrimitiveArray, PrimitiveType, StructArray, TimeUnit,
};
use columnar::bitmap::Bitmap;
use columnar::error::ArrowError;
use columnar::take::{take, TakeOptions};
use std::sync::Arc;

fn u32_index(v: Vec<Option<u32>>) -> PrimitiveArray {
    let items: Vec<Option<i128>> = v.into_iter().map(|x| x.map(|y| y as i128)).collect();
    PrimitiveArray::from_options(PrimitiveType::UInt32, &items)
}

fn u32_index_non_null(v: Vec<u32>) -> PrimitiveArray {
    PrimitiveArray::from_values(PrimitiveType::UInt32, v.into_iter().map(|y| y as i128).collect())
}

fn prim(dt: PrimitiveType, v: Vec<Option<i64>>) -> Array {
    let items: Vec<Option<i128>> = v.into_iter().map(|x| x.map(|y| y as i128)).collect();
    Array::Primitive(PrimitiveArray::from_options(dt, &items))
}

fn as_options(a: &Array) -> Vec<Option<i64>> {
    match a {
        Array::Primitive(p) => p.to_options().into_iter().map(|x| x.map(|y| y as i64)).collect(),
        _ => panic!("not a primitive array"),
    }
}

fn take_prim(
    dt: PrimitiveType,
    data: Vec<Option<i64>>,
    index: &PrimitiveArray,
    options: Option<TakeOptions>,
) -> Result<Vec<Option<i64>>, ArrowError> {
    let values = prim(dt, data);
    take(&values, index, options).map(|r| as_options(&r))
}

fn strings(kind: BytesKind, v: Vec<Option<&str>>) -> Array {
    let items: Vec<Option<Vec<u8>>> = v.into_iter().map(|x| x.map(|s| s.as_bytes().to_vec())).collect();
    Array::Bytes(BytesArray::from_options(kind, &items).unwrap())
}

fn as_strings(a: &Array) -> Vec<Option<String>> {
    match a {
        Array::Bytes(b) => (0..b.offsets.len() - 1)
            .map(|i| {
                if b.is_valid(i) {
                    Some(String::from_utf8(b.value(i)).unwrap())
                } else {
                    None
                }
            })
            .collect(),
        _ => panic!("not a bytes array"),
    }
}

fn validity(v: &Option<Bitmap>, n: usize) -> Vec<bool> {
    match v {
        Some(b) => b.to_bools(),
        None => vec![true; n],
    }
}

#[test]
fn test_take_decimal128_non_null_indices() {
    let index = u32_index_non_null(vec![0, 5, 3, 1, 4, 2]);
    let dt = PrimitiveType::Decimal128(10, 5);
    let r = take_prim(dt, vec![None, Some(3), Some(5), Some(2), Some(3), None], &index, None).unwrap();
    assert_eq!(r, vec![None, None, Some(2), Some(3), Some(3), Some(5)]);
}

#[test]
fn test_take_decimal128() {
    let index = u32_index(vec![Some(3), None, Some(1), Some(3), Some(2)]);
    let values = prim(PrimitiveType::Decimal128(10, 5), vec![Some(0), Some(1), Some(2), Some(3), Some(4)]);
    let r = take(&values, &index, None).unwrap();
    assert_eq!(as_options(&r), vec![Some(3), None, Some(1), Some(3), Some(2)]);
    match r {
        Array::Primitive(p) => assert!(matches!(p.data_type, PrimitiveType::Decimal128(10, 5))),
        _ => panic!("not a primitive array"),
    }
}

#[test]
fn test_take_primitive_non_null_indices() {
    let index = u32_index_non_null(vec![0, 5, 3, 1, 4, 2]);
    let r = take_prim(PrimitiveType::Int8, vec![None, Some(3), Some(5), Some(2), Some(3), None], &index, None)
        .unwrap();
    assert_eq!(r, vec![None, None, Some(2), Some(3), Some(3), Some(5)]);
}

#[test]
fn test_take_primitive_non_null_values() {
    let index = u32_index(vec![Some(3), None, Some(1), Some(3), Some(2)]);
    let r = take_prim(PrimitiveType::Int8, vec![Some(0), Some(1), Some(2), Some(3), Some(4)], &index, None)
        .unwrap();
    assert_eq!(r, vec![Some(3), None, Some(1), Some(3), Some(2)]);
}

#[test]
fn test_take_primitive_non_null() {
    let index = u32_index_non_null(vec![0, 5, 3, 1, 4, 2]);
    let r = take_prim(
        PrimitiveType::Int8,
        vec![Some(0), Some(3), Some(5), Some(2), Some(3), Some(1)],
        &index,
        None,
    )
    .unwrap();
    assert_eq!(r, vec![Some(0), Some(1), Some(2), Some(3), Some(3), Some(5)]);
}

#[test]
fn test_take_primitive() {
    let index = u32_index(vec![Some(3), None, Some(1), Some(3), Some(2)]);
    for dt in [
        PrimitiveType::Int8,
        PrimitiveType::Int16,
        PrimitiveType::Int32,
        PrimitiveType::Int64,
        PrimitiveType::UInt8,
        PrimitiveType::UInt16,
        PrimitiveType::UInt32,
        PrimitiveType::UInt64,
        PrimitiveType::Date32,
        PrimitiveType::Date64,
        PrimitiveType::Time32(TimeUnit::Second),
        PrimitiveType::Time64(TimeUnit::Nanosecond),
        PrimitiveType::Duration(TimeUnit::Millisecond),
    ] {
        let r = take_prim(dt, vec![Some(0), None, Some(2), Some(3), None], &index, None).unwrap();
        assert_eq!(r, vec![Some(3), None, None, Some(3), Some(2)]);
    }
}

#[test]
fn test_take_preserve_timezone() {
    let index = u32_index(vec![Some(0), None]);
    let dt = PrimitiveType::Timestamp(TimeUnit::Nanosecond, Some("UTC".to_string()));
    let values = prim(dt, vec![Some(1639715368000000000), Some(1639715368000000000)]);
    let r = take(&values, &index, None).unwrap();
    match r {
        Array::Primitive(p) => match p.data_type {
            PrimitiveType::Timestamp(TimeUnit::Nanosecond, Some(tz)) => assert_eq!(tz, "UTC"),
            _ => panic!("time zone not kept"),
        },
        _ => panic!("not a primitive array"),
    }
}

#[test]
fn test_take_impl_primitive_with_int64_indices() {
    let items: Vec<Option<i128>> = vec![Some(3), None, Some(1), Some(3), Some(2)];
    let index = PrimitiveArray::from_options(PrimitiveType::Int64, &items);
    let r = take_prim(PrimitiveType::Int16, vec![Some(0), None, Some(2), Some(3), None], &index, None).unwrap();
    assert_eq!(r, vec![Some(3), None, None, Some(3), Some(2)]);
}

#[test]
fn test_take_impl_primitive_with_uint8_indices() {
    let items: Vec<Option<i128>> = vec![Some(3), None, Some(1), Some(3), Some(2)];
    let index = PrimitiveArray::from_options(PrimitiveType::UInt8, &items);
    let r = take_prim(PrimitiveType::Int16, vec![Some(0), None, Some(2), Some(3), None], &index, None).unwrap();
    assert_eq!(r, vec![Some(3), None, None, Some(3), Some(2)]);
}

#[test]
fn test_take_bool() {
    let index = u32_index(vec![Some(3), None, Some(1), Some(3), Some(2)]);
    let values = Array::Boolean(BooleanArray::from_options(&vec![Some(false), None, Some(true), Some(false), None]));
    let r = take(&values, &index, None).unwrap();
    match r {
        Array::Boolean(b) => {
            assert_eq!(b.to_options(), vec![Some(false), None, None, Some(false), Some(true)])
        }
        _ => panic!("not a boolean array"),
    }
}

fn check_take_string(kind: BytesKind) {
    let index = u32_index(vec![Some(3), None, Some(1), Some(3), Some(4)]);
    let array = strings(kind, vec![Some("one"), None, Some("three"), Some("four"), Some("five")]);
    let actual = take(&array, &index, None).unwrap();
    assert_eq!(actual.len(), 5);
    let expected = vec![Some("four".to_string()), None, None, Some("four".to_string()), Some("five".to_string())];
    assert_eq!(as_strings(&actual), expected);
    match actual {
        Array::Bytes(b) => {
            assert_eq!(b.kind, kind);
            assert_eq!(b.offsets, vec![0, 4, 4, 4, 8, 12]);
            assert_eq!(b.data, b"fourfourfive".to_vec());
        }
        _ => panic!("not a bytes array"),
    }
}

#[test]
fn test_take_string() {
    check_take_string(BytesKind::Utf8);
}

#[test]
fn test_take_large_string() {
    check_take_string(BytesKind::LargeUtf8);
}

#[test]
fn take_strings_by_position() {
    let array = strings(BytesKind::Utf8, vec![Some("zero"), Some("one"), Some("two")]);
    let index = u32_index_non_null(vec![2, 1]);
    let actual = take(&array, &index, None).unwrap();
    assert_eq!(as_strings(&actual), vec![Some("two".to_string()), Some("one".to_string())]);
}

#[test]
fn take_binary_values() {
    let items: Vec<Option<Vec<u8>>> = vec![Some(vec![1, 2]), None, Some(vec![]), Some(vec![9])];
    let array = Array::Bytes(BytesArray::from_options(BytesKind::Binary, &items).unwrap());
    let index = u32_index(vec![Some(3), Some(0), None, Some(2), Some(1)]);
    match take(&array, &index, None).unwrap() {
        Array::Bytes(b) => {
            assert_eq!(b.offsets, vec![0, 1, 3, 3, 3, 3]);
            assert_eq!(b.data, vec![9, 1, 2]);
            assert_eq!(validity(&b.validity, 5), vec![true, true, false, true, false]);
        }
        _ => panic!("not a bytes array"),
    }
}

fn list_of_ints(large: bool) -> Array {
    let child = prim(PrimitiveType::Int32, vec![Some(0), Some(0), Some(0), Some(-1), Some(-2), Some(-1), Some(2), Some(3)]);
    Array::List(ListArray { large, offsets: vec![0, 3, 6, 8], child: Box::new(child), validity: None })
}

fn check_take_list(large: bool) {
    let values = list_of_ints(large);
    let index = u32_index(vec![Some(2), None, Some(1), Some(2), Some(0)]);
    match take(&values, &index, None).unwrap() {
        Array::List(l) => {
            assert_eq!(l.large, large);
            assert_eq!(l.offsets, vec![0, 2, 2, 5, 7, 10]);
            assert_eq!(validity(&l.validity, 5), vec![true, false, true, true, true]);
            assert_eq!(
                as_options(&l.child),
                vec![Some(2), Some(3), Some(-1), Some(-2), Some(-1), Some(2), Some(3), Some(0), Some(0), Some(0)]
            );
        }
        _ => panic!("not a list array"),
    }
}

#[test]
fn test_take_list() {
    check_take_list(false);
}

#[test]
fn test_take_large_list() {
    check_take_list(true);
}

fn check_take_list_with_nulls(large: bool) {
    // [[0, null, 0], null, [2, 3]]
    let child = prim(PrimitiveType::Int32, vec![Some(0), None, Some(0), Some(2), Some(3)]);
    let values = Array::List(ListArray {
        large,
        offsets: vec![0, 3, 3, 5],
        child: Box::new(child),
        validity: Some(Bitmap::from_bools(&vec![true, false, true])),
    });
    let index = u32_index(vec![Some(1), Some(0), None, Some(2)]);
    match take(&values, &index, None).unwrap() {
        Array::List(l) => {
            assert_eq!(l.offsets, vec![0, 0, 3, 3, 5]);
            assert_eq!(validity(&l.validity, 4), vec![false, true, false, true]);
            assert_eq!(as_options(&l.child), vec![Some(0), None, Some(0), Some(2), Some(3)]);
        }
        _ => panic!("not a list array"),
    }
}

#[test]
fn test_take_list_with_value_nulls() {
    check_take_list_with_nulls(false);
}

#[test]
fn test_take_large_list_with_value_nulls() {
    check_take_list_with_nulls(true);
}

#[test]
fn test_take_fixed_size_list() {
    // [[0, 1, 2], [3, 4, 5], [6, 7, 8]]
    let child = prim(PrimitiveType::Int32, (0..9).map(Some).collect());
    let values = Array::FixedSizeList(FixedSizeListArray { size: 3, len: 3, child: Box::new(child), validity: None });
    let index = u32_index(vec![Some(2), None, Some(0)]);
    match take(&values, &index, None).unwrap() {
        Array::FixedSizeList(l) => {
            assert_eq!(l.len, 3);
            assert_eq!(validity(&l.validity, 3), vec![true, false, true]);
            assert_eq!(
                as_options(&l.child),
                vec![Some(6), Some(7), Some(8), None, None, None, Some(0), Some(1), Some(2)]
            );
        }
        _ => panic!("not a fixed-size list array"),
    }
}

#[test]
fn take_fixed_size_binary_values() {
    let values = Array::FixedSizeBinary(FixedSizeBinaryArray {
        width: 2,
        len: 3,
        data: vec![1, 2, 3, 4, 5, 6],
        validity: Some(Bitmap::from_bools(&vec![true, false, true])),
    });
    let index = u32_index(vec![Some(2), Some(1), None, Some(0)]);
    match take(&values, &index, None).unwrap() {
        Array::FixedSizeBinary(b) => {
            assert_eq!(b.width, 2);
            assert_eq!(validity(&b.validity, 4), vec![true, false, false, true]);
            assert_eq!(&b.data[0..2], &[5, 6]);
            assert_eq!(&b.data[6..8], &[1, 2]);
        }
        _ => panic!("not a fixed-size binary array"),
    }
}

fn test_struct(values: Vec<Option<(Option<bool>, Option<i32>)>>) -> Array {
    let a: Vec<Option<bool>> = values.iter().map(|v| v.and_then(|x| x.0)).collect();
    let b: Vec<Option<i64>> = values.iter().map(|v| v.and_then(|x| x.1).map(|y| y as i64)).collect();
    let valid: Vec<bool> = values.iter().map(|v| v.is_some()).collect();
    Array::Struct(StructArray {
        names: vec!["a".to_string(), "b".to_string()],
        columns: vec![Array::Boolean(BooleanArray::from_options(&a)), prim(PrimitiveType::Int32, b)],
        len: values.len(),
        validity: Some(Bitmap::from_bools(&valid)),
    })
}

fn struct_rows(a: &Array) -> Vec<Option<(Option<bool>, Option<i64>)>> {
    match a {
        Array::Struct(s) => {
            let valid = validity(&s.validity, s.len);
            let col_a = match &s.columns[0] {
                Array::Boolean(b) => b.to_options(),
                _ => panic!("field a is not boolean"),
            };
            let col_b = as_options(&s.columns[1]);
            (0..s.len).map(|i| if valid[i] { Some((col_a[i], col_b[i])) } else { None }).collect()
        }
        _ => panic!("not a struct array"),
    }
}

#[test]
fn test_take_struct() {
    let array = test_struct(vec![
        Some((Some(true), Some(42))),
        Some((Some(false), Some(28))),
        Some((Some(false), Some(19))),
        Some((Some(true), Some(31))),
        None,
    ]);
    let index = u32_index_non_null(vec![0, 3, 1, 0, 2, 4]);
    let actual = take(&array, &index, None).unwrap();
    assert_eq!(actual.len(), 6);
    let rows = struct_rows(&actual);
    assert_eq!(rows.iter().filter(|r| r.is_none()).count(), 1);
    assert_eq!(
        rows,
        vec![
            Some((Some(true), Some(42))),
            Some((Some(true), Some(31))),
            Some((Some(false), Some(28))),
            Some((Some(true), Some(42))),
            Some((Some(false), Some(19))),
            None,
        ]
    );
}

#[test]
fn test_take_struct_with_null_indices() {
    let array = test_struct(vec![
        Some((Some(true), Some(42))),
        Some((Some(false), Some(28))),
        Some((Some(false), Some(19))),
        Some((Some(true), Some(31))),
        None,
    ]);
    let index = u32_index(vec![None, Some(3), Some(1), None, Some(0), Some(4)]);
    let actual = take(&array, &index, None).unwrap();
    assert_eq!(actual.len(), 6);
    let rows = struct_rows(&actual);
    assert_eq!(rows.iter().filter(|r| r.is_none()).count(), 3);
    assert_eq!(
        rows,
        vec![None, Some((Some(true), Some(31))), Some((Some(false), Some(28))), None, Some((Some(true), Some(42))), None]
    );
    match actual {
        Array::Struct(s) => assert_eq!(s.names, vec!["a".to_string(), "b".to_string()]),
        _ => panic!("not a struct array"),
    }
}

#[test]
fn test_take_out_of_bounds() {
    let index = u32_index(vec![Some(3), None, Some(1), Some(3), Some(6)]);
    let result = take_prim(
        PrimitiveType::Int64,
        vec![Some(0), None, Some(2), Some(3), None],
        &index,
        Some(TakeOptions { check_bounds: true }),
    );
    let err = result.unwrap_err();
    assert!(matches!(err, ArrowError::ComputeError(_)));
    assert_eq!(err.message(), "Array index out of bounds, cannot get item at index 6 from 5 entries");
}

#[test]
fn test_null_array_smaller_than_indices() {
    let values = Array::Null(NullArray { len: 2 });
    let index = u32_index(vec![Some(0), None, Some(15)]);
    match take(&values, &index, None).unwrap() {
        Array::Null(n) => assert_eq!(n.len, 3),
        _ => panic!("not a null array"),
    }
}

#[test]
fn test_null_array_larger_than_indices() {
    let values = Array::Null(NullArray { len: 5 });
    let index = u32_index(vec![Some(0), None, Some(15)]);
    match take(&values, &index, None).unwrap() {
        Array::Null(n) => assert_eq!(n.len, 3),
        _ => panic!("not a null array"),
    }
}

#[test]
fn test_null_array_indices_out_of_bounds() {
    let values = Array::Null(NullArray { len: 5 });
    let index = u32_index(vec![Some(0), None, Some(15)]);
    let err = take(&values, &index, Some(TakeOptions { check_bounds: true })).unwrap_err();
    assert_eq!(err.message(), "Array index out of bounds, cannot get item at index 15 from 5 entries");
}

fn foo_bar_dictionary(key_type: PrimitiveType) -> Array {
    let keys: Vec<Option<i128>> = vec![Some(0), Some(1), Some(2), None, Some(0), Some(1), Some(1), Some(0)];
    let values = strings(BytesKind::Utf8, vec![Some("foo"), Some("bar"), Some("")]);
    Array::Dictionary(DictionaryArray { keys: PrimitiveArray::from_options(key_type, &keys), values: Arc::new(values) })
}

#[test]
fn test_take_dict() {
    let array = foo_bar_dictionary(PrimitiveType::Int16);
    let index = u32_index(vec![Some(0), Some(7), None, Some(5), Some(6), Some(2), Some(3)]);
    let dict_values = match &array {
        Array::Dictionary(d) => d.values.clone(),
        _ => panic!("not a dictionary"),
    };
    match take(&array, &index, None).unwrap() {
        Array::Dictionary(d) => {
            assert!(Arc::ptr_eq(&d.values, &dict_values));
            assert_eq!(
                as_strings(&d.values),
                vec![Some("foo".to_string()), Some("bar".to_string()), Some("".to_string())]
            );
            let keys: Vec<Option<i64>> = d.keys.to_options().into_iter().map(|x| x.map(|y| y as i64)).collect();
            assert_eq!(keys, vec![Some(0), Some(0), None, Some(1), Some(1), Some(2), None]);
            assert!(matches!(d.keys.data_type, PrimitiveType::Int16));
        }
        _ => panic!("not a dictionary"),
    }
}

#[test]
fn take_dictionary_with_non_integer_keys_is_not_implemented() {
    let array = foo_bar_dictionary(PrimitiveType::Float64);
    let index = u32_index(vec![Some(0)]);
    let err = take(&array, &index, None).unwrap_err();
    assert!(matches!(err, ArrowError::NotImplemented(_)));
    assert_eq!(err.message(), "Take not supported for dictionary key type");
}

#[test]
fn take_negative_index_fails_cast() {
    let items: Vec<Option<i128>> = vec![Some(1), Some(-1)];
    let index = PrimitiveArray::from_options(PrimitiveType::Int32, &items);
    let err = take_prim(PrimitiveType::Int32, vec![Some(5), Some(6)], &index, None).unwrap_err();
    assert_eq!(err.message(), "Cast to usize failed");
    let err = take_prim(PrimitiveType::Int32, vec![Some(5), Some(6)], &index, Some(TakeOptions { check_bounds: true }))
        .unwrap_err();
    assert_eq!(err.message(), "Cast to usize failed");
}

#[test]
fn take_identity_keeps_values() {
    let data = vec![Some(7), None, Some(-3), Some(0)];
    let index = u32_index_non_null(vec![0, 1, 2, 3]);
    assert_eq!(take_prim(PrimitiveType::Int64, data.clone(), &index, None).unwrap(), data);
}

#[test]
fn take_composes() {
    let values = prim(PrimitiveType::Int64, vec![Some(10), None, Some(30), Some(40)]);
    let i = u32_index(vec![Some(3), Some(1), None, Some(0)]);
    let j = u32_index(vec![Some(0), Some(2), Some(3), None, Some(1)]);
    let twice = take(&take(&values, &i, None).unwrap(), &j, None).unwrap();
    // gather(I, J) = [I[0], I[2], I[3], null, I[1]] = [3, null, 0, null, 1]
    let ij = u32_index(vec![Some(3), None, Some(0), None, Some(1)]);
    let once = take(&values, &ij, None).unwrap();
    assert_eq!(as_options(&twice), as_options(&once));
    assert_eq!(as_options(&once), vec![Some(40), None, Some(10), None, None]);
}

#[test]
fn take_empty_indices() {
    let index = u32_index_non_null(vec![]);
    assert_eq!(take_prim(PrimitiveType::Int32, vec![Some(1)], &index, None).unwrap(), vec![]);
    let array = strings(BytesKind::Utf8, vec![Some("a")]);
    match take(&array, &index, None).unwrap() {
        Array::Bytes(b) => assert_eq!(b.offsets, vec![0]),
        _ => panic!("not a bytes array"),
    }
}

#[test]
fn take_without_nulls_drops_the_bitmap() {
    // Both inputs carry a bitmap, but no slot is null.
    let values = prim(PrimitiveType::Int32, vec![Some(1), Some(2), Some(3)]);
    let index = u32_index(vec![Some(2), Some(0)]);
    match take(&values, &index, None).unwrap() {
        Array::Primitive(p) => {
            assert!(p.validity.is_none());
            assert_eq!(p.values, vec![3, 1]);
        }
        _ => panic!("not a primitive array"),
    }
    let index = u32_index(vec![Some(2), None]);
    match take(&values, &index, None).unwrap() {
        Array::Primitive(p) => assert!(p.validity.is_some()),
        _ => panic!("not a primitive array"),
    }
}
