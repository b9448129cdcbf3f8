use columnar::column::{Encoding, Page, PhysicalType};
use columnar::error::ParquetError;
use columnar::file::{
    check_decompressed_size, decode_page, page_from_header, get_midpoint_offset, Codec, ColumnChunkMetaData, Compression, DataPageHeader, DataPageHeaderV2,
    DictionaryPageHeader, PageHeader, PageType, ParquetMetaData, ReadOptionsBuilder, RowGroupMetaData,
    RowGroupPredicate, SerializedFileReader, SerializedPageReader,
};

/// A codec whose compressed form is every second byte: it writes each byte twice.
struct Doubling;

impl Codec for Doubling {
    fn decompress(&mut self, input: &[u8], output: &mut Vec<u8>) -> Result<usize, ParquetError> {
        for b in input {
            output.push(*b);
            output.push(*b);
        }
        Ok(2 * input.len())
    }
}

/// One row group of eleven columns, laid out as in a small plain-encoded file.
fn one_row_group() -> ParquetMetaData {
    let columns = (0..11)
        .map(|i| ColumnChunkMetaData {
            data_page_offset: 4 + 60 * i,
            dictionary_page_offset: None,
            compressed_size: 60,
            num_values: 8,
        })
        .collect();
    ParquetMetaData { row_groups: vec![RowGroupMetaData { columns, num_rows: 8, compressed_size: 671 }] }
}

fn mid() -> i64 {
    get_midpoint_offset(&one_row_group().row_groups[0])
}

#[test]
fn test_file_reader_with_no_filter() {
    let reader = SerializedFileReader::new((), one_row_group());
    assert_eq!(reader.num_row_groups(), 1);
}

#[test]
fn test_file_reader_filter_row_groups_with_predicate() {
    let options = ReadOptionsBuilder::new().with_predicate(RowGroupPredicate::Constant(false)).build();
    let reader = SerializedFileReader::new_with_options((), one_row_group(), options);
    assert_eq!(reader.num_row_groups(), 0);
}

#[test]
fn test_file_reader_filter_row_groups_with_range() {
    let reader = SerializedFileReader::new((), one_row_group());
    assert_eq!(reader.num_row_groups(), 1);
    let mid = get_midpoint_offset(reader.row_group(0));

    let options = ReadOptionsBuilder::new().with_range(0, mid + 1).build();
    let reader = SerializedFileReader::new_with_options((), one_row_group(), options);
    assert_eq!(reader.num_row_groups(), 1);

    let options = ReadOptionsBuilder::new().with_range(0, mid).build();
    let reader = SerializedFileReader::new_with_options((), one_row_group(), options);
    assert_eq!(reader.num_row_groups(), 0);
}

#[test]
fn test_file_reader_filter_row_groups_and_range() {
    let mid = mid();
    let cases = [(true, mid, mid + 1, 1), (true, 0, mid, 0), (false, mid, mid + 1, 0), (false, 0, mid, 0)];
    for (keep, start, end, expected) in cases {
        let options = ReadOptionsBuilder::new()
            .with_predicate(RowGroupPredicate::Constant(keep))
            .with_range(start, end)
            .build();
        let reader = SerializedFileReader::new_with_options((), one_row_group(), options);
        assert_eq!(reader.num_row_groups(), expected);
    }
}

#[test]
fn midpoint_uses_first_page() {
    let mut meta = one_row_group();
    assert_eq!(get_midpoint_offset(&meta.row_groups[0]), 4 + 671 / 2);
    meta.row_groups[0].columns[0].dictionary_page_offset = Some(2);
    assert_eq!(get_midpoint_offset(&meta.row_groups[0]), 2 + 335);
}

#[test]
fn filter_keeps_file_order_with_mask() {
    let rg = |offset: i64| RowGroupMetaData {
        columns: vec![ColumnChunkMetaData { data_page_offset: offset, dictionary_page_offset: None, compressed_size: 10, num_values: 1 }],
        num_rows: 1,
        compressed_size: 10,
    };
    let meta = ParquetMetaData { row_groups: vec![rg(0), rg(100), rg(200), rg(300)] };
    let options = ReadOptionsBuilder::new()
        .with_predicate(RowGroupPredicate::Mask(vec![true, true, false, true]))
        .with_range(0, 250)
        .with_page_index()
        .build();
    assert!(options.page_index());
    let reader = SerializedFileReader::new_with_options((), meta, options);
    assert_eq!(reader.num_row_groups(), 2);
    assert_eq!(reader.row_group(0).columns[0].data_page_offset, 0);
    assert_eq!(reader.row_group(1).columns[0].data_page_offset, 100);
    assert_eq!(reader.get_row_group(1).num_columns(), 1);
    assert_eq!(reader.get_row_group(1).column_chunk_range(0), (100, 10));
    assert_eq!(reader.get_row_group(1).column_num_values(0), 1);
}

fn data_header(num_values: i32) -> PageHeader {
    PageHeader {
        type_: PageType::DataPage,
        uncompressed_page_size: 3,
        compressed_page_size: 3,
        data_page_header: Some(DataPageHeader {
            num_values,
            encoding: Encoding::Plain,
            definition_level_encoding: Encoding::Rle,
            repetition_level_encoding: Encoding::BitPacked,
        }),
        dictionary_page_header: None,
        data_page_header_v2: None,
    }
}

#[test]
fn decode_pages_from_headers() {
    match decode_page::<Doubling>(data_header(7), vec![1, 2, 3], None).unwrap() {
        Page::DataPage { buf, num_values, def_level_encoding, rep_level_encoding, .. } => {
            assert_eq!(buf, vec![1, 2, 3]);
            assert_eq!(num_values, 7);
            assert_eq!(def_level_encoding, Encoding::Rle);
            assert_eq!(rep_level_encoding, Encoding::BitPacked);
        }
        _ => panic!("not a data page"),
    }
    let dict = PageHeader {
        type_: PageType::DictionaryPage,
        dictionary_page_header: Some(DictionaryPageHeader { num_values: 2, encoding: Encoding::Plain, is_sorted: None }),
        data_page_header: None,
        ..data_header(0)
    };
    assert!(matches!(
        decode_page::<Doubling>(dict, vec![], None).unwrap(),
        Page::DictionaryPage { num_values: 2, is_sorted: false, .. }
    ));
    let missing = PageHeader { data_page_header: None, ..data_header(1) };
    assert!(decode_page::<Doubling>(missing, vec![], None).is_err());
    let index = PageHeader { type_: PageType::IndexPage, data_page_header: None, ..data_header(0) };
    assert_eq!(decode_page::<Doubling>(index, vec![], None).unwrap_err().message(), "page type not supported");
}

fn v2_header(is_compressed: Option<bool>, uncompressed: i32) -> PageHeader {
    PageHeader {
        type_: PageType::DataPageV2,
        uncompressed_page_size: uncompressed,
        compressed_page_size: 4,
        data_page_header: None,
        dictionary_page_header: None,
        data_page_header_v2: Some(DataPageHeaderV2 {
            num_values: 4,
            num_nulls: 1,
            num_rows: 4,
            encoding: Encoding::Plain,
            definition_levels_byte_length: 1,
            repetition_levels_byte_length: 1,
            is_compressed,
        }),
    }
}

#[test]
fn decompress_values_but_not_levels() {
    let mut codec = Doubling;
    match decode_page(v2_header(None, 6), vec![7, 8, 1, 2], Some(&mut codec)).unwrap() {
        Page::DataPageV2 { buf, num_nulls, def_levels_byte_len, is_compressed, .. } => {
            assert_eq!(buf, vec![7, 8, 1, 1, 2, 2]);
            assert_eq!(num_nulls, 1);
            assert_eq!(def_levels_byte_len, 1);
            assert!(is_compressed);
        }
        _ => panic!("not a V2 data page"),
    }
    match decode_page(v2_header(Some(false), 4), vec![7, 8, 1, 2], Some(&mut codec)).unwrap() {
        Page::DataPageV2 { buf, is_compressed, .. } => {
            assert_eq!(buf, vec![7, 8, 1, 2]);
            assert!(!is_compressed);
        }
        _ => panic!("not a V2 data page"),
    }
    let mut v1 = data_header(2);
    v1.uncompressed_page_size = 4;
    match decode_page(v1, vec![5, 6], Some(&mut codec)).unwrap() {
        Page::DataPage { buf, .. } => assert_eq!(buf, vec![5, 5, 6, 6]),
        _ => panic!("not a data page"),
    }
}

#[test]
fn decompressed_size_must_match() {
    let mut codec = Doubling;
    let err = decode_page(v2_header(None, 9), vec![7, 8, 1, 2], Some(&mut codec)).unwrap_err();
    assert_eq!(err.message(), "Actual decompressed size doesn't match the expected one (6 vs 9)");
    let err = decode_page(v2_header(None, -1), vec![7, 8, 1, 2], Some(&mut codec)).unwrap_err();
    assert_eq!(err.message(), "Actual decompressed size doesn't match the expected one (6 vs -1)");
    let err = decode_page(v2_header(None, 6), vec![7], Some(&mut codec)).unwrap_err();
    assert_eq!(err.message(), "page body shorter than its level segments");
}

#[test]
fn page_reader_counts_values() {
    let mut reader =
        SerializedPageReader::<(), Doubling>::new((), 10, Compression::Uncompressed, PhysicalType::Int32, None).unwrap();
    assert!(reader.has_more());
    let index = PageHeader { type_: PageType::IndexPage, data_page_header: None, ..data_header(0) };
    assert!(reader.next_page(index, vec![]).unwrap().is_none());
    assert!(reader.next_page(data_header(6), vec![]).unwrap().is_some());
    assert!(reader.has_more());
    assert!(reader.next_page(data_header(4), vec![]).unwrap().is_some());
    assert!(!reader.has_more());
    let err = SerializedPageReader::<(), Doubling>::new((), 1, Compression::Gzip, PhysicalType::Int32, None)
        .err()
        .unwrap();
    assert_eq!(err.message(), "compression codec not supported");
}

#[test]
fn page_reader_decompresses_with_codec() {
    let mut reader =
        SerializedPageReader::new((), 2, Compression::Snappy, PhysicalType::Int32, Some(Doubling)).unwrap();
    let mut h = data_header(2);
    h.uncompressed_page_size = 4;
    match reader.next_page(h, vec![3, 4]).unwrap().unwrap() {
        Page::DataPage { buf, .. } => assert_eq!(buf, vec![3, 3, 4, 4]),
        _ => panic!("not a data page"),
    }
    assert!(!reader.has_more());
}

#[test]
fn decompressed_size_step() {
    assert_eq!(check_decompressed_size(vec![1, 2, 3], 3).unwrap(), vec![1, 2, 3]);
    assert_eq!(
        check_decompressed_size(vec![1, 2, 3], 4).unwrap_err().message(),
        "Actual decompressed size doesn't match the expected one (3 vs 4)"
    );
    assert!(check_decompressed_size(vec![], -2).is_err());
    assert!(matches!(page_from_header(data_header(3), vec![9]).unwrap(), Page::DataPage { num_values: 3, .. }));
    let missing = PageHeader { data_page_header: None, ..data_header(1) };
    assert_eq!(
        page_from_header(missing, vec![]).unwrap_err().message(),
        "page header lacks the header of its page type"
    );
}
