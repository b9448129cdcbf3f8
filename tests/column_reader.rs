use columnar::column::{
    get_column_reader, get_typed_column_reader, ColumnDescriptor, ColumnLevelDecoder, ColumnValueDecoder,
    Encoding, GenericColumnReader, Page, PageReader, PhysicalType,
};
use columnar::error::ParquetError;
use columnar::plain::PlainInt32Decoder;
use columnar::column::{admit_page, PageSetup};

const NUM_LEVELS: usize = 128;
const NUM_PAGES: usize = 2;
const MAX_DEF_LEVEL: i16 = 5;
const MAX_REP_LEVEL: i16 = 5;

/// Levels in test pages: two little-endian bytes each.
struct TestLevels {
    levels: Vec<i16>,
    pos: usize,
}

impl ColumnLevelDecoder for TestLevels {
    fn new(_max_level: i16, _encoding: Encoding, data: Vec<u8>) -> Self {
        let levels = data.chunks(2).map(|c| i16::from_le_bytes([c[0], c[1]])).collect();
        TestLevels { levels, pos: 0 }
    }

    fn read(&mut self, out: &mut Vec<i16>, start: usize, len: usize) -> Result<usize, ParquetError> {
        let n = len.min(self.levels.len() - self.pos);
        out[start..start + n].copy_from_slice(&self.levels[self.pos..self.pos + n]);
        self.pos += n;
        Ok(n)
    }
}

/// Values in test pages: plain little-endian `i32`s, or `u32` positions into the
/// dictionary page's plain values.
struct TestValues {
    dict: Vec<i32>,
    values: Vec<i32>,
    pos: usize,
}

fn le_i32s(b: &[u8]) -> Vec<i32> {
    b.chunks(4).map(|c| i32::from_le_bytes([c[0], c[1], c[2], c[3]])).collect()
}

impl ColumnValueDecoder for TestValues {
    type Item = i32;

    fn new(_descr: &ColumnDescriptor) -> Self {
        TestValues { dict: vec![], values: vec![], pos: 0 }
    }

    fn set_dict(&mut self, buf: Vec<u8>, _num_values: u32, _encoding: Encoding, _is_sorted: bool) -> Result<(), ParquetError> {
        self.dict = le_i32s(&buf);
        Ok(())
    }

    fn set_data(
        &mut self,
        encoding: Encoding,
        data: Vec<u8>,
        _num_levels: usize,
        _num_values: Option<usize>,
    ) -> Result<(), ParquetError> {
        let raw = le_i32s(&data);
        self.values = match encoding {
            Encoding::RleDictionary => raw.into_iter().map(|k| self.dict[k as usize]).collect(),
            _ => raw,
        };
        self.pos = 0;
        Ok(())
    }

    fn read(&mut self, out: &mut Vec<i32>, start: usize, len: usize) -> Result<usize, ParquetError> {
        let n = len.min(self.values.len() - self.pos);
        out[start..start + n].copy_from_slice(&self.values[self.pos..self.pos + n]);
        self.pos += n;
        Ok(n)
    }
}

struct TestPageReader {
    pages: std::vec::IntoIter<Page>,
}

impl PageReader for TestPageReader {
    fn get_next_page(&mut self) -> Result<Option<Page>, ParquetError> {
        Ok(self.pages.next())
    }
}

/// A small deterministic generator.
struct Lcg(u64);

impl Lcg {
    fn next(&mut self) -> u64 {
        self.0 = self.0.wrapping_mul(6364136223846793005).wrapping_add(1442695040888963407);
        self.0 >> 33
    }

    fn below(&mut self, n: u64) -> u64 {
        self.next() % n
    }
}

fn level_bytes(levels: &[i16]) -> Vec<u8> {
    levels.iter().flat_map(|l| l.to_le_bytes()).collect()
}

fn rle_frame(levels: &[i16]) -> Vec<u8> {
    let body = level_bytes(levels);
    let mut out = (body.len() as i32).to_le_bytes().to_vec();
    out.extend(body);
    out
}

struct Column {
    pages: Vec<Page>,
    def_levels: Vec<i16>,
    rep_levels: Vec<i16>,
    values: Vec<i32>,
}

/// Pages of `num_levels` levels each, after a dictionary page when `dictionary`;
/// V2 data pages when `v2`.
fn make_pages(desc: &ColumnDescriptor, num_pages: usize, num_levels: usize, dictionary: bool, v2: bool, seed: u64) -> Column {
    let mut rng = Lcg(seed);
    let dict: Vec<i32> = vec![-7, 0, 11, 2147483647];
    let mut col = Column { pages: vec![], def_levels: vec![], rep_levels: vec![], values: vec![] };
    if dictionary {
        col.pages.push(Page::DictionaryPage {
            buf: dict.iter().flat_map(|v| v.to_le_bytes()).collect(),
            num_values: dict.len() as u32,
            encoding: Encoding::Plain,
            is_sorted: false,
        });
    }
    for _ in 0..num_pages {
        let mut defs = vec![];
        let mut reps = vec![];
        let mut page_values = vec![];
        let mut encoded_values = vec![];
        for i in 0..num_levels {
            let def = if desc.max_def_level > 0 { rng.below(desc.max_def_level as u64 + 1) as i16 } else { 0 };
            let rep = if desc.max_rep_level > 0 && i > 0 { rng.below(desc.max_rep_level as u64 + 1) as i16 } else { 0 };
            defs.push(def);
            reps.push(rep);
            if def == desc.max_def_level {
                if dictionary {
                    let k = rng.below(dict.len() as u64) as u32;
                    page_values.push(dict[k as usize]);
                    encoded_values.extend(k.to_le_bytes());
                } else {
                    let v = rng.next() as i32;
                    page_values.push(v);
                    encoded_values.extend(v.to_le_bytes());
                }
            }
        }
        let encoding = if dictionary { Encoding::RleDictionary } else { Encoding::Plain };
        let num_nulls = (num_levels - page_values.len()) as u32;
        let page = if v2 {
            let mut buf = vec![];
            let rep_bytes = if desc.max_rep_level > 0 { level_bytes(&reps) } else { vec![] };
            let def_bytes = if desc.max_def_level > 0 { level_bytes(&defs) } else { vec![] };
            buf.extend(&rep_bytes);
            buf.extend(&def_bytes);
            buf.extend(&encoded_values);
            Page::DataPageV2 {
                buf,
                num_values: num_levels as u32,
                encoding,
                num_nulls,
                num_rows: num_levels as u32,
                def_levels_byte_len: def_bytes.len() as u32,
                rep_levels_byte_len: rep_bytes.len() as u32,
                is_compressed: false,
            }
        } else {
            let mut buf = vec![];
            if desc.max_rep_level > 0 {
                buf.extend(rle_frame(&reps));
            }
            if desc.max_def_level > 0 {
                buf.extend(rle_frame(&defs));
            }
            buf.extend(&encoded_values);
            Page::DataPage {
                buf,
                num_values: num_levels as u32,
                encoding,
                def_level_encoding: Encoding::Rle,
                rep_level_encoding: Encoding::Rle,
            }
        };
        col.pages.push(page);
        col.def_levels.extend(defs);
        col.rep_levels.extend(reps);
        col.values.extend(page_values);
    }
    col
}

type Reader = GenericColumnReader<TestLevels, TestLevels, TestValues, TestPageReader>;

fn reader_for(desc: ColumnDescriptor, pages: Vec<Page>) -> Reader {
    let column_reader = get_column_reader::<TestLevels, TestLevels, TestValues, TestPageReader>(
        desc,
        TestPageReader { pages: pages.into_iter() },
    );
    get_typed_column_reader(column_reader)
}

/// Reads with `read_batch` until nothing comes back, into windows of the buffers
/// that start after what was read, and checks the result against the pages.
fn test_read_batch(
    desc: ColumnDescriptor,
    num_pages: usize,
    num_levels: usize,
    batch_size: usize,
    values: &mut Vec<i32>,
    mut def_levels: Option<&mut Vec<i16>>,
    mut rep_levels: Option<&mut Vec<i16>>,
    v2: bool,
) -> (usize, usize) {
    let col = make_pages(&desc, num_pages, num_levels, true, v2, 42);
    let mut reader = reader_for(desc, col.pages);
    let mut curr_values_read = 0;
    let mut curr_levels_read = 0;
    loop {
        let mut vwin = values[curr_values_read..].to_vec();
        let mut dwin = def_levels.as_ref().map(|d| d[curr_levels_read..].to_vec());
        let mut rwin = rep_levels.as_ref().map(|r| r[curr_levels_read..].to_vec());
        let (values_read, levels_read) = reader
            .read_batch(batch_size, dwin.as_mut(), rwin.as_mut(), &mut vwin)
            .expect("read_batch() should be OK");
        values[curr_values_read..].copy_from_slice(&vwin);
        if let (Some(d), Some(w)) = (def_levels.as_mut(), dwin) {
            d[curr_levels_read..].copy_from_slice(&w);
        }
        if let (Some(r), Some(w)) = (rep_levels.as_mut(), rwin) {
            r[curr_levels_read..].copy_from_slice(&w);
        }
        if values_read == 0 && levels_read == 0 {
            break;
        }
        curr_values_read += values_read;
        curr_levels_read += levels_read;
    }
    assert!(values.len() >= curr_values_read);
    assert_eq!(&values[0..curr_values_read], &col.values[0..curr_values_read]);
    if let Some(levels) = def_levels.as_ref() {
        assert!(levels.len() >= curr_levels_read);
        assert_eq!(&levels[0..curr_levels_read], &col.def_levels[0..curr_levels_read]);
    }
    if let Some(levels) = rep_levels.as_ref() {
        assert!(levels.len() >= curr_levels_read);
        assert_eq!(&levels[0..curr_levels_read], &col.rep_levels[0..curr_levels_read]);
    }
    if def_levels.is_none() && rep_levels.is_none() {
        assert!(curr_levels_read == 0, "expected to read 0 levels, found {}", curr_levels_read);
    } else if def_levels.is_some() && desc.max_def_level > 0 {
        assert!(curr_levels_read >= curr_values_read);
    }
    (curr_values_read, curr_levels_read)
}

fn test_read_batch_int32(batch_size: usize, values: &mut Vec<i32>, def_levels: Option<&mut Vec<i16>>, rep_levels: Option<&mut Vec<i16>>) {
    let max_def_level = if def_levels.is_some() { MAX_DEF_LEVEL } else { 0 };
    let max_rep_level = if def_levels.is_some() { MAX_REP_LEVEL } else { 0 };
    let desc = ColumnDescriptor { physical_type: PhysicalType::Int32, max_def_level, max_rep_level };
    test_read_batch(desc, NUM_PAGES, NUM_LEVELS, batch_size, values, def_levels, rep_levels, false);
}

#[test]
fn test_read_batch_values_only() {
    test_read_batch_int32(16, &mut vec![0; 10], None, None);
    test_read_batch_int32(16, &mut vec![0; 16], None, None);
    test_read_batch_int32(16, &mut vec![0; 51], None, None);
}

#[test]
fn test_read_batch_values_def_levels() {
    test_read_batch_int32(16, &mut vec![0; 10], Some(&mut vec![0; 10]), None);
    test_read_batch_int32(16, &mut vec![0; 16], Some(&mut vec![0; 16]), None);
    test_read_batch_int32(16, &mut vec![0; 51], Some(&mut vec![0; 51]), None);
}

#[test]
fn test_read_batch_values_rep_levels() {
    test_read_batch_int32(16, &mut vec![0; 10], None, Some(&mut vec![0; 10]));
    test_read_batch_int32(16, &mut vec![0; 16], None, Some(&mut vec![0; 16]));
    test_read_batch_int32(16, &mut vec![0; 51], None, Some(&mut vec![0; 51]));
}

#[test]
fn test_read_batch_different_buf_sizes() {
    test_read_batch_int32(16, &mut vec![0; 8], Some(&mut vec![0; 9]), Some(&mut vec![0; 7]));
    test_read_batch_int32(16, &mut vec![0; 1], Some(&mut vec![0; 9]), Some(&mut vec![0; 3]));
}

#[test]
fn test_read_batch_values_def_rep_levels() {
    test_read_batch_int32(128, &mut vec![0; 128], Some(&mut vec![0; 128]), Some(&mut vec![0; 128]));
}

#[test]
fn test_read_batch_adjust_after_buffering_page() {
    let desc = ColumnDescriptor { physical_type: PhysicalType::Int32, max_def_level: 1, max_rep_level: 1 };
    let values = &mut vec![0; 7];
    let def_levels = &mut vec![0; 7];
    let rep_levels = &mut vec![0; 7];
    test_read_batch(desc, 2, 4, 5, values, Some(def_levels), Some(rep_levels), false);
}

#[test]
fn read_whole_column_v1_and_v2() {
    for v2 in [false, true] {
        for (def, rep) in [(MAX_DEF_LEVEL, MAX_REP_LEVEL), (1, 1), (0, 0)] {
            let desc = ColumnDescriptor { physical_type: PhysicalType::Int32, max_def_level: def, max_rep_level: rep };
            let n = NUM_PAGES * NUM_LEVELS;
            for batch in [16, 17, 512] {
                test_read_batch(desc, NUM_PAGES, NUM_LEVELS, batch, &mut vec![0; n], Some(&mut vec![0; n]), Some(&mut vec![0; n]), v2);
            }
        }
    }
}

#[test]
fn two_pages_in_batches_of_17() {
    let desc = ColumnDescriptor { physical_type: PhysicalType::Int64, max_def_level: 1, max_rep_level: 1 };
    let n = 2 * 128;
    let mut defs = vec![0i16; n];
    let (values_read, levels_read) =
        test_read_batch(desc, 2, 128, 17, &mut vec![0; n], Some(&mut defs), Some(&mut vec![0; n]), false);
    assert_eq!(levels_read, 256);
    assert_eq!(values_read, defs.iter().filter(|d| **d == 1).count());
}

#[test]
fn more_nulls_than_values_is_an_error() {
    let desc = ColumnDescriptor { physical_type: PhysicalType::Int32, max_def_level: 1, max_rep_level: 0 };
    let page = Page::DataPageV2 {
        buf: vec![],
        num_values: 2,
        encoding: Encoding::Plain,
        num_nulls: 3,
        num_rows: 2,
        def_levels_byte_len: 0,
        rep_levels_byte_len: 0,
        is_compressed: false,
    };
    let mut reader = reader_for(desc, vec![page]);
    let err = reader.read_batch(4, Some(&mut vec![0; 4]), None, &mut vec![0; 4]).unwrap_err();
    assert_eq!(err.message(), "more nulls than values in page, contained 2 values and 3 nulls");
}

#[test]
fn invalid_level_encoding_is_an_error() {
    let desc = ColumnDescriptor { physical_type: PhysicalType::Int32, max_def_level: 1, max_rep_level: 0 };
    let page = Page::DataPage {
        buf: vec![0; 8],
        num_values: 2,
        encoding: Encoding::Plain,
        def_level_encoding: Encoding::DeltaBinaryPacked,
        rep_level_encoding: Encoding::Rle,
    };
    let mut reader = reader_for(desc, vec![page]);
    let err = reader.read_batch(4, Some(&mut vec![0; 4]), None, &mut vec![0; 4]).unwrap_err();
    assert_eq!(err.message(), "invalid level encoding: DELTA_BINARY_PACKED");
}

#[test]
fn missing_values_are_an_error() {
    // Two defined levels, but only one value in the page.
    let desc = ColumnDescriptor { physical_type: PhysicalType::Int32, max_def_level: 1, max_rep_level: 0 };
    let mut buf = rle_frame(&[1, 1]);
    buf.extend(5i32.to_le_bytes());
    let page = Page::DataPage {
        buf,
        num_values: 2,
        encoding: Encoding::Plain,
        def_level_encoding: Encoding::Rle,
        rep_level_encoding: Encoding::Rle,
    };
    let mut reader = reader_for(desc, vec![page]);
    let err = reader.read_batch(4, Some(&mut vec![0; 4]), None, &mut vec![0; 4]).unwrap_err();
    assert_eq!(err.message(), "insufficient values read from column - expected: 2, got: 1");
}

#[test]
fn inconsistent_levels_are_an_error() {
    // Two definition levels against one repetition level.
    let desc = ColumnDescriptor { physical_type: PhysicalType::Int32, max_def_level: 1, max_rep_level: 1 };
    let mut buf = rle_frame(&[0]);
    buf.extend(rle_frame(&[1, 1]));
    buf.extend(5i32.to_le_bytes());
    buf.extend(6i32.to_le_bytes());
    let page = Page::DataPage {
        buf,
        num_values: 2,
        encoding: Encoding::Plain,
        def_level_encoding: Encoding::Rle,
        rep_level_encoding: Encoding::Rle,
    };
    let mut reader = reader_for(desc, vec![page]);
    let err = reader.read_batch(4, Some(&mut vec![0; 4]), Some(&mut vec![0; 4]), &mut vec![0; 4]).unwrap_err();
    assert_eq!(err.message(), "inconsistent number of levels read - def: 2, rep: 1");
}

#[test]
fn bit_packed_level_frame() {
    // 10 levels of width 3 take 4 bytes.
    let (n, data) = columnar::column::parse_v1_level(5, 10, Encoding::BitPacked, &vec![1, 2, 3, 4, 5, 6]).unwrap();
    assert_eq!(n, 4);
    assert_eq!(data, vec![1, 2, 3, 4]);
    let (n, data) = columnar::column::parse_v1_level(1, 3, Encoding::Rle, &vec![2, 0, 0, 0, 9, 8, 7]).unwrap();
    assert_eq!(n, 6);
    assert_eq!(data, vec![9, 8]);
    assert!(columnar::column::parse_v1_level(1, 3, Encoding::Rle, &vec![9, 0, 0, 0, 1]).is_err());
    assert_eq!(columnar::column::num_required_bits(0), 0);
    assert_eq!(columnar::column::num_required_bits(5), 3);
    assert_eq!(columnar::column::num_required_bits(u64::MAX), 64);
}

#[test]
fn read_required_column_with_plain_decoder() {
    let desc = ColumnDescriptor { physical_type: PhysicalType::Int32, max_def_level: 0, max_rep_level: 0 };
    let page = |vals: &[i32]| Page::DataPage {
        buf: vals.iter().flat_map(|v| v.to_le_bytes()).collect(),
        num_values: vals.len() as u32,
        encoding: Encoding::Plain,
        def_level_encoding: Encoding::Rle,
        rep_level_encoding: Encoding::Rle,
    };
    let pages = vec![page(&[1, -2, i32::MAX]), page(&[]), page(&[i32::MIN, 7])];
    let mut reader = GenericColumnReader::<TestLevels, TestLevels, PlainInt32Decoder, TestPageReader>::new(
        desc,
        TestPageReader { pages: pages.into_iter() },
    );
    let mut values = vec![0; 4];
    let (v, l) = reader.read_batch(10, None, None, &mut values).unwrap();
    assert_eq!((v, l), (3, 0));
    assert_eq!(&values[0..3], &[1, -2, i32::MAX]);
    let (v, _) = reader.read_batch(10, None, None, &mut values).unwrap();
    assert_eq!(v, 2);
    assert_eq!(&values[0..2], &[i32::MIN, 7]);
    assert_eq!(reader.read_batch(10, None, None, &mut values).unwrap(), (0, 0));
}

#[test]
fn batch_with_empty_buffer_reads_nothing() {
    let desc = ColumnDescriptor { physical_type: PhysicalType::Int32, max_def_level: 1, max_rep_level: 1 };
    let col = make_pages(&desc, 1, 8, false, false, 3);
    let mut reader = reader_for(desc, col.pages);
    assert_eq!(reader.read_batch(8, Some(&mut vec![0; 0]), None, &mut vec![0; 8]).unwrap(), (0, 0));
    assert_eq!(reader.read_batch(0, None, None, &mut vec![0; 8]).unwrap(), (0, 0));
}

#[test]
fn level_buffers_of_a_flat_column_are_left_alone() {
    let desc = ColumnDescriptor { physical_type: PhysicalType::Int32, max_def_level: 0, max_rep_level: 0 };
    let col = make_pages(&desc, 1, 8, false, false, 5);
    let mut reader = reader_for(desc, col.pages);
    let mut defs = vec![9i16; 8];
    let mut reps = vec![9i16; 8];
    let mut values = vec![0; 8];
    let (v, l) = reader.read_batch(8, Some(&mut defs), Some(&mut reps), &mut values).unwrap();
    assert_eq!((v, l), (8, 0));
    assert_eq!(defs, vec![9; 8]);
    assert_eq!(reps, vec![9; 8]);
    assert_eq!(values, col.values);
}

#[test]
fn admit_pages() {
    let desc = ColumnDescriptor { physical_type: PhysicalType::Int32, max_def_level: 1, max_rep_level: 1 };
    let v2 = Page::DataPageV2 {
        buf: vec![1, 2, 3, 4, 5, 6],
        num_values: 5,
        encoding: Encoding::Plain,
        num_nulls: 2,
        num_rows: 5,
        def_levels_byte_len: 2,
        rep_levels_byte_len: 1,
        is_compressed: false,
    };
    match admit_page(desc, v2).unwrap() {
        PageSetup::Data { num_values, rep_levels, def_levels, values, non_null, rep_encoding, .. } => {
            assert_eq!(num_values, 5);
            assert_eq!(rep_levels, Some(vec![1]));
            assert_eq!(def_levels, Some(vec![2, 3]));
            assert_eq!(values, vec![4, 5, 6]);
            assert_eq!(non_null, Some(3));
            assert_eq!(rep_encoding, Encoding::Rle);
        }
        _ => panic!("not a data page"),
    }
    let mut buf = rle_frame(&[0, 1]);
    buf.extend(rle_frame(&[1, 1]));
    buf.extend([7, 7]);
    let v1 = Page::DataPage {
        buf,
        num_values: 2,
        encoding: Encoding::Plain,
        def_level_encoding: Encoding::Rle,
        rep_level_encoding: Encoding::Rle,
    };
    match admit_page(desc, v1).unwrap() {
        PageSetup::Data { rep_levels, def_levels, values, non_null, .. } => {
            assert_eq!(rep_levels, Some(level_bytes(&[0, 1])));
            assert_eq!(def_levels, Some(level_bytes(&[1, 1])));
            assert_eq!(values, vec![7, 7]);
            assert_eq!(non_null, None);
        }
        _ => panic!("not a data page"),
    }
    let short = Page::DataPageV2 {
        buf: vec![1],
        num_values: 1,
        encoding: Encoding::Plain,
        num_nulls: 0,
        num_rows: 1,
        def_levels_byte_len: 1,
        rep_levels_byte_len: 1,
        is_compressed: false,
    };
    assert!(admit_page(desc, short).is_err());
}

#[test]
fn one_empty_level_read_is_not_inconsistent() {
    // The repetition levels run out while definition levels remain: no error.
    let desc = ColumnDescriptor { physical_type: PhysicalType::Int32, max_def_level: 1, max_rep_level: 1 };
    let mut buf = rle_frame(&[]);
    buf.extend(rle_frame(&[1, 1]));
    buf.extend(5i32.to_le_bytes());
    buf.extend(6i32.to_le_bytes());
    let page = Page::DataPage {
        buf,
        num_values: 2,
        encoding: Encoding::Plain,
        def_level_encoding: Encoding::Rle,
        rep_level_encoding: Encoding::Rle,
    };
    let mut reader = reader_for(desc, vec![page]);
    let mut values = vec![0; 4];
    let (v, l) = reader.read_batch(4, Some(&mut vec![0; 4]), Some(&mut vec![0; 4]), &mut values).unwrap();
    assert_eq!((v, l), (2, 2));
    assert_eq!(&values[0..2], &[5, 6]);
}

#[test]
fn values_without_definition_levels_are_an_error() {
    // The definition levels run out while the page still holds values.
    let desc = ColumnDescriptor { physical_type: PhysicalType::Int32, max_def_level: 1, max_rep_level: 0 };
    let mut buf = rle_frame(&[]);
    buf.extend(5i32.to_le_bytes());
    let page = Page::DataPage {
        buf,
        num_values: 1,
        encoding: Encoding::Plain,
        def_level_encoding: Encoding::Rle,
        rep_level_encoding: Encoding::Rle,
    };
    let mut reader = reader_for(desc, vec![page]);
    let err = reader.read_batch(4, Some(&mut vec![0; 4]), None, &mut vec![0; 4]).unwrap_err();
    assert_eq!(err.message(), "insufficient values read from column - expected: 0, got: 1");
}
