//! File-level reading: row-group filtering by read options, and turning page headers
//! and page bytes of a column chunk into pages.
use vstd::prelude::*;
use crate::column::{Encoding, Page, PhysicalType};
use crate::error::{decimal, decimal_string, ParquetError};
use vstd::string::StringExecFns;

verus! {

/// Where a column chunk's pages lie in the file.
#[derive(Clone, Copy, Debug)]
pub struct ColumnChunkMetaData {
    pub data_page_offset: i64,
    pub dictionary_page_offset: Option<i64>,
    pub compressed_size: i64,
    pub num_values: i64,
}

/// Metadata of a row group: its column chunks and its compressed size.
pub struct RowGroupMetaData {
    pub columns: Vec<ColumnChunkMetaData>,
    pub num_rows: i64,
    pub compressed_size: i64,
}

/// Metadata of a file: its row groups.
pub struct ParquetMetaData {
    pub row_groups: Vec<RowGroupMetaData>,
}

/// Where the first page of column 0 starts: the dictionary page if it comes first.
pub open spec fn first_page_offset(col: ColumnChunkMetaData) -> int {
    match col.dictionary_page_offset {
        Some(d) => if col.data_page_offset > d {
            d as int
        } else {
            col.data_page_offset as int
        },
        None => col.data_page_offset as int,
    }
}

/// Half of `x`, rounded toward zero.
pub open spec fn half(x: int) -> int {
    if x >= 0 {
        x / 2
    } else {
        -((-x) / 2)
    }
}

/// The midpoint of a row group: its first page offset plus half its compressed size.
pub open spec fn midpoint(meta: RowGroupMetaData) -> int {
    first_page_offset(meta.columns@[0]) + half(meta.compressed_size as int)
}

/// The midpoint, or `None` where the row group has no column or the sum leaves `i64`.
fn midpoint_of(meta: &RowGroupMetaData) -> (r: Option<i64>)
    ensures
        r is Some <==> midpoint_fits(*meta),
        r matches Some(m) ==> m == midpoint(*meta),
{
    if meta.columns.len() == 0 {
        return None;
    }
    let col = meta.columns[0];
    let offset: i128 = match col.dictionary_page_offset {
        Some(d) => if col.data_page_offset > d {
            d as i128
        } else {
            col.data_page_offset as i128
        },
        None => col.data_page_offset as i128,
    };
    let cs = meta.compressed_size as i128;
    let h: i128 = if cs >= 0 {
        cs / 2
    } else {
        -((-cs) / 2)
    };
    let mid = offset + h;
    if mid < i64::MIN as i128 || mid > i64::MAX as i128 {
        None
    } else {
        Some(mid as i64)
    }
}

/// The midpoint can be computed: there is a column, and the sum fits in `i64`.
pub open spec fn midpoint_fits(meta: RowGroupMetaData) -> bool {
    meta.columns@.len() > 0 && i64::MIN <= midpoint(meta) <= i64::MAX
}

/// The midpoint offset of a row group.
pub fn get_midpoint_offset(meta: &RowGroupMetaData) -> (r: i64)
    requires
        midpoint_fits(*meta),
    ensures
        r == midpoint(*meta),
{
    midpoint_of(meta).unwrap()
}

/// A condition on a row group, given with its position in the file.
pub enum RowGroupPredicate {
    /// Keeps every row group (`true`) or none.
    Constant(bool),
    /// Keeps row group `i` iff `keep[i]` (out of range: drops it).
    Mask(Vec<bool>),
    /// Keeps row groups whose midpoint lies in `[start, end)`.
    Range { start: i64, end: i64 },
}

/// Whether `p` keeps row group `rg` at position `i`.
pub open spec fn keeps(p: RowGroupPredicate, rg: RowGroupMetaData, i: int) -> bool {
    match p {
        RowGroupPredicate::Constant(b) => b,
        RowGroupPredicate::Mask(keep) => 0 <= i < keep@.len() && keep@[i],
        RowGroupPredicate::Range { start, end } => midpoint_fits(rg) && start <= midpoint(rg) < end,
    }
}

/// Whether every predicate keeps row group `rg` at position `i`.
pub open spec fn keeps_all(ps: Seq<RowGroupPredicate>, rg: RowGroupMetaData, i: int) -> bool {
    forall|k: int| 0 <= k < ps.len() ==> keeps(#[trigger] ps[k], rg, i)
}

/// The row groups among the first `n` that every predicate keeps, in order.
pub open spec fn kept_groups(ps: Seq<RowGroupPredicate>, rgs: Seq<RowGroupMetaData>, n: int) -> Seq<
    RowGroupMetaData,
>
    decreases n,
{
    if n <= 0 {
        Seq::empty()
    } else if keeps_all(ps, rgs[n - 1], n - 1) {
        kept_groups(ps, rgs, n - 1).push(rgs[n - 1])
    } else {
        kept_groups(ps, rgs, n - 1)
    }
}

/// Evaluates one predicate on row group `rg` at position `i`.
pub fn evaluate(p: &RowGroupPredicate, rg: &RowGroupMetaData, i: usize) -> (r: bool)
    ensures
        r == keeps(*p, *rg, i as int),
{
    match p {
        RowGroupPredicate::Constant(b) => *b,
        RowGroupPredicate::Mask(keep) => i < keep.len() && keep[i],
        RowGroupPredicate::Range { start, end } => match midpoint_of(rg) {
            Some(mid) => *start <= mid && mid < *end,
            None => false,
        },
    }
}

/// A builder of read options. All predicates must keep a row group for it to be read.
pub struct ReadOptionsBuilder {
    predicates: Vec<RowGroupPredicate>,
    enable_page_index: bool,
}

/// Options for reading a file: row-group predicates, chained with AND.
pub struct ReadOptions {
    predicates: Vec<RowGroupPredicate>,
    enable_page_index: bool,
}

impl ReadOptionsBuilder {
    pub closed spec fn predicates_spec(&self) -> Seq<RowGroupPredicate> {
        self.predicates@
    }

    pub closed spec fn page_index_spec(&self) -> bool {
        self.enable_page_index
    }

    /// A builder with no predicate and the page index off.
    pub fn new() -> (r: Self)
        ensures
            r.predicates_spec().len() == 0,
            !r.page_index_spec(),
    {
        ReadOptionsBuilder { predicates: Vec::new(), enable_page_index: false }
    }

    /// Adds a predicate on row groups.
    pub fn with_predicate(self, predicate: RowGroupPredicate) -> (r: Self)
        ensures
            r.predicates_spec() == self.predicates_spec().push(predicate),
            r.page_index_spec() == self.page_index_spec(),
    {
        let mut s = self;
        s.predicates.push(predicate);
        s
    }

    /// Keeps only row groups whose midpoints lie in `[start, end)`.
    pub fn with_range(self, start: i64, end: i64) -> (r: Self)
        requires
            start < end,
        ensures
            r.predicates_spec() == self.predicates_spec().push(RowGroupPredicate::Range { start, end }),
            r.page_index_spec() == self.page_index_spec(),
    {
        let mut s = self;
        s.predicates.push(RowGroupPredicate::Range { start, end });
        s
    }

    /// Turns the page index on.
    pub fn with_page_index(self) -> (r: Self)
        ensures
            r.predicates_spec() == self.predicates_spec(),
            r.page_index_spec(),
    {
        let mut s = self;
        s.enable_page_index = true;
        s
    }

    /// The options built so far.
    pub fn build(self) -> (r: ReadOptions)
        ensures
            r.predicates_spec() == self.predicates_spec(),
            r.page_index_spec() == self.page_index_spec(),
    {
        ReadOptions { predicates: self.predicates, enable_page_index: self.enable_page_index }
    }
}

impl ReadOptions {
    pub closed spec fn predicates_spec(&self) -> Seq<RowGroupPredicate> {
        self.predicates@
    }

    pub closed spec fn page_index_spec(&self) -> bool {
        self.enable_page_index
    }

    /// Whether the page index is to be read.
    pub fn page_index(&self) -> (r: bool)
        ensures
            r == self.page_index_spec(),
    {
        self.enable_page_index
    }
}

/// A file reader over the chunk source `R`, with the file's metadata.
pub struct SerializedFileReader<R> {
    chunk_reader: R,
    metadata: ParquetMetaData,
}

impl<R> SerializedFileReader<R> {
    pub closed spec fn row_groups_spec(&self) -> Seq<RowGroupMetaData> {
        self.metadata.row_groups@
    }

    /// A reader of every row group of the file.
    pub fn new(chunk_reader: R, metadata: ParquetMetaData) -> (r: Self)
        ensures
            r.row_groups_spec() == metadata.row_groups@,
    {
        SerializedFileReader { chunk_reader, metadata }
    }

    /// A reader of the row groups that every predicate of `options` keeps, in file order.
    pub fn new_with_options(chunk_reader: R, metadata: ParquetMetaData, options: ReadOptions) -> (r:
        Self)
        ensures
            r.row_groups_spec() == kept_groups(
                options.predicates_spec(),
                metadata.row_groups@,
                metadata.row_groups@.len() as int,
            ),
    {
        let ghost ps = options.predicates@;
        let ghost rgs = metadata.row_groups@;
        let mut source = metadata.row_groups;
        let n = source.len();
        let mut kept: Vec<RowGroupMetaData> = Vec::new();
        let mut i: usize = 0;
        while i < n
            invariant
                i <= n,
                n == rgs.len(),
                source@ == rgs.skip(i as int),
                ps == options.predicates@,
                kept@ == kept_groups(ps, rgs, i as int),
            decreases n - i,
        {
            let rg = source.remove(0);
            assert(rg == rgs[i as int]);
            let mut keep = true;
            let mut k: usize = 0;
            while k < options.predicates.len()
                invariant
                    k <= ps.len(),
                    ps == options.predicates@,
                    keep ==> (forall|q: int| 0 <= q < k ==> keeps(#[trigger] ps[q], rg, i as int)),
                    !keep ==> !keeps_all(ps, rg, i as int),
                decreases ps.len() - k,
            {
                if !evaluate(&options.predicates[k], &rg, i) {
                    keep = false;
                }
                k += 1;
            }
            if keep {
                kept.push(rg);
            }
            i += 1;
            assert(source@ =~= rgs.skip(i as int));
        }
        SerializedFileReader { chunk_reader, metadata: ParquetMetaData { row_groups: kept } }
    }

    /// Number of row groups read.
    pub fn num_row_groups(&self) -> (r: usize)
        ensures
            r == self.row_groups_spec().len(),
    {
        self.metadata.row_groups.len()
    }

    /// The metadata of row group `i`.
    pub fn row_group(&self, i: usize) -> (r: &RowGroupMetaData)
        requires
            i < self.row_groups_spec().len(),
        ensures
            *r == self.row_groups_spec()[i as int],
    {
        &self.metadata.row_groups[i]
    }

    /// A reader of row group `i`.
    pub fn get_row_group(&self, i: usize) -> (r: SerializedRowGroupReader<'_, R>)
        requires
            i < self.row_groups_spec().len(),
        ensures
            *r.metadata_spec() == self.row_groups_spec()[i as int],
    {
        SerializedRowGroupReader::new(&self.chunk_reader, &self.metadata.row_groups[i])
    }
}

/// A reader of one row group.
pub struct SerializedRowGroupReader<'a, R> {
    chunk_reader: &'a R,
    metadata: &'a RowGroupMetaData,
}

impl<'a, R> SerializedRowGroupReader<'a, R> {
    pub closed spec fn metadata_spec(&self) -> &'a RowGroupMetaData {
        self.metadata
    }

    /// A reader of the row group `metadata` in `chunk_reader`.
    pub fn new(chunk_reader: &'a R, metadata: &'a RowGroupMetaData) -> (r: Self)
        ensures
            r.metadata_spec() == metadata,
    {
        SerializedRowGroupReader { chunk_reader, metadata }
    }

    /// Where column chunk `i` lies in the file: its first page offset and its
    /// compressed size.
    pub fn column_chunk_range(&self, i: usize) -> (r: (i64, i64))
        requires
            i < self.metadata_spec().columns@.len(),
        ensures
            r.0 == first_page_offset(self.metadata_spec().columns@[i as int]),
            r.1 == self.metadata_spec().columns@[i as int].compressed_size,
    {
        let col = self.metadata.columns[i];
        let start = match col.dictionary_page_offset {
            Some(d) => if col.data_page_offset > d {
                d
            } else {
                col.data_page_offset
            },
            None => col.data_page_offset,
        };
        (start, col.compressed_size)
    }

    /// The values in column chunk `i`.
    pub fn column_num_values(&self, i: usize) -> (r: i64)
        requires
            i < self.metadata_spec().columns@.len(),
        ensures
            r == self.metadata_spec().columns@[i as int].num_values,
    {
        self.metadata.columns[i].num_values
    }

    /// Number of column chunks.
    pub fn num_columns(&self) -> (r: usize)
        ensures
            r == self.metadata_spec().columns@.len(),
    {
        self.metadata.columns.len()
    }
}

/// The kind of a page, as its header gives it.
#[derive(Clone, Copy, Debug, PartialEq, Eq, Structural)]
pub enum PageType {
    DataPage,
    IndexPage,
    DictionaryPage,
    DataPageV2,
}

/// Compression codec of a column chunk.
#[derive(Clone, Copy, Debug, PartialEq, Eq, Structural)]
pub enum Compression {
    Uncompressed,
    Snappy,
    Gzip,
    Lzo,
    Brotli,
    Lz4,
    Zstd,
}

/// Header fields of a V1 data page.
#[derive(Clone, Copy, Debug)]
pub struct DataPageHeader {
    pub num_values: i32,
    pub encoding: Encoding,
    pub definition_level_encoding: Encoding,
    pub repetition_level_encoding: Encoding,
}

/// Header fields of a dictionary page.
#[derive(Clone, Copy, Debug)]
pub struct DictionaryPageHeader {
    pub num_values: i32,
    pub encoding: Encoding,
    pub is_sorted: Option<bool>,
}

/// Header fields of a V2 data page.
#[derive(Clone, Copy, Debug)]
pub struct DataPageHeaderV2 {
    pub num_values: i32,
    pub num_nulls: i32,
    pub num_rows: i32,
    pub encoding: Encoding,
    pub definition_levels_byte_length: i32,
    pub repetition_levels_byte_length: i32,
    pub is_compressed: Option<bool>,
}

/// The decoded header of a page.
#[derive(Clone, Copy, Debug)]
pub struct PageHeader {
    pub type_: PageType,
    pub uncompressed_page_size: i32,
    pub compressed_page_size: i32,
    pub data_page_header: Option<DataPageHeader>,
    pub dictionary_page_header: Option<DictionaryPageHeader>,
    pub data_page_header_v2: Option<DataPageHeaderV2>,
}

pub open spec fn missing_header_message() -> Seq<char> {
    "page header lacks the header of its page type"@
}

pub open spec fn unsupported_page_message() -> Seq<char> {
    "page type not supported"@
}

pub open spec fn codec_message() -> Seq<char> {
    "compression codec not supported"@
}

fn general(msg: &str) -> (e: ParquetError)
    ensures
        e.message_spec() == msg@,
{
    ParquetError::General(msg.to_string())
}

/// A decompressor of page bodies, for users to implement.
pub trait Codec {
    /// What `decompress` makes of `input`.
    closed spec fn decompressed(&self, input: Seq<u8>) -> Seq<u8> {
        Seq::empty()
    }

    /// Appends the decompressed form of `input` to `output`; returns its length.
    fn decompress(&mut self, input: &[u8], output: &mut Vec<u8>) -> (r: Result<usize, ParquetError>)
        ensures
            r matches Ok(n) ==> final(output)@ == old(output)@ + old(self).decompressed(input@) && n
                == old(self).decompressed(input@).len(),
    ;
}

/// Whether the page body passes through the codec: every page but a V2 page that
/// says it is not compressed.
pub open spec fn needs_codec(header: PageHeader) -> bool {
    match header.data_page_header_v2 {
        Some(h) => h.is_compressed != Some(false),
        None => true,
    }
}

/// The leading bytes that stay uncompressed: the level segments of a V2 page.
pub open spec fn level_prefix(header: PageHeader) -> int {
    match header.data_page_header_v2 {
        Some(h) => h.definition_levels_byte_length + h.repetition_levels_byte_length,
        None => 0,
    }
}

/// The bytes of a page.
pub open spec fn page_buf(p: Page) -> Seq<u8> {
    match p {
        Page::DictionaryPage { buf, .. } => buf@,
        Page::DataPage { buf, .. } => buf@,
        Page::DataPageV2 { buf, .. } => buf@,
    }
}

/// `x` in decimal, with a minus sign when negative.
pub open spec fn signed_decimal(x: int) -> Seq<char> {
    if x < 0 {
        "-"@ + decimal((-x) as nat)
    } else {
        decimal(x as nat)
    }
}

pub open spec fn size_mismatch_message(actual: nat, expected: int) -> Seq<char> {
    "Actual decompressed size doesn't match the expected one ("@ + decimal(actual) + " vs "@
        + signed_decimal(expected) + ")"@
}

fn size_mismatch_text(actual: usize, expected: i32) -> (r: String)
    ensures
        r@ == size_mismatch_message(actual as nat, expected as int),
{
    proof {
        reveal_strlit("Actual decompressed size doesn't match the expected one (");
        reveal_strlit(" vs ");
        reveal_strlit("-");
        reveal_strlit(")");
    }
    let mut s = String::from_str("Actual decompressed size doesn't match the expected one (");
    s.append(decimal_string(actual as u64).as_str());
    s.append(" vs ");
    if expected < 0 {
        s.append("-");
        s.append(decimal_string((-(expected as i64)) as u64).as_str());
    } else {
        s.append(decimal_string(expected as u64).as_str());
    }
    s.append(")");
    s
}

/// Copies `buf[start..end]`.
fn copy_bytes(buf: &Vec<u8>, start: usize, end: usize) -> (r: Vec<u8>)
    requires
        start <= end <= buf@.len(),
    ensures
        r@ == buf@.subrange(start as int, end as int),
{
    let mut r: Vec<u8> = Vec::new();
    let mut i = start;
    while i < end
        invariant
            start <= i <= end <= buf@.len(),
            r@ == buf@.subrange(start as int, i as int),
        decreases end - i,
    {
        r.push(buf[i]);
        i += 1;
        assert(r@ =~= buf@.subrange(start as int, i as int));
    }
    r
}

/// Turns a page header and the page's bytes into a page. With a decompressor, a
/// body that needs one becomes its level segments (never compressed) followed by the
/// decompressed rest, which must come to the header's uncompressed size.
/// Checks a decompressed page body against the size its header gives: the body
/// itself when the sizes agree, else the size-mismatch error.
pub fn check_decompressed_size(decompressed: Vec<u8>, expected: i32) -> (r: Result<Vec<u8>, ParquetError>)
    ensures
        r is Ok <==> (expected >= 0 && decompressed@.len() == expected),
        r matches Ok(b) ==> b@ == decompressed@,
        r matches Err(e) ==> e.message_spec() == size_mismatch_message(
            decompressed@.len(),
            expected as int,
        ),
{
    if expected < 0 || decompressed.len() != expected as usize {
        return Err(ParquetError::General(size_mismatch_text(decompressed.len(), expected)));
    }
    Ok(decompressed)
}

/// The page that a header makes of its (decompressed) bytes: a page of the header's
/// type, with the fields of the header for that type; an error where that header is
/// missing or the page is an index page.
pub fn page_from_header(header: PageHeader, buffer: Vec<u8>) -> (r: Result<Page, ParquetError>)
    ensures
        r is Ok <==> match header.type_ {
            PageType::DictionaryPage => header.dictionary_page_header is Some,
            PageType::DataPage => header.data_page_header is Some,
            PageType::DataPageV2 => header.data_page_header_v2 is Some,
            PageType::IndexPage => false,
        },
        r matches Ok(p) ==> page_buf(p) == buffer@,
        r matches Err(e) ==> e.message_spec() == (if header.type_ == PageType::IndexPage {
            unsupported_page_message()
        } else {
            missing_header_message()
        }),
        r matches Ok(Page::DictionaryPage { num_values, encoding, is_sorted, .. }) ==> {
            &&& header.type_ == PageType::DictionaryPage
            &&& header.dictionary_page_header matches Some(h)
            &&& num_values == h.num_values as u32
            &&& encoding == h.encoding
            &&& is_sorted == (h.is_sorted == Some(true))
        },
        r matches Ok(Page::DataPage { num_values, encoding, def_level_encoding, rep_level_encoding, .. }) ==> {
            &&& header.type_ == PageType::DataPage
            &&& header.data_page_header matches Some(h)
            &&& num_values == h.num_values as u32
            &&& encoding == h.encoding
            &&& def_level_encoding == h.definition_level_encoding
            &&& rep_level_encoding == h.repetition_level_encoding
        },
        r matches Ok(Page::DataPageV2 { num_values, encoding, num_nulls, num_rows, def_levels_byte_len, rep_levels_byte_len, is_compressed, .. }) ==> {
            &&& header.type_ == PageType::DataPageV2
            &&& header.data_page_header_v2 matches Some(h)
            &&& num_values == h.num_values as u32
            &&& encoding == h.encoding
            &&& num_nulls == h.num_nulls as u32
            &&& num_rows == h.num_rows as u32
            &&& def_levels_byte_len == h.definition_levels_byte_length as u32
            &&& rep_levels_byte_len == h.repetition_levels_byte_length as u32
            &&& is_compressed == (h.is_compressed != Some(false))
        },
{
    let can_decompress = match header.data_page_header_v2 {
        Some(h) => match h.is_compressed {
            Some(c) => c,
            None => true,
        },
        None => true,
    };
    proof {
        reveal_strlit("page header lacks the header of its page type");
        reveal_strlit("page type not supported");
    }
    match header.type_ {
        PageType::DictionaryPage => match header.dictionary_page_header {
            Some(h) => Ok(
                Page::DictionaryPage {
                    buf: buffer,
                    num_values: h.num_values as u32,
                    encoding: h.encoding,
                    is_sorted: match h.is_sorted {
                        Some(b) => b,
                        None => false,
                    },
                },
            ),
            None => Err(general("page header lacks the header of its page type")),
        },
        PageType::DataPage => match header.data_page_header {
            Some(h) => Ok(
                Page::DataPage {
                    buf: buffer,
                    num_values: h.num_values as u32,
                    encoding: h.encoding,
                    def_level_encoding: h.definition_level_encoding,
                    rep_level_encoding: h.repetition_level_encoding,
                },
            ),
            None => Err(general("page header lacks the header of its page type")),
        },
        PageType::DataPageV2 => match header.data_page_header_v2 {
            Some(h) => Ok(
                Page::DataPageV2 {
                    buf: buffer,
                    num_values: h.num_values as u32,
                    encoding: h.encoding,
                    num_nulls: h.num_nulls as u32,
                    num_rows: h.num_rows as u32,
                    def_levels_byte_len: h.definition_levels_byte_length as u32,
                    rep_levels_byte_len: h.repetition_levels_byte_length as u32,
                    is_compressed: can_decompress,
                },
            ),
            None => Err(general("page header lacks the header of its page type")),
        },
        PageType::IndexPage => Err(general("page type not supported")),
    }
}

pub fn decode_page<C: Codec>(header: PageHeader, buffer: Vec<u8>, decompressor: Option<&mut C>) -> (r:
    Result<Page, ParquetError>)
    ensures
        r matches Ok(p) ==> page_buf(p) == match decompressor {
            Some(c) => if needs_codec(header) {
                buffer@.take(level_prefix(header)) + c.decompressed(buffer@.skip(level_prefix(header)))
            } else {
                buffer@
            },
            None => buffer@,
        },
        r matches Ok(p) ==> (decompressor is Some && needs_codec(header)) ==> page_buf(p).len()
            == header.uncompressed_page_size,
        (decompressor is Some && needs_codec(header) && !(0 <= level_prefix(header) <= buffer@.len()))
            ==> (r matches Err(e) && e.message_spec() == short_body_message()),
        (decompressor is Some && needs_codec(header) && 0 <= level_prefix(header) <= buffer@.len()
            && match decompressor {
            Some(c) => level_prefix(header) + c.decompressed(buffer@.skip(level_prefix(header))).len()
                != header.uncompressed_page_size,
            None => false,
        }) ==> r is Err,
        (decompressor is None || !needs_codec(header)) ==> (r is Ok <==> match header.type_ {
            PageType::DictionaryPage => header.dictionary_page_header is Some,
            PageType::DataPage => header.data_page_header is Some,
            PageType::DataPageV2 => header.data_page_header_v2 is Some,
            PageType::IndexPage => false,
        }),
        r matches Ok(Page::DictionaryPage { num_values, encoding, is_sorted, .. }) ==> {
            &&& header.type_ == PageType::DictionaryPage
            &&& header.dictionary_page_header matches Some(h)
            &&& num_values == h.num_values as u32
            &&& encoding == h.encoding
            &&& is_sorted == (h.is_sorted == Some(true))
        },
        r matches Ok(Page::DataPage { num_values, encoding, def_level_encoding, rep_level_encoding, .. }) ==> {
            &&& header.type_ == PageType::DataPage
            &&& header.data_page_header matches Some(h)
            &&& num_values == h.num_values as u32
            &&& encoding == h.encoding
            &&& def_level_encoding == h.definition_level_encoding
            &&& rep_level_encoding == h.repetition_level_encoding
        },
        r matches Ok(Page::DataPageV2 { num_values, encoding, num_nulls, num_rows, def_levels_byte_len, rep_levels_byte_len, is_compressed, .. }) ==> {
            &&& header.type_ == PageType::DataPageV2
            &&& header.data_page_header_v2 matches Some(h)
            &&& num_values == h.num_values as u32
            &&& encoding == h.encoding
            &&& num_nulls == h.num_nulls as u32
            &&& num_rows == h.num_rows as u32
            &&& def_levels_byte_len == h.definition_levels_byte_length as u32
            &&& rep_levels_byte_len == h.repetition_levels_byte_length as u32
            &&& is_compressed == (h.is_compressed != Some(false))
        },
{
    let mut offset: i64 = 0;
    let mut can_decompress = true;
    if let Some(h) = header.data_page_header_v2 {
        offset = h.definition_levels_byte_length as i64 + h.repetition_levels_byte_length as i64;
        can_decompress = match h.is_compressed {
            Some(c) => c,
            None => true,
        };
    }
    let buffer = match decompressor {
        Some(d) => if can_decompress {
            if offset < 0 || offset as u64 > buffer.len() as u64 {
                return Err(general("page body shorter than its level segments"));
            }
            let off = offset as usize;
            let mut decompressed = copy_bytes(&buffer, 0, off);
            let rest = copy_bytes(&buffer, off, buffer.len());
            proof {
                assert(rest@ =~= buffer@.skip(off as int));
                assert(decompressed@ =~= buffer@.take(off as int));
            }
            d.decompress(rest.as_slice(), &mut decompressed)?;
            check_decompressed_size(decompressed, header.uncompressed_page_size)?
        } else {
            buffer
        },
        None => buffer,
    };
    page_from_header(header, buffer)
}

pub open spec fn short_body_message() -> Seq<char> {
    "page body shorter than its level segments"@
}

/// The pages of one column chunk: counts the values seen against the chunk's total,
/// and turns each header and body read from `buf` into a page, through the chunk's
/// decompressor.
pub struct SerializedPageReader<T, C> {
    /// The bytes of the column chunk, read from by the caller.
    pub buf: T,
    decompressor: Option<C>,
    seen_num_values: i64,
    total_num_values: i64,
    physical_type: PhysicalType,
}

impl<T, C: Codec> SerializedPageReader<T, C> {
    pub closed spec fn seen(&self) -> int {
        self.seen_num_values as int
    }

    pub closed spec fn total(&self) -> int {
        self.total_num_values as int
    }

    /// The decompressor the pages pass through, if any.
    pub closed spec fn decompressor(&self) -> Option<C> {
        self.decompressor
    }

    /// A page reader of `total_num_values` values in `buf`, compressed with
    /// `compression`. A compressed chunk needs a `codec`; an uncompressed one uses none.
    pub fn new(
        buf: T,
        total_num_values: i64,
        compression: Compression,
        physical_type: PhysicalType,
        codec: Option<C>,
    ) -> (r: Result<Self, ParquetError>)
        ensures
            r is Ok <==> (compression == Compression::Uncompressed || codec is Some),
            r matches Ok(p) ==> p.seen() == 0 && p.total() == total_num_values && p.decompressor() == (
            if compression == Compression::Uncompressed {
                None
            } else {
                codec
            }),
            r matches Err(e) ==> e.message_spec() == codec_message(),
    {
        let decompressor = if compression == Compression::Uncompressed {
            None
        } else {
            match codec {
                Some(c) => Some(c),
                None => {
                    return Err(general("compression codec not supported"));
                },
            }
        };
        Ok(SerializedPageReader { buf, decompressor, seen_num_values: 0, total_num_values, physical_type })
    }

    /// Whether pages remain: fewer values seen than the chunk holds.
    pub fn has_more(&self) -> (r: bool)
        ensures
            r == (self.seen() < self.total()),
    {
        self.seen_num_values < self.total_num_values
    }

    /// Takes the next header and body of the chunk: an index page is skipped
    /// (`None`); any other page is decoded as `decode_page` does; a data page adds its
    /// values to those seen.
    pub fn next_page(&mut self, header: PageHeader, body: Vec<u8>) -> (r: Result<Option<Page>, ParquetError>)
        ensures
            final(self).total() == old(self).total(),
            header.type_ == PageType::IndexPage ==> (r matches Ok(None) && final(self).seen() == old(self).seen()),
            header.type_ != PageType::IndexPage ==> !(r matches Ok(None)),
            (header.type_ != PageType::IndexPage && (old(self).decompressor() is None || !needs_codec(header))
                && match header.type_ {
                PageType::DictionaryPage => header.dictionary_page_header is Some,
                PageType::DataPage => header.data_page_header is Some,
                PageType::DataPageV2 => header.data_page_header_v2 is Some,
                PageType::IndexPage => false,
            }) ==> (r matches Ok(Some(p)) && page_buf(p) == body@),
            r matches Ok(Some(Page::DictionaryPage { .. })) ==> final(self).seen() == old(self).seen(),
            r matches Ok(Some(Page::DataPage { num_values, .. })) ==> final(self).seen() == if old(self).seen() + num_values > i64::MAX {
                i64::MAX as int
            } else {
                old(self).seen() + num_values
            },
            r matches Ok(Some(Page::DataPageV2 { num_values, .. })) ==> final(self).seen() == if old(self).seen() + num_values > i64::MAX {
                i64::MAX as int
            } else {
                old(self).seen() + num_values
            },
            r is Err ==> final(self).seen() == old(self).seen(),
    {
        if header.type_ == PageType::IndexPage {
            return Ok(None);
        }
        let page = decode_page(header, body, self.decompressor.as_mut())?;
        let n: u32 = match &page {
            Page::DataPage { num_values, .. } => *num_values,
            Page::DataPageV2 { num_values, .. } => *num_values,
            Page::DictionaryPage { .. } => 0,
        };
        self.seen_num_values = if self.seen_num_values > i64::MAX - n as i64 {
            i64::MAX
        } else {
            self.seen_num_values + n as i64
        };
        Ok(Some(page))
    }
}

} // verus!
