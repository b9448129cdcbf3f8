//! The column page reader: pulls pages of one column chunk, sets up level and value
//! decoders for each data page, and fills caller-owned buffers in batches.
use vstd::prelude::*;
use crate::error::{decimal, decimal_string, ParquetError};
use vstd::string::StringExecFns;

verus! {

/// Physical type of a column.
#[derive(Clone, Copy, Debug, PartialEq, Eq, Structural)]
pub enum PhysicalType {
    Boolean,
    Int32,
    Int64,
    Int96,
    Float,
    Double,
    ByteArray,
    FixedLenByteArray,
}

/// Encodings of values and levels.
#[derive(Clone, Copy, Debug, PartialEq, Eq, Structural)]
pub enum Encoding {
    Plain,
    PlainDictionary,
    Rle,
    BitPacked,
    DeltaBinaryPacked,
    DeltaLengthByteArray,
    DeltaByteArray,
    RleDictionary,
    ByteStreamSplit,
}

impl Encoding {
    pub open spec fn name_spec(&self) -> Seq<char> {
        match self {
            Encoding::Plain => "PLAIN"@,
            Encoding::PlainDictionary => "PLAIN_DICTIONARY"@,
            Encoding::Rle => "RLE"@,
            Encoding::BitPacked => "BIT_PACKED"@,
            Encoding::DeltaBinaryPacked => "DELTA_BINARY_PACKED"@,
            Encoding::DeltaLengthByteArray => "DELTA_LENGTH_BYTE_ARRAY"@,
            Encoding::DeltaByteArray => "DELTA_BYTE_ARRAY"@,
            Encoding::RleDictionary => "RLE_DICTIONARY"@,
            Encoding::ByteStreamSplit => "BYTE_STREAM_SPLIT"@,
        }
    }

    /// The encoding's name as the file format writes it.
    pub fn name(&self) -> (r: &'static str)
        ensures
            r@ == self.name_spec(),
    {
        match self {
            Encoding::Plain => "PLAIN",
            Encoding::PlainDictionary => "PLAIN_DICTIONARY",
            Encoding::Rle => "RLE",
            Encoding::BitPacked => "BIT_PACKED",
            Encoding::DeltaBinaryPacked => "DELTA_BINARY_PACKED",
            Encoding::DeltaLengthByteArray => "DELTA_LENGTH_BYTE_ARRAY",
            Encoding::DeltaByteArray => "DELTA_BYTE_ARRAY",
            Encoding::RleDictionary => "RLE_DICTIONARY",
            Encoding::ByteStreamSplit => "BYTE_STREAM_SPLIT",
        }
    }
}

/// What the reader needs to know of a column.
#[derive(Clone, Copy, Debug)]
pub struct ColumnDescriptor {
    pub physical_type: PhysicalType,
    pub max_def_level: i16,
    pub max_rep_level: i16,
}

/// A page of a column chunk.
#[derive(Debug)]
pub enum Page {
    DictionaryPage { buf: Vec<u8>, num_values: u32, encoding: Encoding, is_sorted: bool },
    DataPage {
        buf: Vec<u8>,
        num_values: u32,
        encoding: Encoding,
        def_level_encoding: Encoding,
        rep_level_encoding: Encoding,
    },
    DataPageV2 {
        buf: Vec<u8>,
        num_values: u32,
        encoding: Encoding,
        num_nulls: u32,
        num_rows: u32,
        def_levels_byte_len: u32,
        rep_levels_byte_len: u32,
        is_compressed: bool,
    },
}

/// A source of the pages of one column chunk, in physical order. A chunk holds
/// finitely many pages: each page handed out lowers `pages_left`.
///
/// The bodies of the spec functions of this trait and of the decoder traits below
/// stand for implementations that do not define them; nothing proved here relies on
/// them.
pub trait PageReader {
    /// An upper bound on the number of pages still to come.
    closed spec fn pages_left(&self) -> nat {
        0
    }

    /// The next page, or `None` at the end of the chunk.
    fn get_next_page(&mut self) -> (r: Result<Option<Page>, ParquetError>)
        ensures
            r matches Ok(Some(_)) ==> final(self).pages_left() < old(self).pages_left(),
    ;
}

/// Decodes the definition or repetition levels of one data page.
pub trait ColumnLevelDecoder: Sized {
    /// The levels not read yet.
    closed spec fn levels(&self) -> Seq<i16> {
        Seq::empty()
    }

    /// A decoder of levels up to `max_level`, in `encoding`, from `data`.
    fn new(max_level: i16, encoding: Encoding, data: Vec<u8>) -> Self;

    /// Reads up to `len` levels into `out[start..]`.
    fn read(&mut self, out: &mut Vec<i16>, start: usize, len: usize) -> (r: Result<usize, ParquetError>)
        requires
            start + len <= old(out)@.len(),
        ensures
            final(out)@.len() == old(out)@.len(),
            r matches Ok(n) ==> {
                &&& n <= len
                &&& n <= old(self).levels().len()
                &&& final(out)@ == old(out)@.take(start as int) + final(out)@.subrange(
                    start as int,
                    start + n,
                ) + old(out)@.skip(start + n)
                &&& final(out)@.subrange(start as int, start + n) == old(self).levels().take(n as int)
                &&& final(self).levels() == old(self).levels().skip(n as int)
            },
    ;
}

/// Decodes the values of a column chunk, page by page.
pub trait ColumnValueDecoder: Sized {
    type Item;

    /// Every value read from this decoder so far, over all pages.
    closed spec fn consumed(&self) -> Seq<Self::Item> {
        Seq::empty()
    }

    /// A decoder for the column `descr`.
    fn new(descr: &ColumnDescriptor) -> (r: Self)
        ensures
            r.consumed().len() == 0,
    ;

    /// Installs a dictionary page.
    fn set_dict(&mut self, buf: Vec<u8>, num_values: u32, encoding: Encoding, is_sorted: bool) -> (r:
        Result<(), ParquetError>)
        ensures
            final(self).consumed() == old(self).consumed(),
    ;

    /// Installs the value bytes of a data page of `num_levels` levels, of which
    /// `num_values` are non-null when known.
    fn set_data(
        &mut self,
        encoding: Encoding,
        data: Vec<u8>,
        num_levels: usize,
        num_values: Option<usize>,
    ) -> (r: Result<(), ParquetError>)
        ensures
            final(self).consumed() == old(self).consumed(),
    ;

    /// Reads up to `len` values into `out[start..]`.
    fn read(&mut self, out: &mut Vec<Self::Item>, start: usize, len: usize) -> (r: Result<
        usize,
        ParquetError,
    >)
        requires
            start + len <= old(out)@.len(),
        ensures
            final(out)@.len() == old(out)@.len(),
            r matches Ok(n) ==> {
                &&& n <= len
                &&& final(out)@ == old(out)@.take(start as int) + final(out)@.subrange(
                    start as int,
                    start + n,
                ) + old(out)@.skip(start + n)
                &&& final(self).consumed() == old(self).consumed() + final(out)@.subrange(
                    start as int,
                    start + n,
                )
            },
            r is Err ==> final(self).consumed() == old(self).consumed(),
    ;
}

/// Number of bits needed to write `x`.
pub open spec fn required_bits(x: nat) -> nat
    decreases x,
{
    if x == 0 {
        0
    } else {
        1 + required_bits(x / 2)
    }
}

/// Number of bits needed to write `x`.
pub fn num_required_bits(x: u64) -> (r: u32)
    ensures
        r == required_bits(x as nat),
        r <= 64,
{
    let mut v = x;
    let mut n: u64 = 0;
    assert(x <= (0xffff_ffff_ffff_ffffu64 >> 0u64)) by (bit_vector);
    while v > 0
        invariant
            n + required_bits(v as nat) == required_bits(x as nat),
            n <= 64,
            v <= (0xffff_ffff_ffff_ffffu64 >> n),
        decreases v,
    {
        assert(v > 0 && v <= (0xffff_ffff_ffff_ffffu64 >> n) && n <= 64 ==> n < 64 && v / 2 <= (
        0xffff_ffff_ffff_ffffu64 >> (n + 1))) by (bit_vector);
        v = v / 2;
        n += 1;
    }
    n as u32
}

/// The little-endian `i32` in four bytes.
pub open spec fn le_i32(b0: u8, b1: u8, b2: u8, b3: u8) -> int {
    let u = b0 + 256 * b1 + 65536 * b2 + 16777216 * b3;
    if u >= 0x8000_0000 {
        u - 0x1_0000_0000
    } else {
        u
    }
}

/// Bytes a BIT_PACKED level run of `n` levels up to `max_level` takes.
pub open spec fn bit_packed_len(n: nat, max_level: nat) -> nat {
    (n * required_bits(max_level) + 7) / 8
}

/// How a V1 data page frames its levels in `buf`: the number of bytes the level
/// segment takes, and where the level data lies in it.
pub open spec fn v1_level_frame(max_level: i16, num_values: u32, encoding: Encoding, buf: Seq<u8>) -> Option<(nat, int, int)> {
    match encoding {
        Encoding::Rle => if buf.len() < 4 {
            None
        } else {
            let size = le_i32(buf[0], buf[1], buf[2], buf[3]);
            if size < 0 || 4 + size > buf.len() {
                None
            } else {
                Some(((4 + size) as nat, 4, 4 + size))
            }
        },
        Encoding::BitPacked => {
            let n = bit_packed_len(num_values as nat, if max_level < 0 { 0 } else { max_level as nat });
            if n > buf.len() {
                None
            } else {
                Some((n, 0, n as int))
            }
        },
        _ => None,
    }
}

pub open spec fn invalid_encoding_message(e: Encoding) -> Seq<char> {
    "invalid level encoding: "@ + e.name_spec()
}

pub open spec fn short_page_message() -> Seq<char> {
    "page too short for its level data"@
}

fn invalid_encoding_text(name: &str) -> (r: String)
    ensures
        r@ == "invalid level encoding: "@ + name@,
{
    proof {
        reveal_strlit("invalid level encoding: ");
    }
    let mut s = String::from_str("invalid level encoding: ");
    s.append(name);
    s
}

fn short_page() -> (e: ParquetError)
    ensures
        e.message_spec() == short_page_message(),
{
    proof {
        reveal_strlit("page too short for its level data");
    }
    ParquetError::General("page too short for its level data".to_string())
}

/// Copies `buf[start..end]`.
fn copy_range(buf: &Vec<u8>, start: usize, end: usize) -> (r: Vec<u8>)
    requires
        start <= end <= buf@.len(),
    ensures
        r@ == buf@.subrange(start as int, end as int),
{
    let mut r: Vec<u8> = Vec::new();
    let mut i = start;
    while i < end
        invariant
            start <= i <= end <= buf@.len(),
            r@ == buf@.subrange(start as int, i as int),
        decreases end - i,
    {
        r.push(buf[i]);
        i += 1;
        assert(r@ =~= buf@.subrange(start as int, i as int));
    }
    r
}

/// Parses the level segment at the start of `buf` in a V1 data page: returns the
/// number of bytes it takes and the level data.
pub fn parse_v1_level(max_level: i16, num_buffered_values: u32, encoding: Encoding, buf: &Vec<u8>) -> (r:
    Result<(usize, Vec<u8>), ParquetError>)
    ensures
        r is Ok <==> v1_level_frame(max_level, num_buffered_values, encoding, buf@) is Some,
        r matches Ok((n, data)) ==> (v1_level_frame(max_level, num_buffered_values, encoding, buf@)
            matches Some((m, s, e)) && n == m && data@ == buf@.subrange(s, e)),
        r matches Err(e) ==> e.message_spec() == (match encoding {
            Encoding::Rle | Encoding::BitPacked => short_page_message(),
            _ => invalid_encoding_message(encoding),
        }),
{
    match encoding {
        Encoding::Rle => {
            if buf.len() < 4 {
                return Err(short_page());
            }
            let u: i64 = buf[0] as i64 + 256 * buf[1] as i64 + 65536 * buf[2] as i64 + 16777216
                * buf[3] as i64;
            let size: i64 = if u >= 0x8000_0000 {
                u - 0x1_0000_0000
            } else {
                u
            };
            if size < 0 || size as usize > buf.len() - 4 {
                return Err(short_page());
            }
            let end = 4 + size as usize;
            Ok((end, copy_range(buf, 4, end)))
        },
        Encoding::BitPacked => {
            let level: u64 = if max_level < 0 {
                0
            } else {
                max_level as u64
            };
            let bit_width = num_required_bits(level);
            let nv = num_buffered_values as u64;
            let bw = bit_width as u64;
            assert(nv * bw <= 0xffff_ffff * 64) by (nonlinear_arith)
                requires
                    nv <= 0xffff_ffff,
                    bw <= 64,
            ;
            let bits: u64 = nv * bw;
            let num_bytes: u64 = (bits + 7) / 8;
            if num_bytes > buf.len() as u64 {
                return Err(short_page());
            }
            let n = num_bytes as usize;
            Ok((n, copy_range(buf, 0, n)))
        },
        _ => Err(ParquetError::General(invalid_encoding_text(encoding.name()))),
    }
}

/// Number of levels below `max_level` (the null slots).
pub open spec fn count_null(s: Seq<i16>, max_level: i16) -> nat
    decreases s.len(),
{
    if s.len() == 0 {
        0
    } else {
        count_null(s.drop_last(), max_level) + if s.last() < max_level {
            1nat
        } else {
            0nat
        }
    }
}

/// Number of levels at or above `max_level` (the slots that carry a value).
pub open spec fn count_defined(s: Seq<i16>, max_level: i16) -> nat
    decreases s.len(),
{
    if s.len() == 0 {
        0
    } else {
        count_defined(s.drop_last(), max_level) + if s.last() >= max_level {
            1nat
        } else {
            0nat
        }
    }
}

proof fn lemma_count_split(s: Seq<i16>, m: i16)
    ensures
        count_null(s, m) + count_defined(s, m) == s.len(),
    decreases s.len(),
{
    if s.len() > 0 {
        lemma_count_split(s.drop_last(), m);
    }
}

proof fn lemma_count_defined_append(a: Seq<i16>, b: Seq<i16>, m: i16)
    ensures
        count_defined(a + b, m) == count_defined(a, m) + count_defined(b, m),
    decreases b.len(),
{
    if b.len() == 0 {
        assert(a + b =~= a);
    } else {
        lemma_count_defined_append(a, b.drop_last(), m);
        assert((a + b).drop_last() =~= a + b.drop_last());
    }
}

/// A buffer that kept all but the segment `[start, start + n)` extends its prefix by
/// that segment.
proof fn lemma_segment<T>(before: Seq<T>, after: Seq<T>, start: int, n: int)
    requires
        0 <= start,
        0 <= n,
        start + n <= before.len(),
        after.len() == before.len(),
        after == before.take(start) + after.subrange(start, start + n) + before.skip(start + n),
    ensures
        after.len() == before.len(),
        after.take(start) == before.take(start),
        after.take(start + n) == before.take(start) + after.subrange(start, start + n),
{
    assert(after.len() == before.len());
    assert(after.take(start) =~= before.take(start));
    assert(after.take(start + n) =~= before.take(start) + after.subrange(start, start + n));
}

/// A log of a buffer's prefix, extended by the segment that follows the prefix.
proof fn lemma_extend<T>(log0: Seq<T>, before: Seq<T>, after: Seq<T>, start: int, n: int)
    requires
        0 <= start,
        0 <= n,
        start + n <= after.len(),
        after.take(start) == before.take(start),
    ensures
        after.take(start + n) == after.take(start) + after.subrange(start, start + n),
        log0 + after.take(start + n) == (log0 + before.take(start)) + after.subrange(start, start + n),
{
    assert(after.take(start + n) =~= after.take(start) + after.subrange(start, start + n));
    assert(log0 + after.take(start + n) =~= (log0 + before.take(start)) + after.subrange(
        start,
        start + n,
    ));
}

/// A round that read as many definition levels as it took, and one value per defined
/// level, continues the definition history and the count of values.
proof fn lemma_def_round(
    def0: Seq<i16>,
    before: Seq<i16>,
    after: Seq<i16>,
    lr: int,
    cl: int,
    vr: int,
    cv: int,
    max_def: i16,
)
    requires
        0 <= lr,
        0 <= cl,
        lr + cl <= after.len(),
        after.take(lr) == before.take(lr),
        vr == count_defined(before.take(lr), max_def),
        cv == count_defined(after.subrange(lr, lr + cl), max_def),
    ensures
        def0 + after.take(lr + cl) == (def0 + before.take(lr)) + after.subrange(lr, lr + cl),
        vr + cv == count_defined(after.take(lr + cl), max_def),
{
    lemma_extend(def0, before, after, lr, cl);
    lemma_count_defined_append(after.take(lr), after.subrange(lr, lr + cl), max_def);
}

/// Counts the levels of `levels[start..end]` below `max_level`.
pub fn count_nulls(levels: &Vec<i16>, start: usize, end: usize, max_level: i16) -> (r: usize)
    requires
        start <= end <= levels@.len(),
    ensures
        r == count_null(levels@.subrange(start as int, end as int), max_level),
        r <= end - start,
{
    let mut n: usize = 0;
    let mut i = start;
    while i < end
        invariant
            start <= i <= end <= levels@.len(),
            n == count_null(levels@.subrange(start as int, i as int), max_level),
            n <= i - start,
        decreases end - i,
    {
        assert(levels@.subrange(start as int, i + 1).drop_last() =~= levels@.subrange(
            start as int,
            i as int,
        ));
        if levels[i] < max_level {
            n += 1;
        }
        i += 1;
    }
    n
}

pub open spec fn more_nulls_message(num_values: u32, num_nulls: u32) -> Seq<char> {
    "more nulls than values in page, contained "@ + decimal(num_values as nat) + " values and "@
        + decimal(num_nulls as nat) + " nulls"@
}

pub open spec fn inconsistent_message(def: nat, rep: nat) -> Seq<char> {
    "inconsistent number of levels read - def: "@ + decimal(def) + ", rep: "@ + decimal(rep)
}

pub open spec fn insufficient_message(expected: nat, got: nat) -> Seq<char> {
    "insufficient values read from column - expected: "@ + decimal(expected) + ", got: "@ + decimal(
        got,
    )
}

fn more_nulls_text(num_values: u32, num_nulls: u32) -> (r: String)
    ensures
        r@ == more_nulls_message(num_values, num_nulls),
{
    proof {
        reveal_strlit("more nulls than values in page, contained ");
        reveal_strlit(" values and ");
        reveal_strlit(" nulls");
    }
    let mut s = String::from_str("more nulls than values in page, contained ");
    s.append(decimal_string(num_values as u64).as_str());
    s.append(" values and ");
    s.append(decimal_string(num_nulls as u64).as_str());
    s.append(" nulls");
    s
}

fn inconsistent_text(def: usize, rep: usize) -> (r: String)
    ensures
        r@ == inconsistent_message(def as nat, rep as nat),
{
    proof {
        reveal_strlit("inconsistent number of levels read - def: ");
        reveal_strlit(", rep: ");
    }
    let mut s = String::from_str("inconsistent number of levels read - def: ");
    s.append(decimal_string(def as u64).as_str());
    s.append(", rep: ");
    s.append(decimal_string(rep as u64).as_str());
    s
}

fn insufficient_text(expected: usize, got: usize) -> (r: String)
    ensures
        r@ == insufficient_message(expected as nat, got as nat),
{
    proof {
        reveal_strlit("insufficient values read from column - expected: ");
        reveal_strlit(", got: ");
    }
    let mut s = String::from_str("insufficient values read from column - expected: ");
    s.append(decimal_string(expected as u64).as_str());
    s.append(", got: ");
    s.append(decimal_string(got as u64).as_str());
    s
}

/// What a page sets up: a dictionary, or the level and value bytes of a data page.
pub enum PageSetup {
    Dictionary { buf: Vec<u8>, num_values: u32, encoding: Encoding, is_sorted: bool },
    Data {
        num_values: u32,
        encoding: Encoding,
        rep_levels: Option<Vec<u8>>,
        rep_encoding: Encoding,
        def_levels: Option<Vec<u8>>,
        def_encoding: Encoding,
        values: Vec<u8>,
        non_null: Option<usize>,
    },
}

/// The level data of one V1 level segment at the start of `buf` and the bytes after
/// it; no segment when the column has no such levels.
pub open spec fn v1_part(max_level: i16, num_values: u32, encoding: Encoding, buf: Seq<u8>) -> Option<
    (Seq<u8>, Seq<u8>),
> {
    if max_level > 0 {
        match v1_level_frame(max_level, num_values, encoding, buf) {
            Some((n, s, e)) => Some((buf.subrange(s, e), buf.skip(n as int))),
            None => None,
        }
    } else {
        Some((Seq::empty(), buf))
    }
}

/// A V1 data page split into repetition level data, definition level data and
/// value bytes, in that order.
pub open spec fn v1_split(
    descr: ColumnDescriptor,
    num_values: u32,
    def_encoding: Encoding,
    rep_encoding: Encoding,
    buf: Seq<u8>,
) -> Option<(Seq<u8>, Seq<u8>, Seq<u8>)> {
    match v1_part(descr.max_rep_level, num_values, rep_encoding, buf) {
        Some((rep, rest)) => match v1_part(descr.max_def_level, num_values, def_encoding, rest) {
            Some((def, vals)) => Some((rep, def, vals)),
            None => None,
        },
        None => None,
    }
}

/// `o` holds `b` when `present`, and nothing otherwise.
pub open spec fn holds_bytes(o: Option<Vec<u8>>, present: bool, b: Seq<u8>) -> bool {
    if present {
        o matches Some(v) && v@ == b
    } else {
        o is None
    }
}

/// The number of levels framed in a data page.
pub open spec fn data_page_values(p: Page) -> Option<u32> {
    match p {
        Page::DictionaryPage { .. } => None,
        Page::DataPage { num_values, .. } => Some(num_values),
        Page::DataPageV2 { num_values, .. } => Some(num_values),
    }
}

/// Splits a page into what the decoders of column `descr` are given: the fields of a
/// dictionary page; the level segments, the value bytes and the non-null count of a
/// data page. V1 level segments are framed as `v1_level_frame` says; V2 pages give
/// the byte lengths of their RLE level segments, and never more nulls than values.
pub fn admit_page(descr: ColumnDescriptor, page: Page) -> (r: Result<PageSetup, ParquetError>)
    ensures
        match page {
            Page::DictionaryPage { buf, num_values, encoding, is_sorted } => r matches Ok(
                PageSetup::Dictionary { buf: b2, num_values: n2, encoding: e2, is_sorted: s2 },
            ) && b2@ == buf@ && n2 == num_values && e2 == encoding && s2 == is_sorted,
            Page::DataPage { buf, num_values, encoding, def_level_encoding, rep_level_encoding } => {
                &&& r is Ok <==> v1_split(descr, num_values, def_level_encoding, rep_level_encoding, buf@)
                    is Some
                &&& r is Ok ==> (r matches Ok(
                    PageSetup::Data {
                        num_values: n2,
                        encoding: e2,
                        rep_levels,
                        rep_encoding,
                        def_levels,
                        def_encoding,
                        values,
                        non_null,
                    },
                ) && v1_split(descr, num_values, def_level_encoding, rep_level_encoding, buf@)
                    matches Some((rb, db, vb)) && n2 == num_values && e2 == encoding && rep_encoding
                    == rep_level_encoding && def_encoding == def_level_encoding && holds_bytes(
                    rep_levels,
                    descr.max_rep_level > 0,
                    rb,
                ) && holds_bytes(def_levels, descr.max_def_level > 0, db) && values@ == vb
                    && non_null is None)
            },
            Page::DataPageV2 {
                buf,
                num_values,
                encoding,
                num_nulls,
                num_rows,
                def_levels_byte_len,
                rep_levels_byte_len,
                is_compressed,
            } => {
                &&& num_nulls > num_values ==> (r matches Err(e) && e.message_spec()
                    == more_nulls_message(num_values, num_nulls))
                &&& num_nulls <= num_values ==> (r is Ok <==> rep_levels_byte_len + def_levels_byte_len
                    <= buf@.len())
                &&& r is Ok ==> (r matches Ok(
                    PageSetup::Data {
                        num_values: n2,
                        encoding: e2,
                        rep_levels,
                        rep_encoding,
                        def_levels,
                        def_encoding,
                        values,
                        non_null,
                    },
                ) && n2 == num_values && e2 == encoding && rep_encoding == Encoding::Rle
                    && def_encoding == Encoding::Rle && holds_bytes(
                    rep_levels,
                    descr.max_rep_level > 0,
                    buf@.subrange(0, rep_levels_byte_len as int),
                ) && holds_bytes(
                    def_levels,
                    descr.max_def_level > 0,
                    buf@.subrange(
                        rep_levels_byte_len as int,
                        rep_levels_byte_len + def_levels_byte_len,
                    ),
                ) && values@ == buf@.skip(rep_levels_byte_len + def_levels_byte_len) && non_null
                    == Some((num_values - num_nulls) as usize))
            },
        },
{
    match page {
        Page::DictionaryPage { buf, num_values, encoding, is_sorted } => Ok(
            PageSetup::Dictionary { buf, num_values, encoding, is_sorted },
        ),
        Page::DataPage { buf, num_values, encoding, def_level_encoding, rep_level_encoding } => {
            let mut rest = buf;
            let mut rep_levels: Option<Vec<u8>> = None;
            let mut def_levels: Option<Vec<u8>> = None;
            let ghost b0 = rest@;
            if descr.max_rep_level > 0 {
                let (bytes_read, level_data) = parse_v1_level(
                    descr.max_rep_level,
                    num_values,
                    rep_level_encoding,
                    &rest,
                )?;
                rep_levels = Some(level_data);
                rest = copy_range(&rest, bytes_read, rest.len());
            }
            proof {
                assert(rest@ =~= v1_part(descr.max_rep_level, num_values, rep_level_encoding, b0).unwrap().1);
            }
            let ghost b1 = rest@;
            if descr.max_def_level > 0 {
                let (bytes_read, level_data) = parse_v1_level(
                    descr.max_def_level,
                    num_values,
                    def_level_encoding,
                    &rest,
                )?;
                def_levels = Some(level_data);
                rest = copy_range(&rest, bytes_read, rest.len());
            }
            proof {
                assert(rest@ =~= v1_part(descr.max_def_level, num_values, def_level_encoding, b1).unwrap().1);
            }
            Ok(
                PageSetup::Data {
                    num_values,
                    encoding,
                    rep_levels,
                    rep_encoding: rep_level_encoding,
                    def_levels,
                    def_encoding: def_level_encoding,
                    values: rest,
                    non_null: None,
                },
            )
        },
        Page::DataPageV2 {
            buf,
            num_values,
            encoding,
            num_nulls,
            num_rows: _,
            def_levels_byte_len,
            rep_levels_byte_len,
            is_compressed: _,
        } => {
            if num_nulls > num_values {
                return Err(ParquetError::General(more_nulls_text(num_values, num_nulls)));
            }
            let rep_len = rep_levels_byte_len as usize;
            let def_len = def_levels_byte_len as usize;
            if rep_len > buf.len() || def_len > buf.len() - rep_len {
                return Err(short_page());
            }
            let rep_levels = if descr.max_rep_level > 0 {
                Some(copy_range(&buf, 0, rep_len))
            } else {
                None
            };
            let def_levels = if descr.max_def_level > 0 {
                Some(copy_range(&buf, rep_len, rep_len + def_len))
            } else {
                None
            };
            let values = copy_range(&buf, rep_len + def_len, buf.len());
            proof {
                assert(values@ =~= buf@.skip(rep_levels_byte_len + def_levels_byte_len));
            }
            Ok(
                PageSetup::Data {
                    num_values,
                    encoding,
                    rep_levels,
                    rep_encoding: Encoding::Rle,
                    def_levels,
                    def_encoding: Encoding::Rle,
                    values,
                    non_null: Some((num_values - num_nulls) as usize),
                },
            )
        },
    }
}

/// Checks the level counts of a round: where both kinds of levels are read and both
/// counts are non-zero, they must agree. Returns the number of levels the round read.
pub fn check_levels(read_def: bool, read_rep: bool, num_def: usize, num_rep: usize) -> (r: Result<
    usize,
    ParquetError,
>)
    ensures
        r is Err <==> (read_def && read_rep && num_def != 0 && num_rep != 0 && num_def != num_rep),
        r matches Err(e) ==> e.message_spec() == inconsistent_message(num_def as nat, num_rep as nat),
        r matches Ok(n) ==> n == if num_def > num_rep {
            num_def
        } else {
            num_rep
        },
{
    if read_def && read_rep && num_def != 0 && num_rep != 0 && num_def != num_rep {
        return Err(ParquetError::General(inconsistent_text(num_def, num_rep)));
    }
    Ok(
        if num_def > num_rep {
            num_def
        } else {
            num_rep
        },
    )
}

/// Checks the values of a round: where definition levels were decoded, one value
/// must come for each of them that is not null (none when no level came).
pub fn check_values(read_def: bool, num_def: usize, null_count: usize, got: usize) -> (r: Result<
    (),
    ParquetError,
>)
    requires
        null_count <= num_def,
    ensures
        r is Err <==> (read_def && got != num_def - null_count),
        r matches Err(e) ==> e.message_spec() == insufficient_message(
            (num_def - null_count) as nat,
            got as nat,
        ),
{
    if read_def && got != num_def - null_count {
        return Err(ParquetError::General(insufficient_text(num_def - null_count, got)));
    }
    Ok(())
}

/// The smallest of the batch size and the lengths of the buffers given.
pub open spec fn batch_cap(batch_size: nat, values: nat, def: Option<nat>, rep: Option<nat>) -> nat {
    let a = if values < batch_size {
        values
    } else {
        batch_size
    };
    let b = match def {
        Some(d) => if d < a {
            d
        } else {
            a
        },
        None => a,
    };
    match rep {
        Some(r) => if r < b {
            r
        } else {
            b
        },
        None => b,
    }
}

/// Reads a column chunk with level decoders `R` (repetition) and `D` (definition),
/// value decoder `V`, and page source `P`.
pub struct GenericColumnReader<R, D, V, P> {
    descr: ColumnDescriptor,
    page_reader: P,
    /// The number of values framed in the current data page.
    num_buffered_values: u32,
    /// The number of values of the current data page decoded so far.
    num_decoded_values: u32,
    def_level_decoder: Option<D>,
    rep_level_decoder: Option<R>,
    values_decoder: V,
    /// Every definition level handed out so far.
    def_log: Ghost<Seq<i16>>,
    /// Every repetition level handed out so far.
    rep_log: Ghost<Seq<i16>>,
    /// The page source said it had no page left when last asked.
    drained: Ghost<bool>,
    /// The data page now being read.
    current_page: Ghost<Option<Page>>,
    /// The last batch ended on a round that read nothing.
    stalled: Ghost<bool>,
    /// In the last batch, every round read as many levels of each kind asked for as
    /// it counted, and one value per defined level.
    aligned: Ghost<bool>,
}

impl<R: ColumnLevelDecoder, D: ColumnLevelDecoder, V: ColumnValueDecoder, P: PageReader> GenericColumnReader<
    R,
    D,
    V,
    P,
> {
    /// The decoded count stays within the page; a page with values has the level
    /// decoders that the column needs.
    pub closed spec fn wf(&self) -> bool {
        &&& self.num_decoded_values <= self.num_buffered_values
        &&& (self.num_buffered_values > 0 && self.descr.max_def_level > 0)
            ==> self.def_level_decoder is Some
        &&& (self.num_buffered_values > 0 && self.descr.max_rep_level > 0)
            ==> self.rep_level_decoder is Some
    }

    pub closed spec fn descriptor(&self) -> ColumnDescriptor {
        self.descr
    }

    /// Every definition level handed out so far, in order.
    pub closed spec fn def_history(&self) -> Seq<i16> {
        self.def_log@
    }

    /// Every repetition level handed out so far, in order.
    pub closed spec fn rep_history(&self) -> Seq<i16> {
        self.rep_log@
    }

    /// Every value handed out so far, in order.
    pub closed spec fn value_history(&self) -> Seq<V::Item> {
        self.values_decoder.consumed()
    }

    /// The page source had no page left when last asked.
    pub closed spec fn drained(&self) -> bool {
        self.drained@
    }

    /// The last batch ended on a round in which the decoders gave nothing.
    pub closed spec fn stalled(&self) -> bool {
        self.stalled@
    }

    /// In the last batch, no round read levels of one kind and none of the other; it
    /// always holds when a batch reads only one kind of levels.
    pub closed spec fn aligned(&self) -> bool {
        self.aligned@
    }

    /// The number of levels framed in the current data page (0 before the first).
    pub closed spec fn buffered(&self) -> nat {
        self.num_buffered_values as nat
    }

    /// The number of levels of the current data page read so far.
    pub closed spec fn decoded(&self) -> nat {
        self.num_decoded_values as nat
    }

    /// The data page now being read.
    pub closed spec fn current_page(&self) -> Option<Page> {
        self.current_page@
    }

    /// Whether level decoders have been set up.
    pub closed spec fn has_level_decoders(&self) -> (bool, bool) {
        (self.def_level_decoder is Some, self.rep_level_decoder is Some)
    }

    /// A reader of the column `descr` over the pages of `page_reader`.
    pub fn new(descr: ColumnDescriptor, page_reader: P) -> (r: Self)
        ensures
            r.wf(),
            r.descriptor() == descr,
            r.def_history().len() == 0,
            r.rep_history().len() == 0,
            r.value_history().len() == 0,
            r.buffered() == 0,
            r.decoded() == 0,
            r.has_level_decoders() == (false, false),
            !r.drained(),
    {
        let values_decoder = V::new(&descr);
        Self::new_with_decoder(descr, page_reader, values_decoder)
    }

    fn new_with_decoder(descr: ColumnDescriptor, page_reader: P, values_decoder: V) -> (r: Self)
        ensures
            r.wf(),
            r.descriptor() == descr,
            r.def_history().len() == 0,
            r.rep_history().len() == 0,
            r.value_history() == values_decoder.consumed(),
            r.buffered() == 0,
            r.decoded() == 0,
            r.has_level_decoders() == (false, false),
            !r.drained(),
    {
        GenericColumnReader {
            descr,
            page_reader,
            num_buffered_values: 0,
            num_decoded_values: 0,
            def_level_decoder: None,
            rep_level_decoder: None,
            values_decoder,
            def_log: Ghost(Seq::empty()),
            rep_log: Ghost(Seq::empty()),
            drained: Ghost(false),
            current_page: Ghost(None),
            stalled: Ghost(false),
            aligned: Ghost(true),
        }
    }

    /// Reads pages until a data page, installing dictionaries on the way, and sets up
    /// the decoders for it as `admit_page` splits it. Returns false when no page is
    /// left.
    fn read_new_page(&mut self) -> (r: Result<bool, ParquetError>)
        requires
            old(self).wf(),
        ensures
            final(self).wf(),
            final(self).descr == old(self).descr,
            final(self).def_log == old(self).def_log,
            final(self).rep_log == old(self).rep_log,
            final(self).stalled == old(self).stalled,
            final(self).aligned == old(self).aligned,
            final(self).values_decoder.consumed() == old(self).values_decoder.consumed(),
            r matches Ok(true) ==> {
                &&& final(self).num_decoded_values == 0
                &&& !final(self).drained@
                &&& data_page_values(final(self).current_page@.unwrap()) == Some(
                    final(self).num_buffered_values,
                )
                &&& final(self).current_page@ is Some
            },
            r matches Ok(false) ==> {
                &&& final(self).drained@
                &&& final(self).num_buffered_values == old(self).num_buffered_values
                &&& final(self).num_decoded_values == old(self).num_decoded_values
            },
    {
        loop
            invariant
                self.wf(),
                self.descr == old(self).descr,
                self.def_log == old(self).def_log,
                self.rep_log == old(self).rep_log,
                self.stalled == old(self).stalled,
                self.aligned == old(self).aligned,
                self.values_decoder.consumed() == old(self).values_decoder.consumed(),
                self.num_buffered_values == old(self).num_buffered_values,
                self.num_decoded_values == old(self).num_decoded_values,
            decreases self.page_reader.pages_left(),
        {
            let page = self.page_reader.get_next_page()?;
            match page {
                None => {
                    self.drained = Ghost(true);
                    return Ok(false);
                },
                Some(page) => {
                    let ghost gp = page;
                    let setup = admit_page(self.descr, page)?;
                    match setup {
                        PageSetup::Dictionary { buf, num_values, encoding, is_sorted } => {
                            self.values_decoder.set_dict(buf, num_values, encoding, is_sorted)?;
                        },
                        PageSetup::Data {
                            num_values,
                            encoding,
                            rep_levels,
                            rep_encoding,
                            def_levels,
                            def_encoding,
                            values,
                            non_null,
                        } => {
                            if let Some(b) = rep_levels {
                                self.rep_level_decoder = Some(
                                    R::new(self.descr.max_rep_level, rep_encoding, b),
                                );
                            }
                            if let Some(b) = def_levels {
                                self.def_level_decoder = Some(
                                    D::new(self.descr.max_def_level, def_encoding, b),
                                );
                            }
                            self.num_buffered_values = num_values;
                            self.num_decoded_values = 0;
                            self.current_page = Ghost(Some(gp));
                            self.drained = Ghost(false);
                            self.values_decoder.set_data(encoding, values, num_values as usize, non_null)?;
                            return Ok(true);
                        },
                    }
                },
            }
        }
    }

    /// Whether values remain in the current page, or a new page with values was loaded.
    fn has_next(&mut self) -> (r: Result<bool, ParquetError>)
        requires
            old(self).wf(),
        ensures
            final(self).wf(),
            final(self).descr == old(self).descr,
            final(self).def_log == old(self).def_log,
            final(self).rep_log == old(self).rep_log,
            final(self).stalled == old(self).stalled,
            final(self).aligned == old(self).aligned,
            final(self).values_decoder.consumed() == old(self).values_decoder.consumed(),
            old(self).num_decoded_values < old(self).num_buffered_values ==> (r matches Ok(true)
                && *final(self) == *old(self)),
            r matches Ok(b) ==> b == (final(self).num_decoded_values < final(self).num_buffered_values),
            r matches Ok(false) ==> final(self).drained@ || final(self).num_buffered_values == 0,
    {
        if self.num_buffered_values == 0 || self.num_buffered_values == self.num_decoded_values {
            if !self.read_new_page()? {
                Ok(false)
            } else {
                Ok(self.num_buffered_values != 0)
            }
        } else {
            Ok(true)
        }
    }

    /// One round of a batch: reads up to `iter` levels of each kind asked for, and
    /// asks the value decoder for `iter` less the nulls among the definition levels
    /// read, at `values_read` and `levels_read` in the buffers. Returns the values
    /// read, the levels the round took, and the definition and repetition levels read.
    fn read_round(
        &mut self,
        iter: usize,
        values_read: usize,
        levels_read: usize,
        def_levels: &mut Vec<i16>,
        read_def: bool,
        rep_levels: &mut Vec<i16>,
        read_rep: bool,
        values: &mut Vec<V::Item>,
    ) -> (r: Result<(usize, usize, usize, usize), ParquetError>)
        requires
            old(self).wf(),
            old(self).num_buffered_values > 0,
            old(self).num_decoded_values + iter <= old(self).num_buffered_values,
            read_def ==> old(self).descr.max_def_level > 0,
            read_rep ==> old(self).descr.max_rep_level > 0,
            values_read + iter <= old(values)@.len(),
            read_def ==> levels_read + iter <= old(def_levels)@.len(),
            read_rep ==> levels_read + iter <= old(rep_levels)@.len(),
        ensures
            final(self).wf(),
            final(self).descr == old(self).descr,
            final(self).drained == old(self).drained,
            final(self).stalled == old(self).stalled,
            final(self).aligned == old(self).aligned,
            final(values)@.len() == old(values)@.len(),
            final(def_levels)@.len() == old(def_levels)@.len(),
            final(rep_levels)@.len() == old(rep_levels)@.len(),
            !read_def ==> final(def_levels)@ == old(def_levels)@ && final(self).def_log == old(self).def_log,
            !read_rep ==> final(rep_levels)@ == old(rep_levels)@ && final(self).rep_log == old(self).rep_log,
            r matches Ok((cv, cl, nd, nr)) ==> {
                &&& nd <= iter && nr <= iter
                &&& (!read_def ==> nd == 0) && (!read_rep ==> nr == 0)
                &&& cl == if nd > nr {
                    nd
                } else {
                    nr
                }
                &&& !(read_def && read_rep && nd != 0 && nr != 0 && nd != nr)
                &&& cv <= iter - (if read_def {
                    count_null(final(def_levels)@.subrange(levels_read as int, levels_read + nd), old(self).descr.max_def_level)
                } else {
                    0
                })
                &&& read_def ==> cv == count_defined(
                    final(def_levels)@.subrange(levels_read as int, levels_read + nd),
                    old(self).descr.max_def_level,
                )
                &&& final(self).num_decoded_values == old(self).num_decoded_values + (if cl > cv {
                    cl
                } else {
                    cv
                })
                &&& final(self).num_buffered_values == old(self).num_buffered_values
                &&& final(values)@.take(values_read as int) == old(values)@.take(values_read as int)
                &&& final(self).values_decoder.consumed() == old(self).values_decoder.consumed()
                    + final(values)@.subrange(values_read as int, values_read + cv)
                &&& read_def ==> {
                    &&& final(def_levels)@.take(levels_read as int) == old(def_levels)@.take(levels_read as int)
                    &&& final(self).def_log@ == old(self).def_log@ + final(def_levels)@.subrange(
                        levels_read as int,
                        levels_read + nd,
                    )
                }
                &&& read_rep ==> {
                    &&& final(rep_levels)@.take(levels_read as int) == old(rep_levels)@.take(levels_read as int)
                    &&& final(self).rep_log@ == old(self).rep_log@ + final(rep_levels)@.subrange(
                        levels_read as int,
                        levels_read + nr,
                    )
                }
            },
    {
        let max_def = self.descr.max_def_level;
        let ghost defs_before = def_levels@;
        let ghost reps_before = rep_levels@;
        let ghost vals_before = values@;
        let mut num_def_levels: usize = 0;
        let mut null_count: usize = 0;
        let def_len = def_levels.len();
        if read_def {
            let dec = self.def_level_decoder.as_mut().unwrap();
            num_def_levels = dec.read(def_levels, levels_read, iter)?;
            assert(levels_read + num_def_levels <= def_len);
            null_count = count_nulls(def_levels, levels_read, levels_read + num_def_levels, max_def);
        }
        let mut num_rep_levels: usize = 0;
        if read_rep {
            let dec = self.rep_level_decoder.as_mut().unwrap();
            num_rep_levels = dec.read(rep_levels, levels_read, iter)?;
        }
        let curr_levels_read = check_levels(read_def, read_rep, num_def_levels, num_rep_levels)?;
        let values_to_read = iter - null_count;
        let curr_values_read = self.values_decoder.read(values, values_read, values_to_read)?;
        check_values(read_def, num_def_levels, null_count, curr_values_read)?;
        proof {
            lemma_segment(vals_before, values@, values_read as int, curr_values_read as int);
            if read_def {
                lemma_segment(defs_before, def_levels@, levels_read as int, num_def_levels as int);
                let dseg = def_levels@.subrange(levels_read as int, levels_read + num_def_levels);
                lemma_count_split(dseg, max_def);
                self.def_log = Ghost(self.def_log@ + dseg);
            }
            if read_rep {
                lemma_segment(reps_before, rep_levels@, levels_read as int, num_rep_levels as int);
                let rseg = rep_levels@.subrange(levels_read as int, levels_read + num_rep_levels);
                self.rep_log = Ghost(self.rep_log@ + rseg);
            }
        }
        let advanced = if curr_levels_read > curr_values_read {
            curr_levels_read
        } else {
            curr_values_read
        };
        self.num_decoded_values = self.num_decoded_values + advanced as u32;
        Ok((curr_values_read, curr_levels_read, num_def_levels, num_rep_levels))
    }

    /// The state of a batch after `vr` values and `lr` levels: the value history
    /// continues with the values read; buffers not read into are untouched; and while
    /// aligned, the level histories continue with the levels read, and the values read
    /// are the defined levels read.
    spec fn batch_state(
        &self,
        cap: nat,
        vr: nat,
        lr: nat,
        read_def: bool,
        read_rep: bool,
        defs: Seq<i16>,
        reps: Seq<i16>,
        vals: Seq<V::Item>,
        consumed0: Seq<V::Item>,
        def0: Seq<i16>,
        rep0: Seq<i16>,
        defs0: Seq<i16>,
        reps0: Seq<i16>,
    ) -> bool {
        &&& self.wf()
        &&& vr <= cap && lr <= cap
        &&& cap <= vals.len()
        &&& read_def ==> cap <= defs.len() && self.descr.max_def_level > 0
        &&& read_rep ==> cap <= reps.len() && self.descr.max_rep_level > 0
        &&& !read_def ==> defs == defs0 && self.def_log@ == def0
        &&& !read_rep ==> reps == reps0 && self.rep_log@ == rep0
        &&& self.values_decoder.consumed() == consumed0 + vals.take(vr as int)
        &&& (self.aligned@ && read_def) ==> self.def_log@ == def0 + defs.take(lr as int) && vr
            == count_defined(defs.take(lr as int), self.descr.max_def_level)
        &&& (self.aligned@ && read_rep) ==> self.rep_log@ == rep0 + reps.take(lr as int)
        &&& (!read_def && !read_rep) ==> lr == 0
        &&& !(read_def && read_rep) ==> self.aligned@
    }

    /// One round of a batch, from its state after `values_read` values and
    /// `levels_read` levels: `None` when the batch must stop here (no page with
    /// values is left, or the round read nothing), else the new counts.
    #[verifier::rlimit(100)]
    fn batch_round(
        &mut self,
        cap: usize,
        values_read: usize,
        levels_read: usize,
        def_levels: &mut Vec<i16>,
        read_def: bool,
        rep_levels: &mut Vec<i16>,
        read_rep: bool,
        values: &mut Vec<V::Item>,
        Ghost(consumed0): Ghost<Seq<V::Item>>,
        Ghost(def0): Ghost<Seq<i16>>,
        Ghost(rep0): Ghost<Seq<i16>>,
        Ghost(defs0): Ghost<Seq<i16>>,
        Ghost(reps0): Ghost<Seq<i16>>,
    ) -> (r: Result<Option<(usize, usize)>, ParquetError>)
        requires
            values_read < cap,
            levels_read < cap,
            old(self).batch_state(
                cap as nat,
                values_read as nat,
                levels_read as nat,
                read_def,
                read_rep,
                old(def_levels)@,
                old(rep_levels)@,
                old(values)@,
                consumed0,
                def0,
                rep0,
                defs0,
                reps0,
            ),
        ensures
            final(self).wf(),
            final(self).descr == old(self).descr,
            final(values)@.len() == old(values)@.len(),
            final(def_levels)@.len() == old(def_levels)@.len(),
            final(rep_levels)@.len() == old(rep_levels)@.len(),
            r matches Ok(Some((vr, lr))) ==> final(self).batch_state(
                cap as nat,
                vr as nat,
                lr as nat,
                read_def,
                read_rep,
                final(def_levels)@,
                final(rep_levels)@,
                final(values)@,
                consumed0,
                def0,
                rep0,
                defs0,
                reps0,
            ) && vr + lr > values_read + levels_read,
            r matches Ok(None) ==> final(self).batch_state(
                cap as nat,
                values_read as nat,
                levels_read as nat,
                read_def,
                read_rep,
                final(def_levels)@,
                final(rep_levels)@,
                final(values)@,
                consumed0,
                def0,
                rep0,
                defs0,
                reps0,
            ) && (final(self).drained@ || final(self).num_buffered_values == 0
                || final(self).stalled@),
    {
        let max_def = self.descr.max_def_level;
        if !self.has_next()? {
            return Ok(None);
        }
        let remaining = (self.num_buffered_values - self.num_decoded_values) as usize;
        let mut iter = if cap < remaining {
            cap
        } else {
            remaining
        };
        if cap - values_read < iter {
            iter = cap - values_read;
        }
        if cap - levels_read < iter {
            iter = cap - levels_read;
        }
        let ghost vals_before = values@;
        let ghost defs_before = def_levels@;
        let ghost reps_before = rep_levels@;
        let ghost was_aligned = self.aligned@;
        let (cv, cl, nd, nr) = self.read_round(
            iter,
            values_read,
            levels_read,
            def_levels,
            read_def,
            rep_levels,
            read_rep,
            values,
        )?;
        let ghost round_ok = (read_def ==> nd == cl && cv == count_defined(
            def_levels@.subrange(levels_read as int, levels_read + cl),
            max_def,
        )) && (read_rep ==> nr == cl);
        proof {
            lemma_extend(consumed0, vals_before, values@, values_read as int, cv as int);
            if was_aligned && round_ok && read_def {
                lemma_def_round(
                    def0,
                    defs_before,
                    def_levels@,
                    levels_read as int,
                    cl as int,
                    values_read as int,
                    cv as int,
                    max_def,
                );
            }
            if was_aligned && round_ok && read_rep {
                lemma_extend(rep0, reps_before, rep_levels@, levels_read as int, cl as int);
            }
            self.aligned = Ghost(was_aligned && round_ok);
        }
        if cv == 0 && cl == 0 {
            proof {
                self.stalled = Ghost(true);
            }
            return Ok(None);
        }
        Ok(Some((values_read + cv, levels_read + cl)))
    }

    /// Reads levels and values into plain buffers; `use_def` and `use_rep` say whether
    /// the caller asked for definition and repetition levels.
    fn read_buffers(
        &mut self,
        cap: usize,
        def_levels: &mut Vec<i16>,
        use_def: bool,
        rep_levels: &mut Vec<i16>,
        use_rep: bool,
        values: &mut Vec<V::Item>,
    ) -> (r: Result<(usize, usize), ParquetError>)
        requires
            old(self).wf(),
            cap <= old(values)@.len(),
            use_def ==> cap <= old(def_levels)@.len(),
            use_rep ==> cap <= old(rep_levels)@.len(),
        ensures
            final(self).wf(),
            final(self).descr == old(self).descr,
            final(values)@.len() == old(values)@.len(),
            final(def_levels)@.len() == old(def_levels)@.len(),
            final(rep_levels)@.len() == old(rep_levels)@.len(),
            cap == 0 ==> r == Ok::<(usize, usize), ParquetError>((0, 0)),
            r matches Ok((vr, lr)) ==> {
                &&& !(use_def && old(self).descr.max_def_level > 0) ==> final(def_levels)@ == old(
                    def_levels,
                )@ && final(self).def_log@ == old(self).def_log@
                &&& !(use_rep && old(self).descr.max_rep_level > 0) ==> final(rep_levels)@ == old(
                    rep_levels,
                )@ && final(self).rep_log@ == old(self).rep_log@
                &&& vr <= cap
                &&& lr <= cap
                &&& vr == cap || lr == cap || final(self).drained@ || final(self).num_buffered_values == 0
                    || final(self).stalled@
                &&& final(self).values_decoder.consumed() == old(self).values_decoder.consumed()
                    + final(values)@.take(vr as int)
                &&& (final(self).aligned@ && use_def && old(self).descr.max_def_level > 0) ==> {
                    &&& final(self).def_log@ == old(self).def_log@ + final(def_levels)@.take(lr as int)
                    &&& vr == count_defined(final(def_levels)@.take(lr as int), old(self).descr.max_def_level)
                }
                &&& (final(self).aligned@ && use_rep && old(self).descr.max_rep_level > 0) ==> final(self).rep_log@
                    == old(self).rep_log@ + final(rep_levels)@.take(lr as int)
                &&& (!(use_def && old(self).descr.max_def_level > 0) && !(use_rep && old(self).descr.max_rep_level > 0)) ==> lr == 0
                &&& !(use_def && old(self).descr.max_def_level > 0 && use_rep && old(self).descr.max_rep_level > 0)
                    ==> final(self).aligned@
            },
    {
        let ghost consumed0 = self.values_decoder.consumed();
        let ghost def0 = self.def_log@;
        let ghost rep0 = self.rep_log@;
        let ghost defs0 = def_levels@;
        let ghost reps0 = rep_levels@;
        let read_def = use_def && self.descr.max_def_level > 0;
        let read_rep = use_rep && self.descr.max_rep_level > 0;
        proof {
            self.stalled = Ghost(false);
            self.aligned = Ghost(true);
            assert(values@.take(0) =~= Seq::<V::Item>::empty());
            assert(def_levels@.take(0) =~= Seq::<i16>::empty());
            assert(rep_levels@.take(0) =~= Seq::<i16>::empty());
            assert(consumed0 + values@.take(0) =~= consumed0);
            assert(def0 + def_levels@.take(0) =~= def0);
            assert(rep0 + rep_levels@.take(0) =~= rep0);
        }
        let mut values_read: usize = 0;
        let mut levels_read: usize = 0;
        loop
            invariant
                self.descr == old(self).descr,
                read_def == (use_def && self.descr.max_def_level > 0),
                read_rep == (use_rep && self.descr.max_rep_level > 0),
                values@.len() == old(values)@.len(),
                def_levels@.len() == old(def_levels)@.len(),
                rep_levels@.len() == old(rep_levels)@.len(),
                self.batch_state(
                    cap as nat,
                    values_read as nat,
                    levels_read as nat,
                    read_def,
                    read_rep,
                    def_levels@,
                    rep_levels@,
                    values@,
                    consumed0,
                    def0,
                    rep0,
                    defs0,
                    reps0,
                ),
                cap == 0 ==> values_read == 0 && levels_read == 0,
            ensures
                values_read >= cap || levels_read >= cap || self.drained@ || self.num_buffered_values
                    == 0 || self.stalled@,
            decreases (cap - values_read) + (cap - levels_read),
        {
            if values_read >= cap || levels_read >= cap {
                break;
            }
            match self.batch_round(
                cap,
                values_read,
                levels_read,
                def_levels,
                read_def,
                rep_levels,
                read_rep,
                values,
                Ghost(consumed0),
                Ghost(def0),
                Ghost(rep0),
                Ghost(defs0),
                Ghost(reps0),
            )? {
                None => {
                    break;
                },
                Some((vr, lr)) => {
                    values_read = vr;
                    levels_read = lr;
                },
            }
        }
        Ok((values_read, levels_read))
    }

    /// Reads a batch of at most `batch_size` values and levels, bounded also by the
    /// lengths of the buffers given. Values are dense: one per non-null slot; where
    /// definition levels are read, null slots show only there. Returns the numbers of
    /// values and of levels read.
    ///
    /// A batch stops early only when the page source is drained, when the next page
    /// frames no levels, or when a round reads nothing. The levels handed out continue
    /// the histories, and the values read are the defined levels read; where both kinds
    /// of levels are read, this holds unless a round got levels of one kind and none of
    /// the other (`aligned`), which well-formed pages never cause.
    pub fn read_batch(
        &mut self,
        batch_size: usize,
        def_levels: Option<&mut Vec<i16>>,
        rep_levels: Option<&mut Vec<i16>>,
        values: &mut Vec<V::Item>,
    ) -> (r: Result<(usize, usize), ParquetError>)
        requires
            old(self).wf(),
        ensures
            final(self).wf(),
            final(self).descriptor() == old(self).descriptor(),
            final(values)@.len() == old(values)@.len(),
            def_levels matches Some(d) ==> final(d)@.len() == d@.len(),
            rep_levels matches Some(d) ==> final(d)@.len() == d@.len(),
            batch_cap(
                batch_size as nat,
                old(values)@.len(),
                match def_levels {
                    Some(d) => Some(d@.len()),
                    None => None,
                },
                match rep_levels {
                    Some(d) => Some(d@.len()),
                    None => None,
                },
            ) == 0 ==> r == Ok::<(usize, usize), ParquetError>((0, 0)),
            r matches Ok((vr, lr)) ==> {
                let cap = batch_cap(
                    batch_size as nat,
                    old(values)@.len(),
                    match def_levels {
                        Some(d) => Some(d@.len()),
                        None => None,
                    },
                    match rep_levels {
                        Some(d) => Some(d@.len()),
                        None => None,
                    },
                );
                &&& def_levels matches Some(d) ==> (old(self).descriptor().max_def_level <= 0 ==> final(d)@
                    == d@)
                &&& rep_levels matches Some(d) ==> (old(self).descriptor().max_rep_level <= 0 ==> final(d)@
                    == d@)
                &&& vr <= cap && lr <= cap
                &&& vr == cap || lr == cap || final(self).drained() || final(self).buffered() == 0
                    || final(self).stalled()
                &&& final(self).value_history() == old(self).value_history() + final(values)@.take(
                    vr as int,
                )
                &&& def_levels matches Some(d) ==> ((final(self).aligned()
                    && old(self).descriptor().max_def_level > 0) ==> {
                    &&& final(self).def_history() == old(self).def_history() + final(d)@.take(lr as int)
                    &&& vr == count_defined(final(d)@.take(lr as int), old(self).descriptor().max_def_level)
                })
                &&& (def_levels is None || old(self).descriptor().max_def_level <= 0)
                    ==> final(self).def_history() == old(self).def_history()
                &&& rep_levels matches Some(d) ==> ((final(self).aligned()
                    && old(self).descriptor().max_rep_level > 0) ==> final(self).rep_history()
                    == old(self).rep_history() + final(d)@.take(lr as int))
                &&& (rep_levels is None || old(self).descriptor().max_rep_level <= 0)
                    ==> final(self).rep_history() == old(self).rep_history()
                &&& ((def_levels is None || old(self).descriptor().max_def_level <= 0) && (rep_levels
                    is None || old(self).descriptor().max_rep_level <= 0)) ==> lr == 0
                &&& (def_levels is None || old(self).descriptor().max_def_level <= 0 || rep_levels is None
                    || old(self).descriptor().max_rep_level <= 0) ==> final(self).aligned()
            },
    {
        let mut cap = if batch_size < values.len() {
            batch_size
        } else {
            values.len()
        };
        let mut no_def: Vec<i16> = Vec::new();
        let mut no_rep: Vec<i16> = Vec::new();
        match def_levels {
            Some(d) => {
                if d.len() < cap {
                    cap = d.len();
                }
                match rep_levels {
                    Some(rl) => {
                        if rl.len() < cap {
                            cap = rl.len();
                        }
                        self.read_buffers(cap, d, true, rl, true, values)
                    },
                    None => self.read_buffers(cap, d, true, &mut no_rep, false, values),
                }
            },
            None => {
                match rep_levels {
                    Some(rl) => {
                        if rl.len() < cap {
                            cap = rl.len();
                        }
                        self.read_buffers(cap, &mut no_def, false, rl, true, values)
                    },
                    None => self.read_buffers(cap, &mut no_def, false, &mut no_rep, false, values),
                }
            },
        }
    }
}

/// A column reader, tagged with the physical type of its column.
pub enum ColumnReader<R, D, V, P> {
    BoolColumnReader(GenericColumnReader<R, D, V, P>),
    Int32ColumnReader(GenericColumnReader<R, D, V, P>),
    Int64ColumnReader(GenericColumnReader<R, D, V, P>),
    Int96ColumnReader(GenericColumnReader<R, D, V, P>),
    FloatColumnReader(GenericColumnReader<R, D, V, P>),
    DoubleColumnReader(GenericColumnReader<R, D, V, P>),
    ByteArrayColumnReader(GenericColumnReader<R, D, V, P>),
    FixedLenByteArrayColumnReader(GenericColumnReader<R, D, V, P>),
}

impl<R, D, V, P> ColumnReader<R, D, V, P> {
    /// The reader inside.
    pub open spec fn inner(&self) -> GenericColumnReader<R, D, V, P> {
        match self {
            ColumnReader::BoolColumnReader(r) => *r,
            ColumnReader::Int32ColumnReader(r) => *r,
            ColumnReader::Int64ColumnReader(r) => *r,
            ColumnReader::Int96ColumnReader(r) => *r,
            ColumnReader::FloatColumnReader(r) => *r,
            ColumnReader::DoubleColumnReader(r) => *r,
            ColumnReader::ByteArrayColumnReader(r) => *r,
            ColumnReader::FixedLenByteArrayColumnReader(r) => *r,
        }
    }

    /// The physical type that the variant stands for.
    pub open spec fn physical_type(&self) -> PhysicalType {
        match self {
            ColumnReader::BoolColumnReader(_) => PhysicalType::Boolean,
            ColumnReader::Int32ColumnReader(_) => PhysicalType::Int32,
            ColumnReader::Int64ColumnReader(_) => PhysicalType::Int64,
            ColumnReader::Int96ColumnReader(_) => PhysicalType::Int96,
            ColumnReader::FloatColumnReader(_) => PhysicalType::Float,
            ColumnReader::DoubleColumnReader(_) => PhysicalType::Double,
            ColumnReader::ByteArrayColumnReader(_) => PhysicalType::ByteArray,
            ColumnReader::FixedLenByteArrayColumnReader(_) => PhysicalType::FixedLenByteArray,
        }
    }
}

/// A column reader for `col_descr` over the pages of `col_page_reader`, tagged with
/// the column's physical type.
pub fn get_column_reader<R: ColumnLevelDecoder, D: ColumnLevelDecoder, V: ColumnValueDecoder, P: PageReader>(
    col_descr: ColumnDescriptor,
    col_page_reader: P,
) -> (r: ColumnReader<R, D, V, P>)
    ensures
        r.physical_type() == col_descr.physical_type,
        r.inner().wf(),
        r.inner().descriptor() == col_descr,
        r.inner().def_history().len() == 0,
        r.inner().rep_history().len() == 0,
        r.inner().value_history().len() == 0,
{
    let reader = GenericColumnReader::new(col_descr, col_page_reader);
    match col_descr.physical_type {
        PhysicalType::Boolean => ColumnReader::BoolColumnReader(reader),
        PhysicalType::Int32 => ColumnReader::Int32ColumnReader(reader),
        PhysicalType::Int64 => ColumnReader::Int64ColumnReader(reader),
        PhysicalType::Int96 => ColumnReader::Int96ColumnReader(reader),
        PhysicalType::Float => ColumnReader::FloatColumnReader(reader),
        PhysicalType::Double => ColumnReader::DoubleColumnReader(reader),
        PhysicalType::ByteArray => ColumnReader::ByteArrayColumnReader(reader),
        PhysicalType::FixedLenByteArray => ColumnReader::FixedLenByteArrayColumnReader(reader),
    }
}

/// The typed reader inside a tagged column reader.
pub fn get_typed_column_reader<R, D, V, P>(col_reader: ColumnReader<R, D, V, P>) -> (r:
    GenericColumnReader<R, D, V, P>)
    ensures
        r == col_reader.inner(),
{
    match col_reader {
        ColumnReader::BoolColumnReader(r) => r,
        ColumnReader::Int32ColumnReader(r) => r,
        ColumnReader::Int64ColumnReader(r) => r,
        ColumnReader::Int96ColumnReader(r) => r,
        ColumnReader::FloatColumnReader(r) => r,
        ColumnReader::DoubleColumnReader(r) => r,
        ColumnReader::ByteArrayColumnReader(r) => r,
        ColumnReader::FixedLenByteArrayColumnReader(r) => r,
    }
}

} // verus!
