//! A value decoder for PLAIN-encoded `INT32` columns: four little-endian bytes per value.
use vstd::prelude::*;
use crate::column::{le_i32, ColumnDescriptor, ColumnValueDecoder, Encoding};
use crate::error::ParquetError;

verus! {

/// The `i32` values that PLAIN encoding writes in `bytes`, four bytes each; trailing
/// bytes that do not fill a value are ignored.
pub open spec fn plain_i32s(bytes: Seq<u8>) -> Seq<i32> {
    Seq::new(
        bytes.len() / 4,
        |i: int| le_i32(bytes[4 * i], bytes[4 * i + 1], bytes[4 * i + 2], bytes[4 * i + 3]) as i32,
    )
}

pub open spec fn unsupported_encoding_message() -> Seq<char> {
    "encoding not supported by the PLAIN decoder"@
}

/// Decodes PLAIN-encoded `INT32` pages.
pub struct PlainInt32Decoder {
    values: Vec<i32>,
    pos: usize,
    read_so_far: Ghost<Seq<i32>>,
}

impl PlainInt32Decoder {
    /// The values of the current page not read yet.
    pub closed spec fn pending(&self) -> Seq<i32> {
        self.values@.skip(self.pos as int)
    }

    #[verifier::type_invariant]
    spec fn wf(&self) -> bool {
        self.pos <= self.values@.len()
    }
}

fn decode_le_i32(b0: u8, b1: u8, b2: u8, b3: u8) -> (r: i32)
    ensures
        r as int == le_i32(b0, b1, b2, b3),
{
    let u: i64 = b0 as i64 + 256 * b1 as i64 + 65536 * b2 as i64 + 16777216 * b3 as i64;
    let v: i64 = if u >= 0x8000_0000 {
        u - 0x1_0000_0000
    } else {
        u
    };
    v as i32
}

impl ColumnValueDecoder for PlainInt32Decoder {
    type Item = i32;

    closed spec fn consumed(&self) -> Seq<i32> {
        self.read_so_far@
    }

    fn new(descr: &ColumnDescriptor) -> (r: Self) {
        PlainInt32Decoder { values: Vec::new(), pos: 0, read_so_far: Ghost(Seq::empty()) }
    }

    /// Dictionaries are not part of PLAIN encoding.
    fn set_dict(&mut self, buf: Vec<u8>, num_values: u32, encoding: Encoding, is_sorted: bool) -> (r:
        Result<(), ParquetError>) {
        proof {
            reveal_strlit("encoding not supported by the PLAIN decoder");
        }
        Err(ParquetError::General("encoding not supported by the PLAIN decoder".to_string()))
    }

    fn set_data(
        &mut self,
        encoding: Encoding,
        data: Vec<u8>,
        num_levels: usize,
        num_values: Option<usize>,
    ) -> (r: Result<(), ParquetError>) {
        if encoding != Encoding::Plain {
            proof {
                reveal_strlit("encoding not supported by the PLAIN decoder");
            }
            return Err(ParquetError::General("encoding not supported by the PLAIN decoder".to_string()));
        }
        let dl = data.len();
        let n = dl / 4;
        let mut values: Vec<i32> = Vec::new();
        let mut i: usize = 0;
        while i < n
            invariant
                i <= n,
                dl == data@.len(),
                n == data@.len() / 4,
                values@ == plain_i32s(data@).take(i as int),
            decreases n - i,
        {
            assert(4 * i + 3 < dl) by (nonlinear_arith)
                requires
                    i < n,
                    n == dl / 4,
            ;
            let v = decode_le_i32(data[4 * i], data[4 * i + 1], data[4 * i + 2], data[4 * i + 3]);
            values.push(v);
            i += 1;
            assert(values@ =~= plain_i32s(data@).take(i as int));
        }
        assert(values@ =~= plain_i32s(data@));
        let ghost so_far = self.read_so_far@;
        *self = PlainInt32Decoder { values, pos: 0, read_so_far: Ghost(so_far) };
        Ok(())
    }

    fn read(&mut self, out: &mut Vec<i32>, start: usize, len: usize) -> (r: Result<usize, ParquetError>) {
        let ghost before = out@;
        let ol = out.len();
        proof {
            use_type_invariant(&*self);
        }
        let vl = self.values.len();
        let avail = vl - self.pos;
        let n = if len < avail {
            len
        } else {
            avail
        };
        let mut j: usize = 0;
        while j < n
            invariant
                j <= n,
                n <= len,
                ol == before.len(),
                vl == self.values@.len(),
                start + len <= before.len(),
                self.pos + n <= self.values@.len(),
                out@.len() == before.len(),
                out@.take(start as int) == before.take(start as int),
                out@.skip(start + n) == before.skip(start + n),
                forall|q: int| 0 <= q < j ==> #[trigger] out@[start + q] == self.values@[self.pos + q],
            decreases n - j,
        {
            out.set(start + j, self.values[self.pos + j]);
            j += 1;
            assert(out@.take(start as int) =~= before.take(start as int));
            assert(out@.skip(start + n) =~= before.skip(start + n));
        }
        let ghost seg = out@.subrange(start as int, start + n);
        assert(out@ =~= before.take(start as int) + seg + before.skip(start + n));
        proof {
            self.read_so_far = Ghost(self.read_so_far@ + seg);
        }
        self.pos = self.pos + n;
        Ok(n)
    }
}

} // verus!
