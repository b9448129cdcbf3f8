//! The take kernel: gathers the slots of an array at the positions of an index array.
use vstd::prelude::*;
use std::sync::Arc;
use crate::array::{
    fits_type, gather, lemma_gather_compose, max_offset, offsets_wf, valid_in, validity_wf, Array, BooleanArray, BytesArray, BytesKind,
    DictionaryArray,
    FixedSizeBinaryArray, FixedSizeListArray, ListArray, NullArray, PrimitiveArray, StructArray,
    Value,
};
use crate::bitmap::Bitmap;
use crate::error::{decimal, decimal_string, ArrowError};
use vstd::string::StringExecFns;

verus! {

/// Options of `take`.
#[derive(Clone, Copy, Debug, Default)]
pub struct TakeOptions {
    /// Check every index against the length of the values before taking.
    pub check_bounds: bool,
}

/// A validity bitmap is present only where some slot is null.
pub open spec fn validity_minimal(v: Option<Bitmap>, n: nat) -> bool {
    v is Some ==> exists|k: int| 0 <= k < n && !#[trigger] valid_in(v, k)
}

/// The index converts to a host-sized unsigned integer.
pub open spec fn castable_at(i: Option<int>) -> bool {
    match i {
        Some(x) => 0 <= x <= usize::MAX,
        None => true,
    }
}

/// Every non-null index converts to a host-sized unsigned integer.
pub open spec fn castable(idx: Seq<Option<int>>) -> bool {
    forall|k: int| 0 <= k < idx.len() ==> castable_at(#[trigger] idx[k])
}

/// Every non-null, non-negative index is below `len`.
pub open spec fn in_reach(idx: Seq<Option<int>>, len: int) -> bool {
    forall|k: int|
        0 <= k < idx.len() ==> match #[trigger] idx[k] {
            Some(x) => x >= 0 ==> x < len,
            None => true,
        }
}

pub open spec fn cast_message() -> Seq<char> {
    "Cast to usize failed"@
}

pub open spec fn is_cast_error(e: ArrowError) -> bool {
    e.message_spec() == cast_message() && e is ComputeError
}

/// Converts an index to a host-sized unsigned integer.
pub fn maybe_usize(index: i128) -> (r: Result<usize, ArrowError>)
    ensures
        r is Ok <==> castable_at(Some(index as int)),
        r matches Ok(u) ==> u == index,
        r matches Err(e) ==> is_cast_error(e),
{
    if index < 0 || index > usize::MAX as i128 {
        Err(cast_error())
    } else {
        Ok(index as usize)
    }
}

fn cast_error() -> (e: ArrowError)
    ensures
        is_cast_error(e),
{
    proof {
        reveal_strlit("Cast to usize failed");
    }
    ArrowError::ComputeError("Cast to usize failed".to_string())
}

/// Whether slot `i` is valid under an optional bitmap.
pub fn valid_at(v: &Option<Bitmap>, i: usize) -> (r: bool)
    requires
        v matches Some(b) ==> b.wf() && i < b@.len(),
    ensures
        r == valid_in(*v, i as int),
{
    match v {
        Some(b) => b.get(i),
        None => true,
    }
}

/// The index at slot `k`, known to be non-null and convertible.
fn index_at(indices: &PrimitiveArray, k: usize) -> (r: usize)
    requires
        indices.wf(),
        k < indices.values@.len(),
        castable(indices.index_view()),
        indices.index_view()[k as int] is Some,
    ensures
        r as int == indices.index_view()[k as int]->0,
{
    assert(castable_at(indices.index_view()[k as int]));
    indices.values[k] as usize
}

/// The validity of the gathered array: slot `k` is valid iff index `k` is non-null
/// and the values are valid at it. Fails iff an index does not convert.
pub fn take_validity(values_validity: &Option<Bitmap>, len: usize, indices: &PrimitiveArray) -> (r:
    Result<Option<Bitmap>, ArrowError>)
    requires
        validity_wf(*values_validity, len as nat),
        indices.wf(),
        in_reach(indices.index_view(), len as int),
    ensures
        r is Ok <==> castable(indices.index_view()),
        r matches Err(e) ==> is_cast_error(e),
        r matches Ok(v) ==> validity_minimal(v, indices.values@.len()),
        r matches Ok(v) ==> {
            &&& validity_wf(v, indices.values@.len())
            &&& forall|k: int|
                0 <= k < indices.values@.len() ==> #[trigger] valid_in(v, k) == (match indices.index_view()[k] {
                    Some(i) => valid_in(*values_validity, i),
                    None => false,
                })
        },
{
    let n = indices.values.len();
    let ghost idx = indices.index_view();
    if values_validity.is_none() && indices.validity.is_none() {
        let mut k: usize = 0;
        while k < n
            invariant
                k <= n,
                n == idx.len(),
                idx == indices.index_view(),
                indices.wf(),
                indices.validity is None,
                forall|t: int| 0 <= t < k ==> castable_at(#[trigger] idx[t]),
            decreases n - k,
        {
            let x = maybe_usize(indices.values[k]);
            assert(idx[k as int] == Some(indices.values@[k as int] as int));
            if x.is_err() {
                assert(!castable_at(idx[k as int]));
                return Err(cast_error());
            }
            k += 1;
        }
        Ok(None)
    } else {
        let mut bm = Bitmap::new(n, true);
        let mut any_null = false;
        let ghost mut null_at: int = 0;
        let mut k: usize = 0;
        while k < n
            invariant
                k <= n,
                n == idx.len(),
                idx == indices.index_view(),
                indices.wf(),
                validity_wf(*values_validity, len as nat),
                in_reach(idx, len as int),
                bm.wf(),
                bm@.len() == n,
                forall|t: int| 0 <= t < k ==> castable_at(#[trigger] idx[t]),
                forall|t: int|
                    0 <= t < k ==> #[trigger] bm@[t] == (match idx[t] {
                        Some(i) => valid_in(*values_validity, i),
                        None => false,
                    }),
                forall|t: int| k <= t < n ==> #[trigger] bm@[t],
                any_null ==> 0 <= null_at < k && !bm@[null_at],
                !any_null ==> forall|t: int| 0 <= t < k ==> #[trigger] bm@[t],
            decreases n - k,
        {
            if !valid_at(&indices.validity, k) {
                bm.set(k, false);
                any_null = true;
                proof {
                    null_at = k as int;
                }
            } else {
                let x = maybe_usize(indices.values[k]);
                assert(idx[k as int] == Some(indices.values@[k as int] as int));
                match x {
                    Err(_) => {
                        assert(!castable_at(idx[k as int]));
                        return Err(cast_error());
                    },
                    Ok(ix) => {
                        assert(ix < len);
                        if !valid_at(values_validity, ix) {
                            bm.set(k, false);
                            any_null = true;
                            proof {
                                null_at = k as int;
                            }
                        }
                    },
                }
            }
            k += 1;
        }
        if !any_null {
            assert forall|t: int| 0 <= t < n implies #[trigger] valid_in(None, t) == (match idx[t] {
                Some(i) => valid_in(*values_validity, i),
                None => false,
            }) by {
                assert(bm@[t]);
            }
            return Ok(None);
        }
        assert(!bm@[null_at]);
        assert(!valid_in(Some(bm), null_at));
        Ok(Some(bm))
    }
}

/// Gathers a primitive array.
pub fn take_primitive(values: &PrimitiveArray, indices: &PrimitiveArray) -> (r: Result<
    PrimitiveArray,
    ArrowError,
>)
    requires
        values.wf(),
        indices.wf(),
        in_reach(indices.index_view(), values.values@.len() as int),
    ensures
        r is Ok <==> castable(indices.index_view()),
        r matches Err(e) ==> is_cast_error(e),
        r matches Ok(a) ==> {
            &&& a.wf()
            &&& a.data_type == values.data_type
            &&& a.logical() == gather(values.logical(), indices.index_view())
            &&& validity_minimal(a.validity, indices.values@.len())
        },
{
    let validity = take_validity(&values.validity, values.values.len(), indices)?;
    let n = indices.values.len();
    let ghost idx = indices.index_view();
    let mut out: Vec<i128> = Vec::with_capacity(n);
    let mut k: usize = 0;
    while k < n
        invariant
            k <= n,
            n == idx.len(),
            idx == indices.index_view(),
            indices.wf(),
            values.wf(),
            castable(idx),
            in_reach(idx, values.values@.len() as int),
            out@.len() == k,
            forall|t: int| 0 <= t < k ==> fits_type(values.data_type, #[trigger] out@[t]),
            forall|t: int|
                0 <= t < k ==> (#[trigger] idx[t] matches Some(i) ==> out@[t] == values.values@[i]),
        decreases n - k,
    {
        if valid_at(&indices.validity, k) {
            let ix = index_at(indices, k);
            assert(ix < values.values@.len());
            out.push(values.values[ix]);
        } else {
            out.push(0);
        }
        k += 1;
    }
    let r = PrimitiveArray { data_type: values.data_type.duplicate(), values: out, validity };
    assert(r.logical() =~= gather(values.logical(), idx));
    Ok(r)
}

/// Gathers a decimal array: a primitive array whose type carries precision and scale.
pub fn take_decimal128(values: &PrimitiveArray, indices: &PrimitiveArray) -> (r: Result<
    PrimitiveArray,
    ArrowError,
>)
    requires
        values.wf(),
        values.data_type is Decimal128,
        indices.wf(),
        in_reach(indices.index_view(), values.values@.len() as int),
    ensures
        r is Ok <==> castable(indices.index_view()),
        r matches Err(e) ==> is_cast_error(e),
        r matches Ok(a) ==> {
            &&& a.wf()
            &&& a.data_type == values.data_type
            &&& a.logical() == gather(values.logical(), indices.index_view())
            &&& validity_minimal(a.validity, indices.values@.len())
        },
{
    take_primitive(values, indices)
}

/// Gathers a boolean array.
pub fn take_boolean(values: &BooleanArray, indices: &PrimitiveArray) -> (r: Result<
    BooleanArray,
    ArrowError,
>)
    requires
        values.wf(),
        indices.wf(),
        in_reach(indices.index_view(), values.values@.len() as int),
    ensures
        r is Ok <==> castable(indices.index_view()),
        r matches Err(e) ==> is_cast_error(e),
        r matches Ok(a) ==> {
            &&& a.wf()
            &&& a.logical() == gather(values.logical(), indices.index_view())
            &&& validity_minimal(a.validity, indices.values@.len())
        },
{
    let validity = take_validity(&values.validity, values.values.len(), indices)?;
    let n = indices.values.len();
    let ghost idx = indices.index_view();
    let mut out = Bitmap::new(n, false);
    let mut k: usize = 0;
    while k < n
        invariant
            k <= n,
            n == idx.len(),
            idx == indices.index_view(),
            indices.wf(),
            values.wf(),
            castable(idx),
            in_reach(idx, values.values@.len() as int),
            out.wf(),
            out@.len() == n,
            forall|t: int|
                0 <= t < k ==> (#[trigger] idx[t] matches Some(i) ==> out@[t] == values.values@[i]),
            forall|t: int| k <= t < n ==> !#[trigger] out@[t],
        decreases n - k,
    {
        if valid_at(&indices.validity, k) {
            let ix = index_at(indices, k);
            assert(ix < values.values@.len());
            if values.values.get(ix) {
                out.set(k, true);
            }
        }
        k += 1;
    }
    let r = BooleanArray { values: out, validity };
    assert(r.logical() =~= gather(values.logical(), idx));
    Ok(r)
}

/// `t * w + w <= k * w` when `t < k`.
proof fn lemma_slot_end(t: int, k: int, w: int)
    requires
        0 <= t < k,
        0 <= w,
    ensures
        0 <= t * w,
        t * w + w <= k * w,
{
    assert(t * w + w <= k * w) by (nonlinear_arith)
        requires
            t < k,
            0 <= w,
    ;
    assert(0 <= t * w) by (nonlinear_arith)
        requires
            0 <= t,
            0 <= w,
    ;
}

/// Appends `data[start..start + w]` to `out`.
fn append_range(out: &mut Vec<u8>, data: &Vec<u8>, start: usize, w: usize)
    requires
        start + w <= data@.len(),
    ensures
        final(out)@ == old(out)@ + data@.subrange(start as int, start + w),
{
    let ghost before = out@;
    let dlen = data.len();
    let mut j: usize = 0;
    while j < w
        invariant
            j <= w,
            dlen == data@.len(),
            start + w <= data@.len(),
            out@ == before + data@.subrange(start as int, start + j),
        decreases w - j,
    {
        out.push(data[start + j]);
        j += 1;
        assert(out@ =~= before + data@.subrange(start as int, start + j));
    }
}

/// Gathers a fixed-size binary array.
pub fn take_fixed_size_binary(values: &FixedSizeBinaryArray, indices: &PrimitiveArray) -> (r:
    Result<FixedSizeBinaryArray, ArrowError>)
    requires
        values.wf(),
        indices.wf(),
        in_reach(indices.index_view(), values.len as int),
    ensures
        r is Ok <==> castable(indices.index_view()),
        r matches Err(e) ==> is_cast_error(e),
        r matches Ok(a) ==> {
            &&& a.wf()
            &&& a.width == values.width
            &&& a.logical() == gather(values.logical(), indices.index_view())
        },
{
    let validity = take_validity(&values.validity, values.len, indices)?;
    let n = indices.values.len();
    let w = values.width;
    let dl = values.data.len();
    let zeros: Vec<u8> = vec![0u8; w];
    let ghost idx = indices.index_view();
    let mut out: Vec<u8> = Vec::new();
    let mut k: usize = 0;
    while k < n
        invariant
            k <= n,
            n == idx.len(),
            idx == indices.index_view(),
            indices.wf(),
            values.wf(),
            w == values.width,
            dl == values.data@.len(),
            zeros@.len() == w,
            castable(idx),
            in_reach(idx, values.len as int),
            out@.len() == k * w,
            forall|t: int|
                0 <= t < k ==> (#[trigger] idx[t] matches Some(i) ==> out@.subrange(t * w, t * w + w)
                    == values.slot(i)),
        decreases n - k,
    {
        let ghost before = out@;
        if valid_at(&indices.validity, k) {
            let ix = index_at(indices, k);
            assert(ix < values.len);
            proof {
                lemma_slot_end(ix as int, values.len as int, w as int);
            }
            let start = ix * w;
            append_range(&mut out, &values.data, start, w);
            assert(out@.subrange(k * w, k * w + w) =~= values.slot(ix as int));
        } else {
            append_range(&mut out, &zeros, 0, w);
        }
        assert((k + 1) * w == k * w + w) by (nonlinear_arith);
        assert forall|t: int|
            0 <= t < k + 1 implies (#[trigger] idx[t] matches Some(i) ==> out@.subrange(
            t * w,
            t * w + w,
        ) == values.slot(i)) by {
            if t < k {
                lemma_slot_end(t, k as int, w as int);
                assert(out@.subrange(t * w, t * w + w) =~= before.subrange(t * w, t * w + w));
            }
        }
        k += 1;
    }
    let r = FixedSizeBinaryArray { width: w, len: n, data: out, validity };
    assert(r.logical() =~= gather(values.logical(), idx));
    Ok(r)
}

pub open spec fn overflow_message() -> Seq<char> {
    "offset overflow"@
}

pub open spec fn is_overflow_error(e: ArrowError) -> bool {
    e.message_spec() == overflow_message() && e is ComputeError
}

fn overflow_error() -> (e: ArrowError)
    ensures
        is_overflow_error(e),
{
    proof {
        reveal_strlit("offset overflow");
    }
    ArrowError::ComputeError("offset overflow".to_string())
}

/// The bytes of a non-null byte value, else none.
pub open spec fn value_bytes(x: Option<Value>) -> Seq<u8> {
    match x {
        Some(Value::Bytes(b)) => b,
        _ => Seq::empty(),
    }
}

/// The concatenation, in order, of the non-null byte values.
pub open spec fn concat_values(s: Seq<Option<Value>>) -> Seq<u8>
    decreases s.len(),
{
    if s.len() == 0 {
        Seq::empty()
    } else {
        concat_values(s.drop_last()) + value_bytes(s.last())
    }
}

/// A string or binary layout: offsets start at 0 and end at the data length, and a
/// null slot spans no bytes.
pub open spec fn bytes_layout(b: BytesArray) -> bool {
    &&& b.offsets@[0] == 0
    &&& b.offsets@[b.offsets@.len() - 1] == b.data@.len()
    &&& forall|k: int|
        0 <= k < b.offsets@.len() - 1 && !valid_in(b.validity, k) ==> #[trigger] b.offsets@[k + 1]
            == b.offsets@[k]
}

/// Number of bytes that index `x` contributes to the gathered array.
pub open spec fn taken_bytes(values: BytesArray, x: Option<int>) -> int {
    match x {
        Some(i) => if 0 <= i < values.len_spec() && valid_in(values.validity, i) {
            values.slot(i).len() as int
        } else {
            0
        },
        None => 0,
    }
}

/// Number of bytes gathered for the first `k` indices.
pub open spec fn bytes_total(values: BytesArray, idx: Seq<Option<int>>, k: int) -> int
    decreases k,
{
    if k <= 0 {
        0
    } else {
        bytes_total(values, idx, k - 1) + taken_bytes(values, idx[k - 1])
    }
}

proof fn lemma_bytes_total_mono(values: BytesArray, idx: Seq<Option<int>>, k: int, m: int)
    requires
        0 <= k <= m,
        values.wf(),
    ensures
        bytes_total(values, idx, k) <= bytes_total(values, idx, m),
    decreases m - k,
{
    if k < m {
        lemma_bytes_total_mono(values, idx, k, m - 1);
        assert(taken_bytes(values, idx[m - 1]) >= 0);
    }
}

proof fn lemma_offsets_slot(values: BytesArray, i: int)
    requires
        values.wf(),
        0 <= i < values.len_spec(),
    ensures
        0 <= values.offsets@[i] <= values.offsets@[i + 1] <= values.data@.len(),
        values.slot(i).len() == values.offsets@[i + 1] - values.offsets@[i],
{
    let last = values.offsets@.len() - 1;
    assert(values.offsets@[0] <= values.offsets@[i]);
    assert(values.offsets@[i + 1] <= values.offsets@[last]);
}

/// Gathers a string or binary array in one pass, with a running offset.
/// Fails iff an index does not convert, or the gathered bytes overflow the offset width.
pub fn take_bytes(values: &BytesArray, indices: &PrimitiveArray) -> (r: Result<BytesArray, ArrowError>)
    requires
        values.wf(),
        indices.wf(),
        in_reach(indices.index_view(), values.len_spec() as int),
    ensures
        r is Ok <==> castable(indices.index_view()) && bytes_total(
            *values,
            indices.index_view(),
            indices.values@.len() as int,
        ) <= max_offset(values.kind.is_large()),
        r matches Err(e) ==> (is_cast_error(e) && !castable(indices.index_view())) || (
        is_overflow_error(e) && castable(indices.index_view())),
        r matches Ok(a) ==> {
            &&& a.wf()
            &&& a.kind == values.kind
            &&& a.offsets@[0] == 0
            &&& a.logical() == gather(values.logical(), indices.index_view())
            &&& a.data@ == concat_values(gather(values.logical(), indices.index_view()))
            &&& bytes_layout(a)
        },
{
    let vlen = values.offsets.len() - 1;
    let validity = take_validity(&values.validity, vlen, indices)?;
    let n = indices.values.len();
    let ghost idx = indices.index_view();
    let ghost v = *values;
    let max: i64 = if values.kind.large() {
        i64::MAX
    } else {
        i32::MAX as i64
    };
    let mut offsets: Vec<i64> = Vec::new();
    offsets.push(0);
    let mut data: Vec<u8> = Vec::new();
    let mut so_far: i64 = 0;
    let mut k: usize = 0;
    while k < n
        invariant
            k <= n,
            n == idx.len(),
            idx == indices.index_view(),
            v == *values,
            indices.wf(),
            values.wf(),
            vlen == values.len_spec(),
            castable(idx),
            in_reach(idx, vlen as int),
            max == max_offset(values.kind.is_large()),
            validity_wf(validity, n as nat),
            forall|t: int|
                0 <= t < n ==> #[trigger] valid_in(validity, t) == (match idx[t] {
                    Some(i) => valid_in(values.validity, i),
                    None => false,
                }),
            offsets@.len() == k + 1,
            offsets@[0] == 0,
            offsets@[k as int] == so_far,
            so_far == data@.len(),
            so_far == bytes_total(v, idx, k as int),
            data@ == concat_values(gather(v.logical(), idx).take(k as int)),
            so_far <= max,
            forall|i: int, j: int| 0 <= i <= j <= k ==> offsets@[i] <= offsets@[j],
            forall|t: int|
                0 <= t < k && !valid_in(validity, t) ==> #[trigger] offsets@[t + 1] == offsets@[t],
            forall|t: int|
                0 <= t < k ==> (valid_in(validity, t) ==> data@.subrange(
                    offsets@[t] as int,
                    offsets@[t + 1] as int,
                ) == values.slot(#[trigger] idx[t]->0)),
        decreases n - k,
    {
        let ghost before = data@;
        let ghost offs_before = offsets@;
        if valid_at(&validity, k) {
            let ix = index_at(indices, k);
            assert(ix < vlen);
            proof {
                lemma_offsets_slot(*values, ix as int);
            }
            let s = values.offsets[ix];
            let e = values.offsets[ix + 1];
            let dl = values.data.len();
            assert(e <= dl);
            let l = e - s;
            if l > max - so_far {
                proof {
                    lemma_bytes_total_mono(v, idx, k + 1, n as int);
                }
                return Err(overflow_error());
            }
            append_range(&mut data, &values.data, s as usize, l as usize);
            so_far = so_far + l;
            assert(data@.subrange(offs_before[k as int] as int, so_far as int) =~= values.slot(
                ix as int,
            ));
        }
        offsets.push(so_far);
        proof {
            let g = gather(v.logical(), idx);
            assert(g.take(k + 1).drop_last() =~= g.take(k as int));
            if valid_in(validity, k as int) {
                assert(data@ =~= before + values.slot(idx[k as int]->0));
            } else {
                assert(data@ =~= before);
            }
        }
        assert forall|t: int|
            0 <= t < k + 1 && valid_in(validity, t) implies data@.subrange(
            offsets@[t] as int,
            offsets@[t + 1] as int,
        ) == values.slot(#[trigger] idx[t]->0) by {
            if t < k {
                assert(offsets@[t] == offs_before[t]);
                assert(offsets@[t + 1] == offs_before[t + 1]);
                assert(offs_before[t + 1] <= offs_before[k as int]);
                assert(data@.subrange(offsets@[t] as int, offsets@[t + 1] as int) =~= before.subrange(
                    offsets@[t] as int,
                    offsets@[t + 1] as int,
                ));
            }
        }
        k += 1;
    }
    let r = BytesArray { kind: values.kind, offsets, data, validity };
    assert(r.logical() =~= gather(values.logical(), idx));
    assert(gather(v.logical(), idx).take(n as int) =~= gather(v.logical(), idx));
    Ok(r)
}

/// Gathers a string array (`Utf8` or `LargeUtf8`).
pub fn take_string(values: &BytesArray, indices: &PrimitiveArray) -> (r: Result<BytesArray, ArrowError>)
    requires
        values.wf(),
        values.kind == BytesKind::Utf8 || values.kind == BytesKind::LargeUtf8,
        indices.wf(),
        in_reach(indices.index_view(), values.len_spec() as int),
    ensures
        r is Ok <==> castable(indices.index_view()) && bytes_total(
            *values,
            indices.index_view(),
            indices.values@.len() as int,
        ) <= max_offset(values.kind.is_large()),
        r matches Err(e) ==> (is_cast_error(e) && !castable(indices.index_view())) || (
        is_overflow_error(e) && castable(indices.index_view())),
        r matches Ok(a) ==> {
            &&& a.wf()
            &&& a.kind == values.kind
            &&& a.offsets@[0] == 0
            &&& a.logical() == gather(values.logical(), indices.index_view())
            &&& a.data@ == concat_values(gather(values.logical(), indices.index_view()))
            &&& bytes_layout(a)
        },
{
    take_bytes(values, indices)
}

/// Gathers a binary array (`Binary` or `LargeBinary`).
pub fn take_binary(values: &BytesArray, indices: &PrimitiveArray) -> (r: Result<BytesArray, ArrowError>)
    requires
        values.wf(),
        values.kind == BytesKind::Binary || values.kind == BytesKind::LargeBinary,
        indices.wf(),
        in_reach(indices.index_view(), values.len_spec() as int),
    ensures
        r is Ok <==> castable(indices.index_view()) && bytes_total(
            *values,
            indices.index_view(),
            indices.values@.len() as int,
        ) <= max_offset(values.kind.is_large()),
        r matches Err(e) ==> (is_cast_error(e) && !castable(indices.index_view())) || (
        is_overflow_error(e) && castable(indices.index_view())),
        r matches Ok(a) ==> {
            &&& a.wf()
            &&& a.kind == values.kind
            &&& a.offsets@[0] == 0
            &&& a.logical() == gather(values.logical(), indices.index_view())
            &&& a.data@ == concat_values(gather(values.logical(), indices.index_view()))
            &&& bytes_layout(a)
        },
{
    take_bytes(values, indices)
}

/// Child positions that list index `x` gathers: the list's range, or none when the
/// index or the list is null.
pub open spec fn list_range(a: ListArray, x: Option<int>) -> Seq<Option<int>> {
    match x {
        Some(i) => if 0 <= i < a.offsets@.len() - 1 && valid_in(a.validity, i) {
            Seq::new(
                (a.offsets@[i + 1] - a.offsets@[i]) as nat,
                |j: int| Some(a.offsets@[i] + j),
            )
        } else {
            Seq::empty()
        },
        None => Seq::empty(),
    }
}

/// Child positions gathered for the first `k` list indices.
pub open spec fn list_child_indices(a: ListArray, idx: Seq<Option<int>>, k: int) -> Seq<Option<int>>
    decreases k,
{
    if k <= 0 {
        Seq::empty()
    } else {
        list_child_indices(a, idx, k - 1) + list_range(a, idx[k - 1])
    }
}

/// Child positions that fixed-size list index `x` gathers: `size` positions, null when
/// the index or the list is null.
pub open spec fn fixed_range(a: FixedSizeListArray, x: Option<int>) -> Seq<Option<int>> {
    match x {
        Some(i) => if 0 <= i < a.len && valid_in(a.validity, i) {
            Seq::new(a.size as nat, |j: int| Some(i * a.size + j))
        } else {
            Seq::new(a.size as nat, |j: int| None)
        },
        None => Seq::new(a.size as nat, |j: int| None),
    }
}

/// Child positions gathered for the first `k` fixed-size list indices.
pub open spec fn fixed_child_indices(a: FixedSizeListArray, idx: Seq<Option<int>>, k: int) -> Seq<
    Option<int>,
>
    decreases k,
{
    if k <= 0 {
        Seq::empty()
    } else {
        fixed_child_indices(a, idx, k - 1) + fixed_range(a, idx[k - 1])
    }
}

/// The layout of a gathered list array `m`: one offset per index and one more,
/// starting at 0; slot `k` spans as many child slots as index `k` gathers (none where
/// the index or the list is null); the last offset is the child's length; and the
/// child is the values' child gathered at the concatenated ranges.
pub open spec fn list_layout(v: ListArray, idx: Seq<Option<int>>, m: ListArray) -> bool {
    &&& m.offsets@.len() == idx.len() + 1
    &&& m.offsets@[0] == 0
    &&& forall|k: int|
        0 <= k < idx.len() ==> #[trigger] m.offsets@[k + 1] - m.offsets@[k] == list_range(
            v,
            idx[k],
        ).len()
    &&& m.offsets@[idx.len() as int] == m.child.len_spec()
    &&& m.child.logical() == gather(v.child.logical(), list_child_indices(v, idx, idx.len() as int))
}

/// What a gather keeps of the layout, beyond the logical content: the variant; no
/// validity bitmap for primitives and booleans when neither input has nulls; the
/// string and list layouts; each struct column gathered on its own; and the shared
/// dictionary values.
pub open spec fn shape_kept(values: Array, indices: PrimitiveArray, a: Array) -> bool {
    let idx = indices.index_view();
    match values {
        Array::Null(_) => a is Null,
        Array::Boolean(p) => a matches Array::Boolean(q) && validity_minimal(q.validity, idx.len()),
        Array::Primitive(p) => a matches Array::Primitive(q) && validity_minimal(q.validity, idx.len()),
        Array::Bytes(_) => a matches Array::Bytes(b) && bytes_layout(b),
        Array::FixedSizeBinary(_) => a is FixedSizeBinary,
        Array::List(l) => a matches Array::List(m) && list_layout(l, idx, m),
        Array::FixedSizeList(_) => a is FixedSizeList,
        Array::Struct(st) => a matches Array::Struct(t) && t.columns@.len() == st.columns@.len() && (
        forall|c: int|
            0 <= c < st.columns@.len() ==> #[trigger] t.columns@[c].logical() == gather(
                st.columns@[c].logical(),
                idx,
            )),
        Array::Dictionary(d) => a matches Array::Dictionary(e) && e.values == d.values,
    }
}

/// Gathering `values` at `idx` succeeds: every index converts, no offsets buffer
/// overflows, and the dictionary keys are integers; children likewise.
pub open spec fn take_ok(values: Array, idx: Seq<Option<int>>) -> bool
    decreases values,
{
    match values {
        Array::Null(_) => true,
        Array::Bytes(a) => castable(idx) && bytes_total(a, idx, idx.len() as int) <= max_offset(
            a.kind.is_large(),
        ),
        Array::List(a) => {
            &&& castable(idx)
            &&& list_child_indices(a, idx, idx.len() as int).len() <= max_offset(a.large)
            &&& take_ok(*a.child, list_child_indices(a, idx, idx.len() as int))
        },
        Array::FixedSizeList(a) => castable(idx) && take_ok(
            *a.child,
            fixed_child_indices(a, idx, idx.len() as int),
        ),
        Array::Struct(a) => castable(idx) && forall|c: int|
            0 <= c < a.columns@.len() ==> take_ok(#[trigger] a.columns@[c], idx),
        Array::Dictionary(a) => castable(idx) && a.keys.data_type.is_integral(),
        _ => castable(idx),
    }
}

/// Positions as a primitive index array without nulls.
pub open spec fn positions(v: Seq<i128>) -> Seq<Option<int>> {
    Seq::new(v.len(), |p: int| Some(v[p] as int))
}

proof fn lemma_logical_len(a: Array)
    ensures
        a.logical().len() == a.len_spec(),
{
    if let Array::Struct(s) = a {
        assert(crate::array::struct_logical(s).len() == s.len);
    }
}

/// Gathers a list array: gathers the child at the concatenated ranges of the taken lists.
fn take_list(values: &ListArray, indices: &PrimitiveArray, options: TakeOptions) -> (r: Result<
    ListArray,
    ArrowError,
>)
    requires
        Array::List(*values).wf(),
        indices.wf(),
        in_reach(indices.index_view(), values.offsets@.len() - 1),
    ensures
        r is Ok <==> take_ok(Array::List(*values), indices.index_view()),
        r matches Err(e) ==> is_cast_error(e) || is_overflow_error(e) || (e is NotImplemented
            && e.message_spec() == not_implemented_message()),
        r matches Ok(a) ==> {
            &&& Array::List(a).wf()
            &&& Array::List(a).len_spec() == indices.values@.len()
            &&& Array::List(a).logical() == gather(
                Array::List(*values).logical(),
                indices.index_view(),
            )
            &&& Array::List(a).type_tree() == Array::List(*values).type_tree()
            &&& list_layout(*values, indices.index_view(), a)
        },
    decreases values,
{
    let vlen = values.offsets.len() - 1;
    let validity = take_validity(&values.validity, vlen, indices)?;
    let n = indices.values.len();
    let ghost idx = indices.index_view();
    let ghost v = *values;
    let max: i64 = if values.large {
        i64::MAX
    } else {
        i32::MAX as i64
    };
    let clen = values.child.len();
    proof {
        lemma_logical_len(*values.child);
    }
    let mut offsets: Vec<i64> = Vec::new();
    offsets.push(0);
    let mut child_idx: Vec<i128> = Vec::new();
    let mut so_far: i64 = 0;
    let mut k: usize = 0;
    while k < n
        invariant
            k <= n,
            n == idx.len(),
            idx == indices.index_view(),
            v == *values,
            indices.wf(),
            Array::List(*values).wf(),
            vlen == values.offsets@.len() - 1,
            clen == values.child.len_spec(),
            castable(idx),
            in_reach(idx, vlen as int),
            max == max_offset(values.large),
            validity_wf(validity, n as nat),
            forall|t: int|
                0 <= t < n ==> #[trigger] valid_in(validity, t) == (match idx[t] {
                    Some(i) => valid_in(values.validity, i),
                    None => false,
                }),
            offsets@.len() == k + 1,
            offsets@[0] == 0,
            offsets@[k as int] == so_far,
            so_far == child_idx@.len(),
            positions(child_idx@) == list_child_indices(v, idx, k as int),
            so_far <= max,
            forall|i: int, j: int| 0 <= i <= j <= k ==> offsets@[i] <= offsets@[j],
            forall|t: int|
                0 <= t < k ==> #[trigger] positions(child_idx@).subrange(
                    offsets@[t] as int,
                    offsets@[t + 1] as int,
                ) == list_range(v, idx[t]),
        decreases n - k,
    {
        let ghost before = child_idx@;
        let ghost offs_before = offsets@;
        if valid_at(&validity, k) {
            let ix = index_at(indices, k);
            assert(ix < vlen);
            let last = values.offsets.len() - 1;
            assert(values.offsets@[0] <= values.offsets@[ix as int]);
            assert(values.offsets@[ix + 1] <= values.offsets@[last as int]);
            let s = values.offsets[ix];
            let e = values.offsets[ix + 1];
            let l = e - s;
            if l > max - so_far {
                proof {
                    assert(list_child_indices(v, idx, k + 1) == list_child_indices(v, idx, k as int)
                        + list_range(v, idx[k as int]));
                    lemma_list_indices_prefix(v, idx, k + 1, n as int);
                }
                return Err(overflow_error());
            }
            let mut j: i64 = s;
            while j < e
                invariant
                    s <= j <= e,
                    child_idx@.len() == before.len() + (j - s),
                    child_idx@.subrange(0, before.len() as int) == before,
                    forall|q: int|
                        0 <= q < j - s ==> #[trigger] child_idx@[before.len() + q] == s + q,
                decreases e - j,
            {
                child_idx.push(j as i128);
                j += 1;
            }
            so_far = so_far + l;
            assert(list_range(v, idx[k as int]) =~= Seq::new(l as nat, |q: int| Some(s + q)));
            assert forall|p: int| 0 <= p < before.len() implies child_idx@[p] == before[p] by {
                assert(child_idx@.subrange(0, before.len() as int)[p] == before[p]);
            }
            assert forall|q: int| 0 <= q < l implies positions(child_idx@)[before.len() + q]
                == list_range(v, idx[k as int])[q] by {
                assert(child_idx@[before.len() + q] == s + q);
            }
            assert(positions(child_idx@) =~= positions(before) + list_range(v, idx[k as int]));
        } else {
            assert(list_range(v, idx[k as int]) =~= Seq::empty());
            assert(positions(child_idx@) =~= positions(before) + list_range(v, idx[k as int]));
        }
        offsets.push(so_far);
        proof {
            assert(list_child_indices(v, idx, k + 1) == list_child_indices(v, idx, k as int)
                + list_range(v, idx[k as int]));
            assert(positions(child_idx@) =~= list_child_indices(v, idx, k + 1));
        }
        assert forall|t: int|
            0 <= t < k + 1 implies #[trigger] positions(child_idx@).subrange(
            offsets@[t] as int,
            offsets@[t + 1] as int,
        ) == list_range(v, idx[t]) by {
            if t < k {
                assert(offsets@[t] == offs_before[t]);
                assert(offsets@[t + 1] == offs_before[t + 1]);
                assert(offs_before[t + 1] <= offs_before[k as int]);
                assert(positions(child_idx@).subrange(offsets@[t] as int, offsets@[t + 1] as int)
                    =~= positions(before).subrange(offsets@[t] as int, offsets@[t + 1] as int));
            } else {
                assert(positions(child_idx@).subrange(offsets@[t] as int, offsets@[t + 1] as int)
                    =~= list_range(v, idx[t]));
            }
        }
        k += 1;
    }
    let child_indices = PrimitiveArray {
        data_type: crate::array::PrimitiveType::Int64,
        values: child_idx,
        validity: None,
    };
    assert(child_indices.index_view() =~= positions(child_idx@));
    assert(in_reach(child_indices.index_view(), values.child.len_spec() as int)) by {
        assert forall|p: int| 0 <= p < child_indices.index_view().len() implies match #[trigger] child_indices.index_view()[p] {
            Some(x) => x >= 0 ==> x < values.child.len_spec(),
            None => true,
        } by {
            lemma_child_position_in_range(v, idx, n as int, p);
        }
    }
    assert forall|p: int| 0 <= p < child_indices.values@.len() implies fits_type(
        child_indices.data_type,
        #[trigger] child_indices.values@[p],
    ) by {
        lemma_child_position_in_range(v, idx, n as int, p);
        assert(child_indices.index_view()[p] == Some(child_indices.values@[p] as int));
    }
    let child = take_impl(&values.child, &child_indices, options)?;
    proof {
        lemma_logical_len(child);
        lemma_logical_len(*values.child);
    }
    let r = ListArray { large: values.large, offsets, child: Box::new(child), validity };
    assert forall|k: int| 0 <= k < n implies #[trigger] r.offsets@[k + 1] - r.offsets@[k] == list_range(
        v,
        idx[k],
    ).len() by {
        assert(r.offsets@[k] <= r.offsets@[k + 1]);
        assert(positions(child_idx@).subrange(r.offsets@[k] as int, r.offsets@[k + 1] as int)
            == list_range(v, idx[k]));
    }
    assert(child.logical() == gather(values.child.logical(), list_child_indices(v, idx, n as int)));
    let ghost gathered = gather(Array::List(*values).logical(), idx);
    assert forall|t: int| 0 <= t < n implies #[trigger] Array::List(r).logical()[t] == gathered[t] by {
        if valid_in(validity, t) {
            let i = idx[t]->0;
            let lr = list_range(v, idx[t]);
            let sub = child.logical().subrange(r.offsets@[t] as int, r.offsets@[t + 1] as int);
            let want = values.child.logical().subrange(
                values.offsets@[i] as int,
                values.offsets@[i + 1] as int,
            );
            assert(sub =~= want) by {
                assert forall|q: int| 0 <= q < sub.len() implies sub[q] == want[q] by {
                    assert(positions(child_idx@).subrange(
                        r.offsets@[t] as int,
                        r.offsets@[t + 1] as int,
                    )[q] == lr[q]);
                    assert(positions(child_idx@)[r.offsets@[t] + q] == lr[q]);
                    assert(child.logical()[r.offsets@[t] + q] == gather(
                        values.child.logical(),
                        positions(child_idx@),
                    )[r.offsets@[t] + q]);
                }
            }
        }
    }
    assert(Array::List(r).logical() =~= gathered);
    Ok(r)
}

proof fn lemma_list_indices_prefix(a: ListArray, idx: Seq<Option<int>>, k: int, m: int)
    requires
        0 <= k <= m,
    ensures
        list_child_indices(a, idx, k).len() <= list_child_indices(a, idx, m).len(),
    decreases m - k,
{
    if k < m {
        lemma_list_indices_prefix(a, idx, k, m - 1);
    }
}

proof fn lemma_child_position_in_range(a: ListArray, idx: Seq<Option<int>>, k: int, p: int)
    requires
        Array::List(a).wf(),
        0 <= k,
        0 <= p < list_child_indices(a, idx, k).len(),
    ensures
        list_child_indices(a, idx, k)[p] matches Some(x) && 0 <= x < a.child.len_spec() && x
            <= i64::MAX,
    decreases k,
{
    let prev = list_child_indices(a, idx, k - 1);
    if p < prev.len() {
        lemma_child_position_in_range(a, idx, k - 1, p);
    } else {
        let i = idx[k - 1]->0;
        let last = a.offsets@.len() - 1;
        assert(a.offsets@[0] <= a.offsets@[i]);
        assert(a.offsets@[i + 1] <= a.offsets@[last]);
    }
}

/// Gathers a fixed-size list array: gathers `size` child slots per index.
fn take_fixed_size_list(values: &FixedSizeListArray, indices: &PrimitiveArray, options: TakeOptions) -> (r:
    Result<FixedSizeListArray, ArrowError>)
    requires
        Array::FixedSizeList(*values).wf(),
        indices.wf(),
        in_reach(indices.index_view(), values.len as int),
    ensures
        r is Ok <==> take_ok(Array::FixedSizeList(*values), indices.index_view()),
        r matches Err(e) ==> is_cast_error(e) || is_overflow_error(e) || (e is NotImplemented
            && e.message_spec() == not_implemented_message()),
        r matches Ok(a) ==> {
            &&& Array::FixedSizeList(a).wf()
            &&& Array::FixedSizeList(a).len_spec() == indices.values@.len()
            &&& Array::FixedSizeList(a).logical() == gather(
                Array::FixedSizeList(*values).logical(),
                indices.index_view(),
            )
            &&& Array::FixedSizeList(a).type_tree() == Array::FixedSizeList(*values).type_tree()
        },
    decreases values,
{
    let validity = take_validity(&values.validity, values.len, indices)?;
    let n = indices.values.len();
    let size = values.size;
    let ghost idx = indices.index_view();
    let ghost v = *values;
    let clen = values.child.len();
    let mut child_idx: Vec<i128> = Vec::new();
    let mut child_valid: Vec<bool> = Vec::new();
    let mut k: usize = 0;
    while k < n
        invariant
            k <= n,
            n == idx.len(),
            idx == indices.index_view(),
            v == *values,
            indices.wf(),
            Array::FixedSizeList(*values).wf(),
            size == values.size,
            clen == values.len * values.size,
            castable(idx),
            in_reach(idx, values.len as int),
            validity_wf(validity, n as nat),
            forall|t: int|
                0 <= t < n ==> #[trigger] valid_in(validity, t) == (match idx[t] {
                    Some(i) => valid_in(values.validity, i),
                    None => false,
                }),
            child_idx@.len() == k * size,
            child_valid@.len() == k * size,
            forall|p: int| 0 <= p < child_idx@.len() ==> 0 <= #[trigger] child_idx@[p] <= u64::MAX,
            optional_positions(child_idx@, child_valid@) == fixed_child_indices(v, idx, k as int),
        decreases n - k,
    {
        let ghost before = optional_positions(child_idx@, child_valid@);
        let ghost bi = child_idx@;
        let ghost bv = child_valid@;
        let valid = valid_at(&validity, k);
        let mut base: usize = 0;
        if valid {
            let ix = index_at(indices, k);
            assert(ix < values.len);
            proof {
                lemma_slot_end(ix as int, values.len as int, size as int);
            }
            base = ix * size;
        }
        let mut j: usize = 0;
        while j < size
            invariant
                j <= size,
                valid ==> base + size <= clen,
                child_idx@.len() == bi.len() + j,
                child_valid@.len() == bv.len() + j,
                bi.len() == bv.len(),
                forall|p: int| 0 <= p < bi.len() ==> 0 <= #[trigger] bi[p] <= u64::MAX,
                forall|p: int| 0 <= p < child_idx@.len() ==> 0 <= #[trigger] child_idx@[p] <= u64::MAX,
                forall|p: int| 0 <= p < bi.len() ==> child_idx@[p] == bi[p] && child_valid@[p] == bv[p],
                forall|q: int| 0 <= q < j ==> #[trigger] child_valid@[bi.len() + q] == valid,
                forall|q: int|
                    0 <= q < j ==> (valid ==> #[trigger] child_idx@[bi.len() + q] == base + q),
            decreases size - j,
        {
            if valid {
                child_idx.push((base + j) as u64 as i128);
            } else {
                child_idx.push(0);
            }
            child_valid.push(valid);
            j += 1;
        }
        proof {
            assert(fixed_child_indices(v, idx, k + 1) == fixed_child_indices(v, idx, k as int)
                + fixed_range(v, idx[k as int]));
            assert forall|q: int| 0 <= q < size implies optional_positions(child_idx@, child_valid@)[bi.len() + q]
                == fixed_range(v, idx[k as int])[q] by {
                if valid {
                    assert(child_idx@[bi.len() + q] == base + q);
                }
            }
            assert(optional_positions(child_idx@, child_valid@) =~= fixed_child_indices(v, idx, k + 1));
            assert((k + 1) * size == k * size + size) by (nonlinear_arith);
        }
        k += 1;
    }
    let child_indices = PrimitiveArray {
        data_type: crate::array::PrimitiveType::UInt64,
        values: child_idx,
        validity: Some(Bitmap::from_bools(&child_valid)),
    };
    let ghost ci = fixed_child_indices(v, idx, n as int);
    assert(child_indices.index_view() =~= ci);
    assert(in_reach(ci, values.child.len_spec() as int)) by {
        assert forall|p: int| 0 <= p < ci.len() implies match #[trigger] ci[p] {
            Some(x) => x >= 0 ==> x < values.child.len_spec(),
            None => true,
        } by {
            lemma_fixed_position_in_range(v, idx, n as int, p);
        }
    }
    let child = take_impl(&values.child, &child_indices, options)?;
    proof {
        lemma_logical_len(child);
        lemma_logical_len(*values.child);
    }
    let r = FixedSizeListArray { size, len: n, child: Box::new(child), validity };
    let ghost gathered = gather(Array::FixedSizeList(*values).logical(), idx);
    assert forall|t: int| 0 <= t < n implies #[trigger] Array::FixedSizeList(r).logical()[t] == gathered[t] by {
        if valid_in(validity, t) {
            let i = idx[t]->0;
            lemma_fixed_slot(v, idx, n as int, t);
            lemma_slot_end(t, n as int, size as int);
            lemma_slot_end(i, values.len as int, size as int);
            let sub = child.logical().subrange(t * size, t * size + size);
            let want = values.child.logical().subrange(i * size, i * size + size);
            assert(sub =~= want) by {
                assert forall|q: int| 0 <= q < size implies sub[q] == want[q] by {
                    assert(ci[t * size + q] == fixed_range(v, idx[t])[q]);
                }
            }
        }
    }
    assert(Array::FixedSizeList(r).logical() =~= gathered);
    Ok(r)
}

/// Positions with nulls: slot `p` is null where `valid[p]` is false.
pub open spec fn optional_positions(vals: Seq<i128>, valid: Seq<bool>) -> Seq<Option<int>> {
    Seq::new(vals.len(), |p: int| if valid[p] { Some(vals[p] as int) } else { None })
}

proof fn lemma_fixed_len(a: FixedSizeListArray, idx: Seq<Option<int>>, k: int)
    requires
        0 <= k,
    ensures
        fixed_child_indices(a, idx, k).len() == k * a.size,
    decreases k,
{
    if k == 0 {
        assert(k * a.size == 0) by (nonlinear_arith)
            requires
                k == 0,
        ;
    } else {
        lemma_fixed_len(a, idx, k - 1);
        assert(fixed_child_indices(a, idx, k) == fixed_child_indices(a, idx, k - 1) + fixed_range(
            a,
            idx[k - 1],
        ));
        assert(fixed_range(a, idx[k - 1]).len() == a.size);
        assert(k * a.size == (k - 1) * a.size + a.size) by (nonlinear_arith);
    }
}

/// Slot `t` of the gathered positions is the range that index `t` gathers.
proof fn lemma_fixed_slot(a: FixedSizeListArray, idx: Seq<Option<int>>, k: int, t: int)
    requires
        0 <= t < k,
    ensures
        0 <= t * a.size,
        t * a.size + a.size <= fixed_child_indices(a, idx, k).len(),
        forall|q: int|
            0 <= q < a.size ==> fixed_child_indices(a, idx, k)[t * a.size + q] == fixed_range(
                a,
                idx[t],
            )[q],
    decreases k,
{
    lemma_fixed_len(a, idx, k);
    lemma_fixed_len(a, idx, k - 1);
    lemma_slot_end(t, k, a.size as int);
    if t < k - 1 {
        lemma_fixed_slot(a, idx, k - 1, t);
        lemma_slot_end(t, k - 1, a.size as int);
    }
}

proof fn lemma_fixed_position_in_range(a: FixedSizeListArray, idx: Seq<Option<int>>, k: int, p: int)
    requires
        Array::FixedSizeList(a).wf(),
        0 <= k,
        0 <= p < fixed_child_indices(a, idx, k).len(),
    ensures
        fixed_child_indices(a, idx, k)[p] matches Some(x) ==> 0 <= x < a.child.len_spec(),
    decreases k,
{
    let prev = fixed_child_indices(a, idx, k - 1);
    if p < prev.len() {
        lemma_fixed_position_in_range(a, idx, k - 1, p);
    } else {
        match idx[k - 1] {
            Some(i) => {
                if 0 <= i < a.len && valid_in(a.validity, i) {
                    lemma_slot_end(i, a.len as int, a.size as int);
                }
            },
            None => {},
        }
    }
}

/// Gathers a struct array: every column at the same indices; slot `k` is valid iff
/// index `k` is non-null and the struct is valid there.
fn take_struct(values: &StructArray, indices: &PrimitiveArray, options: TakeOptions) -> (r: Result<
    StructArray,
    ArrowError,
>)
    requires
        Array::Struct(*values).wf(),
        indices.wf(),
        in_reach(indices.index_view(), values.len as int),
    ensures
        r is Ok <==> take_ok(Array::Struct(*values), indices.index_view()),
        r matches Err(e) ==> is_cast_error(e) || is_overflow_error(e) || (e is NotImplemented
            && e.message_spec() == not_implemented_message()),
        r matches Ok(a) ==> {
            &&& Array::Struct(a).wf()
            &&& Array::Struct(a).len_spec() == indices.values@.len()
            &&& Array::Struct(a).logical() == gather(
                Array::Struct(*values).logical(),
                indices.index_view(),
            )
            &&& Array::Struct(a).type_tree() == Array::Struct(*values).type_tree()
            &&& a.columns@.len() == values.columns@.len()
            &&& forall|c: int|
                0 <= c < values.columns@.len() ==> #[trigger] a.columns@[c].logical() == gather(
                    values.columns@[c].logical(),
                    indices.index_view(),
                )
        },
    decreases values,
{
    let validity = take_validity(&values.validity, values.len, indices)?;
    let n = indices.values.len();
    let ghost idx = indices.index_view();
    let ncols = values.columns.len();
    let mut columns: Vec<Array> = Vec::new();
    let mut names: Vec<String> = Vec::new();
    let mut c: usize = 0;
    while c < ncols
        invariant
            c <= ncols,
            ncols == values.columns@.len(),
            idx == indices.index_view(),
            n == idx.len(),
            indices.wf(),
            Array::Struct(*values).wf(),
            in_reach(idx, values.len as int),
            castable(idx),
            columns@.len() == c,
            names@.len() == c,
            validity_wf(validity, n as nat),
            forall|t: int|
                0 <= t < n ==> #[trigger] valid_in(validity, t) == (match idx[t] {
                    Some(i) => valid_in(values.validity, i),
                    None => false,
                }),
            forall|q: int| 0 <= q < c ==> #[trigger] names@[q]@ == values.names@[q]@,
            forall|q: int| 0 <= q < c ==> take_ok(#[trigger] values.columns@[q], idx),
            forall|q: int|
                0 <= q < c ==> {
                    &&& (#[trigger] columns@[q]).wf()
                    &&& columns@[q].len_spec() == n
                    &&& columns@[q].logical() == gather(values.columns@[q].logical(), idx)
                    &&& columns@[q].type_tree() == values.columns@[q].type_tree()
                },
        decreases ncols - c,
    {
        let col = take_impl(&values.columns[c], indices, options);
        match col {
            Err(e) => {
                return Err(e);
            },
            Ok(col) => {
                columns.push(col);
            },
        }
        names.push(values.names[c].clone());
        c += 1;
    }
    let r = StructArray { names, columns, len: n, validity };
    let ghost gathered = gather(Array::Struct(*values).logical(), idx);
    assert(Array::Struct(r).logical() == crate::array::struct_logical(r));
    assert(Array::Struct(*values).logical() == crate::array::struct_logical(*values));
    assert forall|t: int| 0 <= t < n implies #[trigger] Array::Struct(r).logical()[t] == gathered[t] by {
        match idx[t] {
            Some(i) => {
                assert(0 <= i < values.len);
                assert(gathered[t] == crate::array::struct_logical(*values)[i]);
            },
            None => {},
        }
        if valid_in(validity, t) {
            let i = idx[t]->0;
            assert forall|q: int| 0 <= q < ncols implies r.columns@[q].logical()[t]
                == values.columns@[q].logical()[i] by {
                lemma_logical_len(values.columns@[q]);
            }
            if let Some(Value::Struct(x)) = Array::Struct(r).logical()[t] {
                if let Some(Value::Struct(y)) = gathered[t] {
                    assert(x =~= y);
                }
            }
        }
    }
    assert(Array::Struct(r).logical() =~= gathered);
    proof {
        assert(Array::Struct(r).type_tree() == crate::array::struct_type_tree(r));
        assert(Array::Struct(*values).type_tree() == crate::array::struct_type_tree(*values));
        assert forall|q: int| 0 <= q < ncols implies r.names@[q]@ == values.names@[q]@ by {}
        let t1 = crate::array::struct_type_tree(r);
        let t2 = crate::array::struct_type_tree(*values);
        if let crate::array::TypeTree::Struct(n1, c1) = t1 {
            if let crate::array::TypeTree::Struct(n2, c2) = t2 {
                assert(n1.len() == n2.len());
                assert forall|q: int| 0 <= q < n1.len() implies n1[q] == n2[q] by {}
                assert(n1 =~= n2);
                assert forall|q: int| 0 <= q < c1.len() implies c1[q] == c2[q] by {}
                assert(c1 =~= c2);
            }
        }
    }
    Ok(r)
}

pub open spec fn not_implemented_message() -> Seq<char> {
    "Take not supported for dictionary key type"@
}

/// Gathers a dictionary array: gathers the keys, and shares the dictionary values.
pub fn take_dict(values: &DictionaryArray, indices: &PrimitiveArray) -> (r: Result<
    DictionaryArray,
    ArrowError,
>)
    requires
        Array::Dictionary(*values).wf(),
        indices.wf(),
        in_reach(indices.index_view(), values.keys.values@.len() as int),
    ensures
        r is Ok <==> castable(indices.index_view()) && values.keys.data_type.is_integral(),
        r matches Err(e) ==> is_cast_error(e) || (e is NotImplemented && e.message_spec()
            == not_implemented_message()),
        r matches Ok(a) ==> {
            &&& Array::Dictionary(a).wf()
            &&& a.keys.data_type == values.keys.data_type
            &&& a.values == values.values
            &&& a.keys.logical() == gather(values.keys.logical(), indices.index_view())
            &&& Array::Dictionary(a).logical() == gather(
                Array::Dictionary(*values).logical(),
                indices.index_view(),
            )
        },
{
    if !values.keys.data_type.integral() {
        proof {
            reveal_strlit("Take not supported for dictionary key type");
        }
        return Err(
            ArrowError::NotImplemented("Take not supported for dictionary key type".to_string()),
        );
    }
    let keys = take_primitive(&values.keys, indices)?;
    let r = DictionaryArray { keys, values: Arc::clone(&values.values) };
    let ghost idx = indices.index_view();
    proof {
        lemma_index_view_of_logical(r.keys, values.keys, idx);
        lemma_gather_compose(values.values.logical(), values.keys.index_view(), idx);
    }
    Ok(r)
}

proof fn lemma_index_view_of_logical(a: PrimitiveArray, b: PrimitiveArray, idx: Seq<Option<int>>)
    requires
        a.logical() == gather(b.logical(), idx),
    ensures
        a.index_view() == gather(b.index_view(), idx),
{
    assert(a.logical().len() == idx.len());
    assert(a.values@.len() == idx.len());
    assert forall|t: int| 0 <= t < idx.len() implies a.index_view()[t] == gather(b.index_view(), idx)[t] by {
        assert(a.logical()[t] == gather(b.logical(), idx)[t]);
        match idx[t] {
            Some(i) => {
                if 0 <= i < b.values@.len() {
                    assert(gather(b.logical(), idx)[t] == b.logical()[i]);
                    assert(gather(b.index_view(), idx)[t] == b.index_view()[i]);
                    if valid_in(a.validity, t) {
                        assert(a.logical()[t] == Some(Value::Int(a.values@[t])));
                    }
                }
            },
            None => {},
        }
    }
    assert(a.index_view() =~= gather(b.index_view(), idx));
}

fn take_impl(values: &Array, indices: &PrimitiveArray, options: TakeOptions) -> (r: Result<
    Array,
    ArrowError,
>)
    requires
        values.wf(),
        indices.wf(),
        values is Null || in_reach(indices.index_view(), values.len_spec() as int),
    ensures
        r is Ok <==> take_ok(*values, indices.index_view()),
        r matches Err(e) ==> is_cast_error(e) || is_overflow_error(e) || (e is NotImplemented
            && e.message_spec() == not_implemented_message()),
        r matches Ok(a) ==> {
            &&& a.wf()
            &&& a.len_spec() == indices.values@.len()
            &&& a.logical() == gather(values.logical(), indices.index_view())
            &&& a.type_tree() == values.type_tree()
            &&& shape_kept(*values, *indices, a)
        },
    decreases values,
{
    let r = match values {
        Array::Null(_) => {
            let r = Array::Null(NullArray { len: indices.values.len() });
            assert(r.logical() =~= gather(values.logical(), indices.index_view()));
            r
        },
        Array::Boolean(a) => {
            let b = take_boolean(a, indices)?;
            Array::Boolean(b)
        },
        Array::Primitive(a) => {
            let p = if a.data_type.is_decimal() {
                take_decimal128(a, indices)?
            } else {
                take_primitive(a, indices)?
            };
            Array::Primitive(p)
        },
        Array::Bytes(a) => {
            let b = if a.kind.is_text() {
                take_string(a, indices)?
            } else {
                take_binary(a, indices)?
            };
            Array::Bytes(b)
        },
        Array::FixedSizeBinary(a) => {
            let b = take_fixed_size_binary(a, indices)?;
            Array::FixedSizeBinary(b)
        },
        Array::List(a) => {
            let l = take_list(a, indices, options)?;
            Array::List(l)
        },
        Array::FixedSizeList(a) => {
            let l = take_fixed_size_list(a, indices, options)?;
            Array::FixedSizeList(l)
        },
        Array::Struct(a) => {
            let s = take_struct(a, indices, options)?;
            Array::Struct(s)
        },
        Array::Dictionary(a) => {
            let d = take_dict(a, indices)?;
            Array::Dictionary(d)
        },
    };
    proof {
        lemma_logical_len(r);
    }
    Ok(r)
}

/// Whether `options` asks for bounds checking.
pub open spec fn checks_bounds(options: Option<TakeOptions>) -> bool {
    options matches Some(o) && o.check_bounds
}

/// The index does not convert, or is not below `len`.
pub open spec fn faulty(x: Option<int>, len: int) -> bool {
    match x {
        Some(i) => !(0 <= i <= usize::MAX) || i >= len,
        None => false,
    }
}

/// The first position at or after `from` whose index is faulty.
pub open spec fn first_fault(idx: Seq<Option<int>>, len: int, from: int) -> Option<int>
    decreases idx.len() - from,
{
    if from < 0 || from >= idx.len() {
        None
    } else if faulty(idx[from], len) {
        Some(from)
    } else {
        first_fault(idx, len, from + 1)
    }
}

pub open spec fn bounds_message(ix: nat, len: nat) -> Seq<char> {
    "Array index out of bounds, cannot get item at index "@ + decimal(ix) + " from "@ + decimal(len)
        + " entries"@
}

/// The message for a faulty index `x`.
pub open spec fn fault_message(x: int, len: int) -> Seq<char> {
    if 0 <= x <= usize::MAX {
        bounds_message(x as nat, len as nat)
    } else {
        cast_message()
    }
}

fn bounds_message_text(ix: usize, len: usize) -> (r: String)
    ensures
        r@ == bounds_message(ix as nat, len as nat),
{
    proof {
        reveal_strlit("Array index out of bounds, cannot get item at index ");
        reveal_strlit(" from ");
        reveal_strlit(" entries");
    }
    let mut s = String::from_str("Array index out of bounds, cannot get item at index ");
    s.append(decimal_string(ix as u64).as_str());
    s.append(" from ");
    s.append(decimal_string(len as u64).as_str());
    s.append(" entries");
    s
}

proof fn lemma_first_fault_skip(idx: Seq<Option<int>>, len: int, from: int, k: int)
    requires
        0 <= from <= k <= idx.len(),
        forall|t: int| from <= t < k ==> !faulty(#[trigger] idx[t], len),
    ensures
        first_fault(idx, len, from) == first_fault(idx, len, k),
    decreases k - from,
{
    if from < k {
        lemma_first_fault_skip(idx, len, from + 1, k);
    }
}

/// Checks every non-null index against `len`; fails on the first one that does not
/// convert or is out of range, with its message.
pub fn check_bounds(indices: &PrimitiveArray, len: usize) -> (r: Result<(), ArrowError>)
    requires
        indices.wf(),
    ensures
        r is Ok <==> first_fault(indices.index_view(), len as int, 0) is None,
        r is Ok ==> castable(indices.index_view()) && in_reach(indices.index_view(), len as int),
        r matches Err(e) ==> e is ComputeError && (first_fault(indices.index_view(), len as int, 0) matches Some(k)
            && e.message_spec() == fault_message(indices.index_view()[k]->0, len as int)),
{
    let n = indices.values.len();
    let ghost idx = indices.index_view();
    let mut k: usize = 0;
    while k < n
        invariant
            k <= n,
            n == idx.len(),
            idx == indices.index_view(),
            indices.wf(),
            forall|t: int| 0 <= t < k ==> !faulty(#[trigger] idx[t], len as int),
        decreases n - k,
    {
        if valid_at(&indices.validity, k) {
            let x = indices.values[k];
            proof {
                lemma_first_fault_skip(idx, len as int, 0, k as int);
            }
            if x < 0 || x > usize::MAX as i128 {
                return Err(cast_error());
            }
            let ix = x as usize;
            if ix >= len {
                return Err(ArrowError::ComputeError(bounds_message_text(ix, len)));
            }
        }
        k += 1;
    }
    proof {
        lemma_first_fault_skip(idx, len as int, 0, n as int);
        assert forall|t: int| 0 <= t < idx.len() implies castable_at(#[trigger] idx[t]) by {
            assert(!faulty(idx[t], len as int));
        }
        assert forall|t: int| 0 <= t < idx.len() implies match #[trigger] idx[t] {
            Some(x) => x >= 0 ==> x < len,
            None => true,
        } by {
            assert(!faulty(idx[t], len as int));
        }
    }
    Ok(())
}

/// Takes the slots of `values` at `indices`: slot `k` of the result is
/// `values[indices[k]]`, or null where the index is null.
///
/// With bounds checking, the first index that does not convert or is out of range
/// fails with its message. Without it, every non-negative index must be in range
/// (except for a null array, which never reads its indices).
pub fn take(values: &Array, indices: &PrimitiveArray, options: Option<TakeOptions>) -> (r: Result<
    Array,
    ArrowError,
>)
    requires
        values.wf(),
        indices.wf(),
        indices.data_type.is_integral(),
        !checks_bounds(options) ==> (values is Null || in_reach(
            indices.index_view(),
            values.len_spec() as int,
        )),
    ensures
        checks_bounds(options) && first_fault(indices.index_view(), values.len_spec() as int, 0)
            is Some ==> (r matches Err(e) && e is ComputeError && e.message_spec() == fault_message(
            indices.index_view()[first_fault(
                indices.index_view(),
                values.len_spec() as int,
                0,
            )->0]->0,
            values.len_spec() as int,
        )),
        !(checks_bounds(options) && first_fault(indices.index_view(), values.len_spec() as int, 0)
            is Some) ==> (r is Ok <==> take_ok(*values, indices.index_view())),
        r matches Err(e) ==> e is ComputeError || (e is NotImplemented && e.message_spec()
            == not_implemented_message()),
        r matches Ok(a) ==> {
            &&& a.wf()
            &&& a.len_spec() == indices.values@.len()
            &&& a.logical() == gather(values.logical(), indices.index_view())
            &&& a.type_tree() == values.type_tree()
            &&& shape_kept(*values, *indices, a)
        },
{
    let opts = match options {
        Some(o) => o,
        None => TakeOptions { check_bounds: false },
    };
    if opts.check_bounds {
        check_bounds(indices, values.len())?;
    }
    take_impl(values, indices, opts)
}

/// Null propagation: slot `k` of a gather is null iff index `k` is null or the
/// values are null at that index.
pub proof fn law_null_propagation(values: Array, idx: Seq<Option<int>>, k: int)
    requires
        values.wf(),
        0 <= k < idx.len(),
        in_reach(idx, values.len_spec() as int),
        castable(idx),
    ensures
        gather(values.logical(), idx)[k] is None <==> (idx[k] is None || values.logical()[idx[k]->0]
            is None),
{
    lemma_logical_len(values);
    assert(castable_at(idx[k]));
}

/// Identity: taking every position in order gives back the same logical array.
pub proof fn law_identity(values: Array)
    ensures
        gather(values.logical(), Seq::new(values.len_spec(), |i: int| Some(i))) == values.logical(),
{
    lemma_logical_len(values);
    assert(gather(values.logical(), Seq::new(values.len_spec(), |i: int| Some(i))) =~= values.logical());
}

/// Composition: taking at `idx` and then at `jdx` is taking once at `idx` gathered by `jdx`.
pub proof fn law_composition(values: Array, idx: Seq<Option<int>>, jdx: Seq<Option<int>>)
    ensures
        gather(gather(values.logical(), idx), jdx) == gather(values.logical(), gather(idx, jdx)),
{
    lemma_gather_compose(values.logical(), idx, jdx);
}

} // verus!
