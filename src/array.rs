//! The columnar array model: a tagged sum of array variants, each with an
//! optional validity bitmap, and its logical view as a sequence of optional values.
use vstd::prelude::*;
use std::sync::Arc;
use crate::bitmap::Bitmap;

verus! {

broadcast use vstd::std_specs::vec::axiom_vec_index_decreases;

#[derive(Clone, Copy, Debug, PartialEq, Eq, Structural)]
pub enum TimeUnit {
    Second,
    Millisecond,
    Microsecond,
    Nanosecond,
}

#[derive(Clone, Copy, Debug, PartialEq, Eq, Structural)]
pub enum IntervalUnit {
    YearMonth,
    DayTime,
    MonthDayNano,
}

/// Element type of a primitive array. Every element is held as an `i128`;
/// for the floating-point types it is the IEEE bit pattern.
#[derive(Debug)]
pub enum PrimitiveType {
    Int8,
    Int16,
    Int32,
    Int64,
    UInt8,
    UInt16,
    UInt32,
    UInt64,
    Float32,
    Float64,
    Date32,
    Date64,
    Time32(TimeUnit),
    Time64(TimeUnit),
    Timestamp(TimeUnit, Option<String>),
    Interval(IntervalUnit),
    Duration(TimeUnit),
    Decimal128(usize, usize),
}

impl PrimitiveType {
    /// Whether the type is one of the eight integer types.
    pub fn integral(&self) -> (r: bool)
        ensures
            r == self.is_integral(),
    {
        match self {
            PrimitiveType::Int8 | PrimitiveType::Int16 | PrimitiveType::Int32
            | PrimitiveType::Int64 | PrimitiveType::UInt8 | PrimitiveType::UInt16
            | PrimitiveType::UInt32 | PrimitiveType::UInt64 => true,
            _ => false,
        }
    }

    pub open spec fn is_integral(&self) -> bool {
        match self {
            PrimitiveType::Int8 | PrimitiveType::Int16 | PrimitiveType::Int32
            | PrimitiveType::Int64 | PrimitiveType::UInt8 | PrimitiveType::UInt16
            | PrimitiveType::UInt32 | PrimitiveType::UInt64 => true,
            _ => false,
        }
    }

    /// Whether the type is a decimal.
    pub fn is_decimal(&self) -> (r: bool)
        ensures
            r == self is Decimal128,
    {
        match self {
            PrimitiveType::Decimal128(_, _) => true,
            _ => false,
        }
    }

    /// An equal copy.
    pub fn duplicate(&self) -> (r: PrimitiveType)
        ensures
            r == *self,
    {
        match self {
            PrimitiveType::Int8 => PrimitiveType::Int8,
            PrimitiveType::Int16 => PrimitiveType::Int16,
            PrimitiveType::Int32 => PrimitiveType::Int32,
            PrimitiveType::Int64 => PrimitiveType::Int64,
            PrimitiveType::UInt8 => PrimitiveType::UInt8,
            PrimitiveType::UInt16 => PrimitiveType::UInt16,
            PrimitiveType::UInt32 => PrimitiveType::UInt32,
            PrimitiveType::UInt64 => PrimitiveType::UInt64,
            PrimitiveType::Float32 => PrimitiveType::Float32,
            PrimitiveType::Float64 => PrimitiveType::Float64,
            PrimitiveType::Date32 => PrimitiveType::Date32,
            PrimitiveType::Date64 => PrimitiveType::Date64,
            PrimitiveType::Time32(u) => PrimitiveType::Time32(*u),
            PrimitiveType::Time64(u) => PrimitiveType::Time64(*u),
            PrimitiveType::Timestamp(u, tz) => {
                let tz2 = match tz {
                    Some(s) => Some(s.clone()),
                    None => None,
                };
                proof {
                    if tz.is_some() {
                        assert(tz2.unwrap()@ == tz.unwrap()@);
                    }
                }
                PrimitiveType::Timestamp(*u, tz2)
            },
            PrimitiveType::Interval(u) => PrimitiveType::Interval(*u),
            PrimitiveType::Duration(u) => PrimitiveType::Duration(*u),
            PrimitiveType::Decimal128(p, s) => PrimitiveType::Decimal128(*p, *s),
        }
    }
}

/// Which variable-length byte array: text or binary, 32- or 64-bit offsets.
#[derive(Clone, Copy, Debug, PartialEq, Eq, Structural)]
pub enum BytesKind {
    Utf8,
    LargeUtf8,
    Binary,
    LargeBinary,
}

/// Largest offset that an offsets buffer of this width can hold.
pub open spec fn max_offset(large: bool) -> int {
    if large {
        i64::MAX as int
    } else {
        i32::MAX as int
    }
}

impl BytesKind {
    pub open spec fn is_large(&self) -> bool {
        *self == BytesKind::LargeUtf8 || *self == BytesKind::LargeBinary
    }

    /// Whether the values are text.
    pub fn is_text(&self) -> (r: bool)
        ensures
            r == (*self == BytesKind::Utf8 || *self == BytesKind::LargeUtf8),
    {
        match self {
            BytesKind::Utf8 | BytesKind::LargeUtf8 => true,
            _ => false,
        }
    }

    pub fn large(&self) -> (r: bool)
        ensures
            r == self.is_large(),
    {
        match self {
            BytesKind::LargeUtf8 | BytesKind::LargeBinary => true,
            _ => false,
        }
    }
}

/// The logical value held in a non-null slot.
pub enum Value {
    Bool(bool),
    Int(i128),
    Bytes(Seq<u8>),
    List(Seq<Option<Value>>),
    Struct(Seq<Option<Value>>),
}

/// The data type of an array, with the types of its children.
pub enum TypeTree {
    Null,
    Boolean,
    Primitive(PrimitiveType),
    Bytes(BytesKind),
    FixedSizeBinary(usize),
    List(bool, Box<TypeTree>),
    FixedSizeList(usize, Box<TypeTree>),
    Struct(Seq<Seq<char>>, Seq<TypeTree>),
    Dictionary(PrimitiveType, Box<TypeTree>),
}

/// `x` lies in the range of values of type `t`: that of its integer width, or of the
/// unsigned bit pattern for the floating-point types.
pub open spec fn fits_type(t: PrimitiveType, x: i128) -> bool {
    match t {
        PrimitiveType::Int8 => i8::MIN <= x <= i8::MAX,
        PrimitiveType::Int16 => i16::MIN <= x <= i16::MAX,
        PrimitiveType::Int32 | PrimitiveType::Date32 | PrimitiveType::Time32(_) => i32::MIN <= x
            <= i32::MAX,
        PrimitiveType::Int64 | PrimitiveType::Date64 | PrimitiveType::Time64(_)
        | PrimitiveType::Timestamp(_, _) | PrimitiveType::Duration(_) => i64::MIN <= x <= i64::MAX,
        PrimitiveType::UInt8 => 0 <= x <= u8::MAX,
        PrimitiveType::UInt16 => 0 <= x <= u16::MAX,
        PrimitiveType::UInt32 | PrimitiveType::Float32 => 0 <= x <= u32::MAX,
        PrimitiveType::UInt64 | PrimitiveType::Float64 => 0 <= x <= u64::MAX,
        PrimitiveType::Interval(IntervalUnit::YearMonth) => i32::MIN <= x <= i32::MAX,
        PrimitiveType::Interval(IntervalUnit::DayTime) => i64::MIN <= x <= i64::MAX,
        PrimitiveType::Interval(IntervalUnit::MonthDayNano) => true,
        PrimitiveType::Decimal128(_, _) => true,
    }
}

/// A validity bitmap, if present, covers `n` slots.
pub open spec fn validity_wf(v: Option<Bitmap>, n: nat) -> bool {
    match v {
        Some(b) => b.wf() && b@.len() == n,
        None => true,
    }
}

/// Slot `i` is non-null under this validity.
pub open spec fn valid_in(v: Option<Bitmap>, i: int) -> bool {
    match v {
        Some(b) => b@[i],
        None => true,
    }
}

/// Offsets of `n + 1` entries, non-negative, non-decreasing, ending at most at `limit`
/// and at most at the largest value of their width.
pub open spec fn offsets_wf(offsets: Seq<i64>, limit: int, large: bool) -> bool {
    &&& offsets.len() >= 1
    &&& 0 <= offsets[0]
    &&& forall|i: int, j: int| 0 <= i <= j < offsets.len() ==> offsets[i] <= offsets[j]
    &&& offsets[offsets.len() - 1] <= limit
    &&& offsets[offsets.len() - 1] <= max_offset(large)
}

/// Gathers `v` at the positions `idx`: a null or out-of-range position gives null.
pub open spec fn gather<A>(v: Seq<Option<A>>, idx: Seq<Option<int>>) -> Seq<Option<A>> {
    Seq::new(
        idx.len(),
        |k: int|
            match idx[k] {
                Some(i) => if 0 <= i < v.len() {
                    v[i]
                } else {
                    None
                },
                None => None,
            },
    )
}

/// Gathering at `idx` and then at `jdx` is gathering once at the composed positions.
pub proof fn lemma_gather_compose<A>(v: Seq<Option<A>>, idx: Seq<Option<int>>, jdx: Seq<Option<int>>)
    ensures
        gather(gather(v, idx), jdx) == gather(v, gather(idx, jdx)),
{
    assert(gather(gather(v, idx), jdx) =~= gather(v, gather(idx, jdx)));
}

/// An array of `len` null slots.
#[derive(Debug)]
pub struct NullArray {
    pub len: usize,
}

/// Booleans, as a packed bitmap of values.
#[derive(Debug)]
pub struct BooleanArray {
    pub values: Bitmap,
    pub validity: Option<Bitmap>,
}

/// Fixed-width numbers (integers, dates, times, decimals, float bit patterns).
#[derive(Debug)]
pub struct PrimitiveArray {
    pub data_type: PrimitiveType,
    pub values: Vec<i128>,
    pub validity: Option<Bitmap>,
}

/// Strings or binary values: slot `i` holds `data[offsets[i]..offsets[i + 1]]`.
#[derive(Debug)]
pub struct BytesArray {
    pub kind: BytesKind,
    pub offsets: Vec<i64>,
    pub data: Vec<u8>,
    pub validity: Option<Bitmap>,
}

/// Binary values of `width` bytes each.
#[derive(Debug)]
pub struct FixedSizeBinaryArray {
    pub width: usize,
    pub len: usize,
    pub data: Vec<u8>,
    pub validity: Option<Bitmap>,
}

/// Lists: slot `i` holds the child's slots `offsets[i]..offsets[i + 1]`.
#[derive(Debug)]
pub struct ListArray {
    pub large: bool,
    pub offsets: Vec<i64>,
    pub child: Box<Array>,
    pub validity: Option<Bitmap>,
}

/// Lists of `size` elements each: slot `i` holds the child's slots `i * size..(i + 1) * size`.
#[derive(Debug)]
pub struct FixedSizeListArray {
    pub size: usize,
    pub len: usize,
    pub child: Box<Array>,
    pub validity: Option<Bitmap>,
}

/// Named columns of equal length; the struct's own validity applies on top.
#[derive(Debug)]
pub struct StructArray {
    pub names: Vec<String>,
    pub columns: Vec<Array>,
    pub len: usize,
    pub validity: Option<Bitmap>,
}

/// Dictionary encoding: slot `i` is `values[keys[i]]`; the values are shared.
#[derive(Debug)]
pub struct DictionaryArray {
    pub keys: PrimitiveArray,
    pub values: Arc<Array>,
}

/// An array of any supported variant.
#[derive(Debug)]
pub enum Array {
    Null(NullArray),
    Boolean(BooleanArray),
    Primitive(PrimitiveArray),
    Bytes(BytesArray),
    FixedSizeBinary(FixedSizeBinaryArray),
    List(ListArray),
    FixedSizeList(FixedSizeListArray),
    Struct(StructArray),
    Dictionary(DictionaryArray),
}

impl BooleanArray {
    pub open spec fn wf(&self) -> bool {
        self.values.wf() && validity_wf(self.validity, self.values@.len())
    }

    pub open spec fn logical(&self) -> Seq<Option<Value>> {
        Seq::new(
            self.values@.len(),
            |i: int|
                if valid_in(self.validity, i) {
                    Some(Value::Bool(self.values@[i]))
                } else {
                    None
                },
        )
    }
}

impl PrimitiveArray {
    /// The validity covers the values, and every value lies in the range of the type.
    pub open spec fn wf(&self) -> bool {
        &&& validity_wf(self.validity, self.values@.len())
        &&& forall|i: int| 0 <= i < self.values@.len() ==> fits_type(self.data_type, #[trigger] self.values@[i])
    }

    pub open spec fn logical(&self) -> Seq<Option<Value>> {
        Seq::new(
            self.values@.len(),
            |i: int|
                if valid_in(self.validity, i) {
                    Some(Value::Int(self.values@[i]))
                } else {
                    None
                },
        )
    }

    /// The array read as positions: null slots are `None`.
    pub open spec fn index_view(&self) -> Seq<Option<int>> {
        Seq::new(
            self.values@.len(),
            |i: int|
                if valid_in(self.validity, i) {
                    Some(self.values@[i] as int)
                } else {
                    None
                },
        )
    }
}

impl BytesArray {
    pub open spec fn len_spec(&self) -> nat {
        (self.offsets@.len() - 1) as nat
    }

    pub open spec fn wf(&self) -> bool {
        &&& offsets_wf(self.offsets@, self.data@.len() as int, self.kind.is_large())
        &&& validity_wf(self.validity, self.len_spec())
    }

    pub open spec fn slot(&self, i: int) -> Seq<u8> {
        self.data@.subrange(self.offsets@[i] as int, self.offsets@[i + 1] as int)
    }

    pub open spec fn logical(&self) -> Seq<Option<Value>> {
        Seq::new(
            self.len_spec(),
            |i: int|
                if valid_in(self.validity, i) {
                    Some(Value::Bytes(self.slot(i)))
                } else {
                    None
                },
        )
    }
}

impl FixedSizeBinaryArray {
    pub open spec fn wf(&self) -> bool {
        &&& self.data@.len() == self.len * self.width
        &&& validity_wf(self.validity, self.len as nat)
    }

    pub open spec fn slot(&self, i: int) -> Seq<u8> {
        self.data@.subrange(i * self.width, i * self.width + self.width)
    }

    pub open spec fn logical(&self) -> Seq<Option<Value>> {
        Seq::new(
            self.len as nat,
            |i: int|
                if valid_in(self.validity, i) {
                    Some(Value::Bytes(self.slot(i)))
                } else {
                    None
                },
        )
    }
}

impl Array {
    /// Number of slots.
    pub open spec fn len_spec(&self) -> nat {
        match self {
            Array::Null(a) => a.len as nat,
            Array::Boolean(a) => a.values@.len(),
            Array::Primitive(a) => a.values@.len(),
            Array::Bytes(a) => a.len_spec(),
            Array::FixedSizeBinary(a) => a.len as nat,
            Array::List(a) => (a.offsets@.len() - 1) as nat,
            Array::FixedSizeList(a) => a.len as nat,
            Array::Struct(a) => a.len as nat,
            Array::Dictionary(a) => a.keys.values@.len(),
        }
    }

    /// Number of slots.
    pub fn len(&self) -> (r: usize)
        requires
            self.wf(),
        ensures
            r == self.len_spec(),
    {
        match self {
            Array::Null(a) => a.len,
            Array::Boolean(a) => a.values.len(),
            Array::Primitive(a) => a.values.len(),
            Array::Bytes(a) => a.offsets.len() - 1,
            Array::FixedSizeBinary(a) => a.len,
            Array::List(a) => a.offsets.len() - 1,
            Array::FixedSizeList(a) => a.len,
            Array::Struct(a) => a.len,
            Array::Dictionary(a) => a.keys.values.len(),
        }
    }

    /// The layout invariants of the variant, and of every child.
    pub open spec fn wf(&self) -> bool
        decreases self,
    {
        match self {
            Array::Null(_) => true,
            Array::Boolean(a) => a.wf(),
            Array::Primitive(a) => a.wf(),
            Array::Bytes(a) => a.wf(),
            Array::FixedSizeBinary(a) => a.wf(),
            Array::List(a) => {
                &&& a.child.wf()
                &&& offsets_wf(a.offsets@, a.child.len_spec() as int, a.large)
                &&& validity_wf(a.validity, (a.offsets@.len() - 1) as nat)
            },
            Array::FixedSizeList(a) => {
                &&& a.child.wf()
                &&& a.child.len_spec() == a.len * a.size
                &&& validity_wf(a.validity, a.len as nat)
            },
            Array::Struct(a) => {
                &&& a.names@.len() == a.columns@.len()
                &&& forall|c: int|
                    0 <= c < a.columns@.len() ==> (#[trigger] a.columns@[c]).wf()
                        && a.columns@[c].len_spec() == a.len
                &&& validity_wf(a.validity, a.len as nat)
            },
            Array::Dictionary(a) => {
                &&& a.keys.wf()
                &&& a.values.wf()
            },
        }
    }

    /// The logical content: `None` for a null slot, else the slot's value.
    pub open spec fn logical(&self) -> Seq<Option<Value>>
        decreases self,
    {
        match self {
            Array::Null(a) => Seq::new(a.len as nat, |i: int| None),
            Array::Boolean(a) => a.logical(),
            Array::Primitive(a) => a.logical(),
            Array::Bytes(a) => a.logical(),
            Array::FixedSizeBinary(a) => a.logical(),
            Array::List(a) => {
                let inner = a.child.logical();
                Seq::new(
                    (a.offsets@.len() - 1) as nat,
                    |i: int|
                        if valid_in(a.validity, i) {
                            Some(
                                Value::List(
                                    inner.subrange(a.offsets@[i] as int, a.offsets@[i + 1] as int),
                                ),
                            )
                        } else {
                            None
                        },
                )
            },
            Array::FixedSizeList(a) => {
                let inner = a.child.logical();
                Seq::new(
                    a.len as nat,
                    |i: int|
                        if valid_in(a.validity, i) {
                            Some(Value::List(inner.subrange(i * a.size, i * a.size + a.size)))
                        } else {
                            None
                        },
                )
            },
            Array::Struct(a) => struct_logical(*a),
            Array::Dictionary(a) => gather(a.values.logical(), a.keys.index_view()),
        }
    }

    /// The data type, with the children's types.
    pub open spec fn type_tree(&self) -> TypeTree
        decreases self,
    {
        match self {
            Array::Null(_) => TypeTree::Null,
            Array::Boolean(_) => TypeTree::Boolean,
            Array::Primitive(a) => TypeTree::Primitive(a.data_type),
            Array::Bytes(a) => TypeTree::Bytes(a.kind),
            Array::FixedSizeBinary(a) => TypeTree::FixedSizeBinary(a.width),
            Array::List(a) => TypeTree::List(a.large, Box::new(a.child.type_tree())),
            Array::FixedSizeList(a) => TypeTree::FixedSizeList(a.size, Box::new(a.child.type_tree())),
            Array::Struct(a) => struct_type_tree(*a),
            Array::Dictionary(a) => TypeTree::Dictionary(a.keys.data_type, Box::new(a.values.type_tree())),
        }
    }
}

/// The logical content of a struct array: slot `i` holds the columns' slots `i`.
pub open spec fn struct_logical(a: StructArray) -> Seq<Option<Value>>
    decreases a,
{
    Seq::new(
        a.len as nat,
        |i: int|
            if valid_in(a.validity, i) {
                Some(
                    Value::Struct(
                        Seq::new(
                            a.columns@.len(),
                            |c: int|
                                if 0 <= c < a.columns@.len() {
                                    a.columns@[c].logical()[i]
                                } else {
                                    None
                                },
                        ),
                    ),
                )
            } else {
                None
            },
    )
}

/// The data type of a struct array: its field names and the columns' types.
pub open spec fn struct_type_tree(a: StructArray) -> TypeTree
    decreases a,
{
    TypeTree::Struct(
        Seq::new(a.names@.len(), |c: int| a.names@[c]@),
        Seq::new(
            a.columns@.len(),
            |c: int|
                if 0 <= c < a.columns@.len() {
                    a.columns@[c].type_tree()
                } else {
                    TypeTree::Null
                },
        ),
    )
}

/// The validity and values of optional slots.
fn split_options<T: Copy>(items: &Vec<Option<T>>, fill: T) -> (r: (Bitmap, Vec<T>))
    ensures
        r.0.wf(),
        r.0@.len() == items@.len(),
        r.1@.len() == items@.len(),
        forall|i: int|
            0 <= i < items@.len() ==> (#[trigger] r.0@[i] == items@[i] is Some) && (items@[i] matches Some(x)
                ==> r.1@[i] == x),
{
    let mut valid: Vec<bool> = Vec::new();
    let mut vals: Vec<T> = Vec::new();
    let mut i: usize = 0;
    while i < items.len()
        invariant
            i <= items@.len(),
            valid@.len() == i,
            vals@.len() == i,
            forall|t: int|
                0 <= t < i ==> (#[trigger] valid@[t] == items@[t] is Some) && (items@[t] matches Some(x)
                    ==> vals@[t] == x),
        decreases items@.len() - i,
    {
        match items[i] {
            Some(x) => {
                valid.push(true);
                vals.push(x);
            },
            None => {
                valid.push(false);
                vals.push(fill);
            },
        }
        i += 1;
    }
    (Bitmap::from_bools(&valid), vals)
}

impl PrimitiveArray {
    /// An array of the given optional values.
    pub fn from_options(data_type: PrimitiveType, items: &Vec<Option<i128>>) -> (r: PrimitiveArray)
        requires
            forall|i: int| 0 <= i < items@.len() ==> (#[trigger] items@[i] matches Some(x) ==> fits_type(data_type, x)),
        ensures
            r.wf(),
            r.data_type == data_type,
            r.logical() == Seq::new(
                items@.len(),
                |i: int|
                    match items@[i] {
                        Some(x) => Some(Value::Int(x)),
                        None => None,
                    },
            ),
    {
        let mut valid: Vec<bool> = Vec::new();
        let mut values: Vec<i128> = Vec::new();
        let mut i: usize = 0;
        while i < items.len()
            invariant
                i <= items@.len(),
                valid@.len() == i,
                values@.len() == i,
                forall|i: int| 0 <= i < items@.len() ==> (#[trigger] items@[i] matches Some(x) ==> fits_type(data_type, x)),
                forall|t: int|
                    0 <= t < i ==> #[trigger] valid@[t] == items@[t] is Some && values@[t] == (match items@[t] {
                        Some(x) => x,
                        None => 0,
                    }),
            decreases items@.len() - i,
        {
            match items[i] {
                Some(x) => {
                    valid.push(true);
                    values.push(x);
                },
                None => {
                    valid.push(false);
                    values.push(0);
                },
            }
            i += 1;
        }
        let r = PrimitiveArray { data_type, values, validity: Some(Bitmap::from_bools(&valid)) };
        assert forall|i: int| 0 <= i < r.values@.len() implies fits_type(data_type, #[trigger] r.values@[i]) by {
            assert(valid@[i] == items@[i] is Some);
        }
        assert(r.logical() =~= Seq::new(
            items@.len(),
            |i: int|
                match items@[i] {
                    Some(x) => Some(Value::Int(x)),
                    None => None,
                },
        ));
        r
    }

    /// An array of the given values, none null.
    pub fn from_values(data_type: PrimitiveType, values: Vec<i128>) -> (r: PrimitiveArray)
        requires
            forall|i: int| 0 <= i < values@.len() ==> fits_type(data_type, #[trigger] values@[i]),
        ensures
            r.wf(),
            r.data_type == data_type,
            r.logical() == Seq::new(values@.len(), |i: int| Some(Value::Int(values@[i]))),
    {
        let r = PrimitiveArray { data_type, values, validity: None };
        assert(r.logical() =~= Seq::new(values@.len(), |i: int| Some(Value::Int(values@[i]))));
        r
    }

    /// The slots: `None` where null.
    pub fn to_options(&self) -> (r: Vec<Option<i128>>)
        requires
            self.wf(),
        ensures
            r@.len() == self.values@.len(),
            forall|i: int|
                0 <= i < r@.len() ==> #[trigger] r@[i] == (if valid_in(self.validity, i) {
                    Some(self.values@[i])
                } else {
                    None
                }),
    {
        let mut r: Vec<Option<i128>> = Vec::new();
        let mut i: usize = 0;
        while i < self.values.len()
            invariant
                i <= self.values@.len(),
                self.wf(),
                r@.len() == i,
                forall|t: int|
                    0 <= t < i ==> #[trigger] r@[t] == (if valid_in(self.validity, t) {
                        Some(self.values@[t])
                    } else {
                        None
                    }),
            decreases self.values@.len() - i,
        {
            let valid = match &self.validity {
                Some(b) => b.get(i),
                None => true,
            };
            r.push(if valid { Some(self.values[i]) } else { None });
            i += 1;
        }
        r
    }
}

impl BooleanArray {
    /// An array of the given optional booleans.
    pub fn from_options(items: &Vec<Option<bool>>) -> (r: BooleanArray)
        ensures
            r.wf(),
            r.logical() == Seq::new(
                items@.len(),
                |i: int|
                    match items@[i] {
                        Some(x) => Some(Value::Bool(x)),
                        None => None,
                    },
            ),
    {
        let (valid, vals) = split_options(items, false);
        let r = BooleanArray { values: Bitmap::from_bools(&vals), validity: Some(valid) };
        assert(r.logical() =~= Seq::new(
            items@.len(),
            |i: int|
                match items@[i] {
                    Some(x) => Some(Value::Bool(x)),
                    None => None,
                },
        ));
        r
    }

    /// The slots: `None` where null.
    pub fn to_options(&self) -> (r: Vec<Option<bool>>)
        requires
            self.wf(),
        ensures
            r@.len() == self.values@.len(),
            forall|i: int|
                0 <= i < r@.len() ==> #[trigger] r@[i] == (if valid_in(self.validity, i) {
                    Some(self.values@[i])
                } else {
                    None
                }),
    {
        let mut r: Vec<Option<bool>> = Vec::new();
        let mut i: usize = 0;
        while i < self.values.len()
            invariant
                i <= self.values@.len(),
                self.wf(),
                r@.len() == i,
                forall|t: int|
                    0 <= t < i ==> #[trigger] r@[t] == (if valid_in(self.validity, t) {
                        Some(self.values@[t])
                    } else {
                        None
                    }),
            decreases self.values@.len() - i,
        {
            let valid = match &self.validity {
                Some(b) => b.get(i),
                None => true,
            };
            r.push(if valid { Some(self.values.get(i)) } else { None });
            i += 1;
        }
        r
    }
}

impl BytesArray {
    /// The bytes of slot `i`.
    pub fn value(&self, i: usize) -> (r: Vec<u8>)
        requires
            self.wf(),
            i < self.len_spec(),
        ensures
            r@ == self.slot(i as int),
    {
        let last = self.offsets.len() - 1;
        assert(self.offsets@[0] <= self.offsets@[i as int]);
        assert(self.offsets@[i + 1] <= self.offsets@[last as int]);
        let dl = self.data.len();
        assert(self.offsets@[i + 1] <= dl);
        let s = self.offsets[i] as usize;
        let e = self.offsets[i + 1] as usize;
        let mut r: Vec<u8> = Vec::new();
        let mut j = s;
        while j < e
            invariant
                s <= j <= e <= self.data@.len(),
                s == self.offsets@[i as int],
                e == self.offsets@[i + 1],
                r@ == self.data@.subrange(s as int, j as int),
            decreases e - j,
        {
            r.push(self.data[j]);
            j += 1;
            assert(r@ =~= self.data@.subrange(s as int, j as int));
        }
        r
    }

    /// Whether slot `i` is non-null.
    pub fn is_valid(&self, i: usize) -> (r: bool)
        requires
            self.wf(),
            i < self.len_spec(),
        ensures
            r == valid_in(self.validity, i as int),
    {
        match &self.validity {
            Some(b) => b.get(i),
            None => true,
        }
    }

    /// An array of the given optional byte strings; `None` if their total length
    /// exceeds what the offsets of `kind` can hold.
    pub fn from_options(kind: BytesKind, items: &Vec<Option<Vec<u8>>>) -> (r: Option<BytesArray>)
        ensures
            r matches Some(a) ==> a.wf() && a.kind == kind && a.len_spec() == items@.len() && (
            forall|i: int|
                0 <= i < items@.len() ==> #[trigger] a.logical()[i] == match items@[i] {
                    Some(b) => Some(Value::Bytes(b@)),
                    None => None,
                }),
    {
        let max: i64 = if kind.large() {
            i64::MAX
        } else {
            i32::MAX as i64
        };
        let mut offsets: Vec<i64> = Vec::new();
        offsets.push(0);
        let mut data: Vec<u8> = Vec::new();
        let mut valid: Vec<bool> = Vec::new();
        let mut i: usize = 0;
        while i < items.len()
            invariant
                i <= items@.len(),
                max == max_offset(kind.is_large()),
                offsets@.len() == i + 1,
                valid@.len() == i,
                offsets@[0] == 0,
                offsets@[i as int] == data@.len(),
                data@.len() <= max,
                forall|a: int, b: int| 0 <= a <= b <= i ==> offsets@[a] <= offsets@[b],
                forall|t: int|
                    0 <= t < i ==> (#[trigger] valid@[t] == items@[t] is Some) && (items@[t] matches Some(b)
                        ==> data@.subrange(offsets@[t] as int, offsets@[t + 1] as int) == b@),
            decreases items@.len() - i,
        {
            let ghost before = data@;
            let ghost offs = offsets@;
            let ghost vbefore = valid@;
            match &items[i] {
                Some(b) => {
                    if b.len() as u128 > (max as u128) - (data.len() as u128) {
                        return None;
                    }
                    let mut j: usize = 0;
                    while j < b.len()
                        invariant
                            j <= b@.len(),
                            data@ == before + b@.take(j as int),
                        decreases b@.len() - j,
                    {
                        data.push(b[j]);
                        j += 1;
                        assert(data@ =~= before + b@.take(j as int));
                    }
                    assert(b@.take(b@.len() as int) =~= b@);
                    assert(data@.subrange(before.len() as int, data@.len() as int) =~= b@);
                    assert(data@.subrange(before.len() as int, data@.len() as int)
                        == items@[i as int]->0@);
                    valid.push(true);
                },
                None => {
                    valid.push(false);
                },
            }
            offsets.push(data.len() as i64);
            assert(offsets@[i + 1] == data@.len());
            assert(offsets@[i as int] == before.len());
            assert(valid@[i as int] == items@[i as int] is Some);
            assert(items@[i as int] is Some ==> data@.subrange(
                offsets@[i as int] as int,
                offsets@[i + 1] as int,
            ) == items@[i as int]->0@);
            assert forall|t: int|
                0 <= t < i + 1 implies (#[trigger] valid@[t] == items@[t] is Some) && (items@[t] matches Some(b)
                ==> data@.subrange(offsets@[t] as int, offsets@[t + 1] as int) == b@) by {
                if t < i {
                    assert(vbefore[t] == items@[t] is Some);
                    assert(valid@[t] == vbefore[t]);
                    assert(offsets@[t + 1] <= offs[i as int]);
                    assert(data@.subrange(offsets@[t] as int, offsets@[t + 1] as int) =~= before.subrange(
                        offsets@[t] as int,
                        offsets@[t + 1] as int,
                    ));
                } else {
                    if let Some(b) = items@[t] {
                        assert(data@.subrange(offsets@[t] as int, offsets@[t + 1] as int) =~= b@);
                    }
                }
            }
            i += 1;
        }
        let r = BytesArray { kind, offsets, data, validity: Some(Bitmap::from_bools(&valid)) };
        Some(r)
    }
}

} // verus!
