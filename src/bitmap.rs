//! Packed validity bitmaps: one bit per slot, least significant bit first.
use vstd::prelude::*;

verus! {

/// Bit `j` (0 = least significant) of byte `b`.
pub open spec fn byte_bit(b: u8, j: u8) -> bool {
    (b >> j) & 1u8 == 1u8
}

proof fn lemma_set_bit(b: u8, j: u8, k: u8)
    requires
        j < 8,
        k < 8,
    ensures
        byte_bit(b | (1u8 << j), k) == (k == j || byte_bit(b, k)),
        byte_bit(b & !(1u8 << j), k) == (k != j && byte_bit(b, k)),
{
    assert(((b | (1u8 << j)) >> k) & 1u8 == 1u8 <==> (k == j || (b >> k) & 1u8 == 1u8))
        by (bit_vector)
        requires
            j < 8,
            k < 8,
    ;
    assert(((b & !(1u8 << j)) >> k) & 1u8 == 1u8 <==> (k != j && (b >> k) & 1u8 == 1u8))
        by (bit_vector)
        requires
            j < 8,
            k < 8,
    ;
}

proof fn lemma_full_byte(k: u8)
    requires
        k < 8,
    ensures
        byte_bit(0xffu8, k),
        !byte_bit(0u8, k),
{
    assert((0xffu8 >> k) & 1u8 == 1u8) by (bit_vector)
        requires
            k < 8,
    ;
    assert((0u8 >> k) & 1u8 == 0u8) by (bit_vector);
}

/// A packed bitmap of `len` bits over `ceil(len / 8)` bytes.
#[derive(Debug)]
pub struct Bitmap {
    bytes: Vec<u8>,
    len: usize,
}

impl View for Bitmap {
    type V = Seq<bool>;

    closed spec fn view(&self) -> Seq<bool> {
        Seq::new(self.len as nat, |i: int| byte_bit(self.bytes@[i / 8], (i % 8) as u8))
    }
}

/// Number of bytes needed for `n` bits.
pub open spec fn bytes_for(n: nat) -> nat {
    (n + 7) / 8
}

impl Bitmap {
    /// The bytes hold exactly enough room for the bits.
    pub closed spec fn wf(&self) -> bool {
        self.bytes@.len() == bytes_for(self.len as nat)
    }

    /// Number of bytes needed to hold `n` bits.
    pub fn ceil_bytes(n: usize) -> (r: usize)
        ensures
            r == bytes_for(n as nat),
    {
        n / 8 + if n % 8 == 0 { 0 } else { 1 }
    }

    /// A bitmap of `len` bits, all set (`value`) or all clear.
    pub fn new(len: usize, value: bool) -> (r: Bitmap)
        ensures
            r.wf(),
            r@ == Seq::new(len as nat, |i: int| value),
    {
        let nbytes = Self::ceil_bytes(len);
        let fill: u8 = if value { 0xff } else { 0 };
        let mut bytes: Vec<u8> = Vec::new();
        let mut k: usize = 0;
        while k < nbytes
            invariant
                k <= nbytes,
                bytes@.len() == k,
                forall|t: int| 0 <= t < k ==> bytes@[t] == fill,
            decreases nbytes - k,
        {
            bytes.push(fill);
            k += 1;
        }
        let r = Bitmap { bytes, len };
        assert forall|i: int| 0 <= i < len implies #[trigger] r@[i] == value by {
            lemma_full_byte((i % 8) as u8);
        }
        assert(r@ =~= Seq::new(len as nat, |i: int| value));
        r
    }

    /// A bitmap holding the given bits.
    pub fn from_bools(bits: &Vec<bool>) -> (r: Bitmap)
        ensures
            r.wf(),
            r@ == bits@,
    {
        let mut r = Self::new(bits.len(), false);
        let mut i: usize = 0;
        while i < bits.len()
            invariant
                i <= bits@.len(),
                r.wf(),
                r@.len() == bits@.len(),
                forall|t: int| 0 <= t < i ==> r@[t] == bits@[t],
                forall|t: int| i <= t < bits@.len() ==> !r@[t],
            decreases bits@.len() - i,
        {
            if bits[i] {
                r.set(i, true);
            }
            i += 1;
        }
        assert(r@ =~= bits@);
        r
    }

    /// The bits, one `bool` each.
    pub fn to_bools(&self) -> (r: Vec<bool>)
        requires
            self.wf(),
        ensures
            r@ == self@,
    {
        let mut r: Vec<bool> = Vec::new();
        let mut i: usize = 0;
        while i < self.len
            invariant
                i <= self.len,
                self.wf(),
                self@.len() == self.len,
                r@ == self@.take(i as int),
            decreases self.len - i,
        {
            r.push(self.get(i));
            i += 1;
            assert(r@ =~= self@.take(i as int));
        }
        assert(r@ =~= self@);
        r
    }

    /// Number of bits.
    pub fn len(&self) -> (r: usize)
        ensures
            r == self@.len(),
    {
        self.len
    }

    /// Bit `i`.
    pub fn get(&self, i: usize) -> (r: bool)
        requires
            self.wf(),
            i < self@.len(),
        ensures
            r == self@[i as int],
    {
        let b = self.bytes[i / 8];
        let j = (i % 8) as u8;
        (b >> j) & 1u8 == 1u8
    }

    /// Sets bit `i` to `value`, leaving the others as they were.
    pub fn set(&mut self, i: usize, value: bool)
        requires
            old(self).wf(),
            i < old(self)@.len(),
        ensures
            final(self).wf(),
            final(self)@ == old(self)@.update(i as int, value),
    {
        let ghost before = self@;
        let ghost bytes0 = self.bytes@;
        let k = i / 8;
        let j = (i % 8) as u8;
        let b = self.bytes[k];
        let nb = if value { b | (1u8 << j) } else { b & !(1u8 << j) };
        self.bytes.set(k, nb);
        assert forall|t: int| 0 <= t < before.len() implies #[trigger] self@[t] == before.update(
            i as int,
            value,
        )[t] by {
            lemma_set_bit(b, j, (t % 8) as u8);
            if t / 8 != k as int {
                assert(self.bytes@[t / 8] == bytes0[t / 8]);
            }
        }
        assert(self@ =~= before.update(i as int, value));
    }

    /// Bitwise AND of `a` and `b` over equal lengths.
    pub fn and(a: &Bitmap, b: &Bitmap) -> (r: Bitmap)
        requires
            a.wf(),
            b.wf(),
            a@.len() == b@.len(),
        ensures
            r.wf(),
            r@ == Seq::new(a@.len(), |i: int| a@[i] && b@[i]),
    {
        let mut r = Self::new(a.len(), false);
        let mut i: usize = 0;
        while i < a.len()
            invariant
                i <= a@.len(),
                a.wf(),
                b.wf(),
                a@.len() == b@.len(),
                r.wf(),
                r@.len() == a@.len(),
                forall|t: int| 0 <= t < i ==> r@[t] == (a@[t] && b@[t]),
                forall|t: int| i <= t < a@.len() ==> !r@[t],
            decreases a@.len() - i,
        {
            if a.get(i) && b.get(i) {
                r.set(i, true);
            }
            i += 1;
        }
        assert(r@ =~= Seq::new(a@.len(), |i: int| a@[i] && b@[i]));
        r
    }
}

} // verus!
