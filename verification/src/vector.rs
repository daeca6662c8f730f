//! Vectors over GF(16) and their nibble-packed byte form.

use crate::f16::{
    all_nibbles, F16, gf16_add, gf16_mul, lemma_low_nibble, lemma_values_nibbles, lemma_values_push,
    lemma_values_update, values,
};
use crate::text::with_two_numbers;
use vstd::prelude::*;

verus! {

/// The number of bytes that hold `n` packed nibbles.
pub open spec fn packed_len(n: nat) -> nat {
    (n + 1) / 2
}

/// One packed byte: `lo` in the low nibble, `hi` in the high one.
pub open spec fn pack_byte(lo: u8, hi: u8) -> u8 {
    lo | (hi << 4)
}

/// The nibble-packed form of `v`: entry `i` sits in byte `i / 2`, low nibble
/// first; an odd length leaves the last high nibble zero.
pub open spec fn encode_nibbles(v: Seq<u8>) -> Seq<u8> {
    Seq::new(
        packed_len(v.len()),
        |j: int|
            pack_byte(
                v[2 * j],
                if 2 * j + 1 < v.len() {
                    v[2 * j + 1]
                } else {
                    0u8
                },
            ),
    )
}

/// Nibble `i` of a packed byte string.
pub open spec fn nibble_at(bytes: Seq<u8>, i: int) -> u8 {
    if i % 2 == 0 {
        bytes[i / 2] & 0x0f
    } else {
        (bytes[i / 2] >> 4) & 0x0f
    }
}

/// The first `n` nibbles of a packed byte string.
pub open spec fn decode_nibbles(bytes: Seq<u8>, n: nat) -> Seq<u8> {
    Seq::new(n, |i: int| nibble_at(bytes, i))
}

/// The entrywise sum of two sequences of equal length.
pub open spec fn seq_add(a: Seq<u8>, b: Seq<u8>) -> Seq<u8> {
    Seq::new(a.len(), |i: int| gf16_add(a[i], b[i]))
}

/// Every entry of `a` multiplied by `s`.
pub open spec fn seq_scale(a: Seq<u8>, s: u8) -> Seq<u8> {
    Seq::new(a.len(), |i: int| gf16_mul(a[i], s))
}

/// The sum of the products `a[k] * b[k]` for `k` from `lo` up to, not including, `hi`.
pub open spec fn dot_range(a: Seq<u8>, b: Seq<u8>, lo: int, hi: int) -> u8
    decreases hi - lo,
{
    if hi <= lo {
        0u8
    } else {
        gf16_add(dot_range(a, b, lo, hi - 1), gf16_mul(a[hi - 1], b[hi - 1]))
    }
}

/// The dot product of two sequences, over the length of the first.
pub open spec fn seq_dot(a: Seq<u8>, b: Seq<u8>) -> u8 {
    dot_range(a, b, 0, a.len() as int)
}

/// `y` with entries `i` and `j` exchanged; unchanged when either is no entry.
pub open spec fn swap_entries(y: Seq<u8>, i: int, j: int) -> Seq<u8> {
    if 0 <= i < y.len() && 0 <= j < y.len() {
        y.update(i, y[j]).update(j, y[i])
    } else {
        y
    }
}

/// The entries of each vector of a sequence.
pub open spec fn vector_views(s: Seq<Vector>) -> Seq<Seq<u8>> {
    Seq::new(s.len(), |i: int| s[i]@)
}

/// The low nibble of every entry.
pub open spec fn low_nibbles(s: Seq<u8>) -> Seq<u8> {
    Seq::new(s.len(), |i: int| s[i] & 0x0f)
}

/// The all-zero sequence of length `n`.
pub open spec fn seq_zero(n: nat) -> Seq<u8> {
    Seq::new(n, |i: int| 0u8)
}

/// Packing two nibbles into a byte loses neither.
pub proof fn lemma_pack_unpack(lo: u8, hi: u8)
    requires
        lo < 16,
        hi < 16,
    ensures
        pack_byte(lo, hi) & 0x0f == lo,
        (pack_byte(lo, hi) >> 4) & 0x0f == hi,
{
    assert((lo | (hi << 4)) & 0x0f == lo && ((lo | (hi << 4)) >> 4) & 0x0f == hi) by (bit_vector)
        requires
            lo < 16,
            hi < 16,
    ;
}

/// A byte is the pack of its two nibbles.
pub proof fn lemma_unpack_pack(b: u8)
    ensures
        pack_byte(b & 0x0f, (b >> 4) & 0x0f) == b,
        b & 0x0f < 16,
        (b >> 4) & 0x0f < 16,
{
    assert(((b & 0x0f) | (((b >> 4) & 0x0f) << 4)) == b && b & 0x0f < 16 && (b >> 4) & 0x0f < 16)
        by (bit_vector);
}

/// Encoding and then decoding gives the vector back, for every length, even or odd.
pub proof fn lemma_encode_decode_roundtrip(v: Seq<u8>)
    requires
        all_nibbles(v),
    ensures
        encode_nibbles(v).len() == packed_len(v.len()),
        decode_nibbles(encode_nibbles(v), v.len()) == v,
{
    let e = encode_nibbles(v);
    let d = decode_nibbles(e, v.len());
    assert forall|i: int| 0 <= i < v.len() implies d[i] == v[i] by {
        let j = i / 2;
        assert(0 <= j < packed_len(v.len()));
        let lo = v[2 * j];
        let hi = if 2 * j + 1 < v.len() {
            v[2 * j + 1]
        } else {
            0u8
        };
        assert(e[j] == pack_byte(lo, hi));
        lemma_pack_unpack(lo, hi);
    }
    assert(d =~= v);
}

/// Decoding an even number of nibbles and encoding them again gives the bytes back.
pub proof fn lemma_decode_encode_roundtrip(bytes: Seq<u8>)
    ensures
        encode_nibbles(decode_nibbles(bytes, 2 * bytes.len())) == bytes,
{
    let n = 2 * bytes.len();
    let d = decode_nibbles(bytes, n);
    let e = encode_nibbles(d);
    assert(e.len() == bytes.len());
    assert forall|j: int| 0 <= j < bytes.len() implies e[j] == bytes[j] by {
        assert(d[2 * j] == bytes[j] & 0x0f);
        assert(d[2 * j + 1] == (bytes[j] >> 4) & 0x0f);
        lemma_unpack_pack(bytes[j]);
    }
    assert(e =~= bytes);
}

/// A vector of field elements, of a length fixed when it is made.
#[derive(Debug, Clone, PartialEq, Eq)]
pub struct Vector {
    elements: Vec<F16>,
}

impl Vector {
    /// The nibbles of the entries, in order.
    pub closed spec fn view(&self) -> Seq<u8> {
        values(self.elements@)
    }

    /// The vector that holds `elements`.
    pub fn new(elements: Vec<F16>) -> (r: Vector)
        ensures
            r@ == values(elements@),
    {
        Vector { elements }
    }

    /// The zero vector of length `len`.
    pub fn zero(len: usize) -> (r: Vector)
        ensures
            r@ == seq_zero(len as nat),
    {
        let mut elements: Vec<F16> = Vec::new();
        let mut i: usize = 0;
        while i < len
            invariant
                i <= len,
                elements.len() == i,
                values(elements@) == seq_zero(i as nat),
            decreases len - i,
        {
            let z = F16::new(0);
            proof {
                lemma_values_push(elements@, z);
                assert(seq_zero(i as nat).push(0u8) =~= seq_zero((i + 1) as nat));
            }
            elements.push(z);
            i += 1;
        }
        Vector { elements }
    }

    /// The number of entries.
    pub fn len(&self) -> (n: usize)
        ensures
            n == self@.len(),
    {
        self.elements.len()
    }

    /// Whether there is no entry.
    pub fn is_empty(&self) -> (b: bool)
        ensures
            b == (self@.len() == 0),
    {
        self.elements.len() == 0
    }

    /// The entry at `index`, if there is one.
    pub fn get(&self, index: usize) -> (r: Option<F16>)
        ensures
            index < self@.len() ==> r.is_some() && r.unwrap()@ == self@[index as int],
            index >= self@.len() ==> r.is_none(),
    {
        if index < self.elements.len() {
            Some(self.elements[index])
        } else {
            None
        }
    }

    /// The entries as a slice.
    pub fn elements(&self) -> (r: &[F16])
        ensures
            values(r@) == self@,
    {
        self.elements.as_slice()
    }

    /// The entry at `index`, which must exist.
    pub fn at(&self, index: usize) -> (r: F16)
        requires
            index < self@.len(),
        ensures
            r@ == self@[index as int],
            r@ < 16,
    {
        let e = self.elements[index];
        proof {
            F16::lemma_nibble(e);
        }
        e
    }

    /// A copy with the same entries.
    pub fn duplicate(&self) -> (r: Vector)
        ensures
            r@ == self@,
    {
        let n = self.elements.len();
        let mut out: Vec<F16> = Vec::with_capacity(n);
        let mut i: usize = 0;
        while i < n
            invariant
                i <= n,
                n == self.elements.len(),
                out.len() == i,
                forall|t: int| 0 <= t < i ==> (#[trigger] out@[t])@ == self@[t],
            decreases n - i,
        {
            out.push(self.elements[i]);
            i += 1;
        }
        let v = Vector { elements: out };
        assert(v@ =~= self@);
        v
    }

    /// The sum of the products of the entries of the two vectors from `lo` up to `hi`.
    pub fn dot_between(&self, other: &Vector, lo: usize, hi: usize) -> (r: F16)
        requires
            hi <= self@.len(),
            hi <= other@.len(),
        ensures
            r@ == dot_range(self@, other@, lo as int, hi as int),
            r@ < 16,
    {
        let mut sum = F16::new(0);
        if hi <= lo {
            return sum;
        }
        let mut k: usize = lo;
        while k < hi
            invariant
                lo <= k <= hi,
                hi <= self.elements.len(),
                hi <= other.elements.len(),
                sum@ == dot_range(self@, other@, lo as int, k as int),
            decreases hi - k,
        {
            sum = sum + self.elements[k] * other.elements[k];
            k += 1;
        }
        proof {
            F16::lemma_nibble(sum);
        }
        sum
    }

    /// The dot product with `other`, which must have the same length.
    pub fn dot(&self, other: &Vector) -> (r: F16)
        requires
            self@.len() == other@.len(),
        ensures
            r@ == seq_dot(self@, other@),
            r@ < 16,
    {
        self.dot_between(other, 0, self.elements.len())
    }

    /// The entries, given up by the vector.
    pub fn into_elements(self) -> (r: Vec<F16>)
        ensures
            values(r@) == self@,
    {
        self.elements
    }

    /// Exchanges entries `i` and `j`; does nothing when either is no entry.
    pub fn swap(&mut self, i: usize, j: usize)
        ensures
            final(self)@ == swap_entries(old(self)@, i as int, j as int),
    {
        if i < self.elements.len() && j < self.elements.len() {
            let a = self.elements[i];
            let b = self.elements[j];
            self.elements[i] = b;
            self.elements[j] = a;
            assert(self@ =~= swap_entries(old(self)@, i as int, j as int));
        }
    }

    /// The vector whose entries are the low nibbles of `bytes`.
    pub fn from_values(bytes: &[u8]) -> (r: Vector)
        ensures
            r@ == low_nibbles(bytes@),
            all_nibbles(bytes@) ==> r@ == bytes@,
    {
        let mut out: Vec<F16> = Vec::with_capacity(bytes.len());
        let mut i: usize = 0;
        while i < bytes.len()
            invariant
                i <= bytes@.len(),
                out.len() == i,
                forall|t: int| 0 <= t < i ==> (#[trigger] out@[t])@ == bytes@[t] & 0x0f,
            decreases bytes@.len() - i,
        {
            out.push(F16::new(bytes[i]));
            i += 1;
        }
        let v = Vector { elements: out };
        assert(v@ =~= low_nibbles(bytes@));
        proof {
            if all_nibbles(bytes@) {
                assert forall|t: int| 0 <= t < bytes@.len() implies low_nibbles(bytes@)[t]
                    == bytes@[t] by {
                    lemma_low_nibble(bytes@[t]);
                }
                assert(v@ =~= bytes@);
            }
        }
        v
    }

    /// The entries from `lo` up to, not including, `hi`.
    pub fn slice(&self, lo: usize, hi: usize) -> (r: Vector)
        requires
            lo <= hi <= self@.len(),
        ensures
            r@ == self@.subrange(lo as int, hi as int),
    {
        let mut out: Vec<F16> = Vec::with_capacity(hi - lo);
        let mut i: usize = lo;
        while i < hi
            invariant
                lo <= i <= hi,
                hi <= self.elements.len(),
                out.len() == i - lo,
                forall|t: int| 0 <= t < i - lo ==> (#[trigger] out@[t])@ == self@[lo + t],
            decreases hi - i,
        {
            out.push(self.elements[i]);
            i += 1;
        }
        let v = Vector { elements: out };
        assert(v@ =~= self@.subrange(lo as int, hi as int));
        v
    }

    /// This vector followed by `other`.
    pub fn concat(&self, other: &Vector) -> (r: Vector)
        ensures
            r@ == self@ + other@,
    {
        let mut out: Vec<F16> = Vec::new();
        let mut i: usize = 0;
        assert(self@.take(0) =~= values(out@));
        while i < self.elements.len()
            invariant
                i <= self.elements.len(),
                values(out@) == self@.take(i as int),
            decreases self.elements.len() - i,
        {
            proof {
                lemma_values_push(out@, self.elements@[i as int]);
                assert(self@.take(i as int + 1) =~= self@.take(i as int).push(self@[i as int]));
            }
            out.push(self.elements[i]);
            i += 1;
        }
        assert(self@.take(self.elements.len() as int) =~= self@);
        assert(self@ + other@.take(0) =~= self@);
        let mut j: usize = 0;
        while j < other.elements.len()
            invariant
                j <= other.elements.len(),
                values(out@) == self@ + other@.take(j as int),
            decreases other.elements.len() - j,
        {
            proof {
                lemma_values_push(out@, other.elements@[j as int]);
                assert(self@ + other@.take(j as int + 1) =~= (self@ + other@.take(j as int)).push(
                    other@[j as int],
                ));
            }
            out.push(other.elements[j]);
            j += 1;
        }
        assert(other@.take(other.elements.len() as int) =~= other@);
        Vector { elements: out }
    }

    /// The vector of `n` entries packed in `bytes` from byte `offset` on.
    pub fn decode_at(bytes: &[u8], offset: usize, n: usize) -> (r: Vector)
        requires
            offset + packed_len(n as nat) <= bytes@.len(),
        ensures
            r@ == decode_nibbles(
                bytes@.subrange(offset as int, offset + packed_len(n as nat)),
                n as nat,
            ),
            r@.len() == n,
    {
        let total = bytes.len();
        let ghost part = bytes@.subrange(offset as int, offset + packed_len(n as nat));
        let mut elements: Vec<F16> = Vec::with_capacity(n);
        let mut i: usize = 0;
        while i < n
            invariant
                i <= n,
                total == bytes@.len(),
                offset + packed_len(n as nat) <= bytes@.len(),
                part == bytes@.subrange(offset as int, offset + packed_len(n as nat)),
                elements.len() == i,
                forall|t: int| 0 <= t < i ==> (#[trigger] elements@[t])@ == nibble_at(part, t),
            decreases n - i,
        {
            let byte_val = bytes[offset + i / 2];
            assert(byte_val == part[i as int / 2]);
            let nibble = if i % 2 == 0 {
                byte_val & 0x0f
            } else {
                (byte_val >> 4) & 0x0f
            };
            proof {
                lemma_unpack_pack(byte_val);
            }
            elements.push(F16::decode_f16(nibble));
            i += 1;
        }
        let v = Vector { elements };
        assert(v@ =~= decode_nibbles(part, n as nat));
        v
    }

    /// Replaces the entry at `index`.
    pub fn set(&mut self, index: usize, value: F16)
        requires
            index < old(self)@.len(),
        ensures
            final(self)@ == old(self)@.update(index as int, value@),
    {
        proof {
            lemma_values_update(self.elements@, index as int, value);
        }
        self.elements[index] = value;
    }

    /// The entrywise sum with `rhs`, which must have the same length.
    pub fn plus(&self, rhs: &Vector) -> (r: Vector)
        requires
            self@.len() == rhs@.len(),
        ensures
            r@ == seq_add(self@, rhs@),
    {
        let n = self.elements.len();
        let mut out: Vec<F16> = Vec::with_capacity(n);
        let mut i: usize = 0;
        while i < n
            invariant
                i <= n,
                n == self.elements.len(),
                n == rhs.elements.len(),
                out.len() == i,
                forall|t: int|
                    0 <= t < i ==> (#[trigger] out@[t])@ == gf16_add(self@[t], rhs@[t]),
            decreases n - i,
        {
            out.push(self.elements[i] + rhs.elements[i]);
            i += 1;
        }
        let v = Vector { elements: out };
        assert(v@ =~= seq_add(self@, rhs@));
        v
    }

    /// Every entry multiplied by `scalar`.
    pub fn scale(&self, scalar: F16) -> (r: Vector)
        ensures
            r@ == seq_scale(self@, scalar@),
    {
        let n = self.elements.len();
        let mut out: Vec<F16> = Vec::with_capacity(n);
        let mut i: usize = 0;
        while i < n
            invariant
                i <= n,
                n == self.elements.len(),
                out.len() == i,
                forall|t: int|
                    0 <= t < i ==> (#[trigger] out@[t])@ == gf16_mul(self@[t], scalar@),
            decreases n - i,
        {
            out.push(self.elements[i] * scalar);
            i += 1;
        }
        let v = Vector { elements: out };
        assert(v@ =~= seq_scale(self@, scalar@));
        v
    }

    /// Every entry of a vector is a nibble.
    pub proof fn lemma_nibbles(&self)
        ensures
            all_nibbles(self@),
    {
        lemma_values_nibbles(self.elements@);
    }

    /// The nibble-packed bytes of this vector.
    pub fn encode_vec(&self) -> (r: Vec<u8>)
        ensures
            r@ == encode_nibbles(self@),
    {
        let n = self.elements.len();
        let num_bytes = n / 2 + n % 2;
        let mut out: Vec<u8> = Vec::with_capacity(num_bytes);
        let mut j: usize = 0;
        while j < num_bytes
            invariant
                j <= num_bytes,
                n == self.elements.len(),
                num_bytes == packed_len(n as nat),
                out.len() == j,
                forall|t: int| 0 <= t < j ==> out@[t] == #[trigger] encode_nibbles(self@)[t],
            decreases num_bytes - j,
        {
            let lo = self.elements[2 * j].value();
            let hi = if 2 * j + 1 < n {
                self.elements[2 * j + 1].value()
            } else {
                0u8
            };
            out.push(lo | (hi << 4));
            j += 1;
        }
        assert(out@ =~= encode_nibbles(self@));
        out
    }

    /// The vector of `n` entries that `byte_string` packs. The byte string must
    /// be exactly as long as `n` nibbles need.
    pub fn decode_vec(n: usize, byte_string: &[u8]) -> (r: Result<Vector, String>)
        ensures
            r.is_ok() <==> byte_string@.len() == packed_len(n as nat),
            r.is_ok() ==> r.unwrap()@ == decode_nibbles(byte_string@, n as nat),
    {
        let expected = n / 2 + n % 2;
        if byte_string.len() != expected {
            return Err(with_two_numbers(
                "Invalid byte string length: expected ",
                expected,
                ", got ",
                byte_string.len(),
                "",
            ));
        }
        let mut elements: Vec<F16> = Vec::with_capacity(n);
        let mut i: usize = 0;
        while i < n
            invariant
                i <= n,
                byte_string@.len() == packed_len(n as nat),
                elements.len() == i,
                forall|t: int|
                    0 <= t < i ==> (#[trigger] elements@[t])@ == nibble_at(byte_string@, t),
            decreases n - i,
        {
            let byte_val = byte_string[i / 2];
            let nibble = if i % 2 == 0 {
                byte_val & 0x0f
            } else {
                (byte_val >> 4) & 0x0f
            };
            proof {
                lemma_unpack_pack(byte_val);
            }
            elements.push(F16::decode_f16(nibble));
            i += 1;
        }
        let v = Vector { elements };
        assert(v@ =~= decode_nibbles(byte_string@, n as nat));
        Ok(v)
    }
}

impl core::ops::Add for &Vector {
    type Output = Vector;

    /// The entrywise sum; the two lengths must agree.
    fn add(self, rhs: &Vector) -> (r: Vector)
        ensures
            r@ == seq_add(self@, rhs@),
    {
        self.plus(rhs)
    }
}

impl vstd::std_specs::ops::AddSpecImpl for &Vector {
    open spec fn obeys_add_spec() -> bool {
        false
    }

    open spec fn add_req(self, rhs: &Vector) -> bool {
        self@.len() == rhs@.len()
    }

    open spec fn add_spec(self, rhs: &Vector) -> Vector {
        *self
    }
}

impl core::ops::Mul<F16> for &Vector {
    type Output = Vector;

    /// Every entry multiplied by `scalar`.
    fn mul(self, scalar: F16) -> (r: Vector)
        ensures
            r@ == seq_scale(self@, scalar@),
    {
        self.scale(scalar)
    }
}

impl vstd::std_specs::ops::MulSpecImpl<F16> for &Vector {
    open spec fn obeys_mul_spec() -> bool {
        false
    }

    open spec fn mul_req(self, scalar: F16) -> bool {
        true
    }

    open spec fn mul_spec(self, scalar: F16) -> Vector {
        *self
    }
}

impl core::ops::Mul<&Vector> for F16 {
    type Output = Vector;

    /// Every entry of `vector` multiplied by this scalar.
    fn mul(self, vector: &Vector) -> (r: Vector)
        ensures
            r@ == seq_scale(vector@, self@),
    {
        vector.scale(self)
    }
}

impl vstd::std_specs::ops::MulSpecImpl<&Vector> for F16 {
    open spec fn obeys_mul_spec() -> bool {
        false
    }

    open spec fn mul_req(self, vector: &Vector) -> bool {
        true
    }

    open spec fn mul_spec(self, vector: &Vector) -> Vector {
        *vector
    }
}

} // verus!
