//! Batched field elements: one coefficient for each of the `m` public
//! equations, handled as a single value.
//!
//! An `MVector` is also read as a polynomial in an indeterminate `X` with
//! coefficients in GF(16), entry `i` being the coefficient of `X^i`, taken
//! modulo `X^m + tail(X)` for a tail polynomial of four coefficients.

use crate::f16::{F16, gf16_add, gf16_mul, lemma_values_update, values};
use crate::text::with_two_numbers;
use crate::vector::{
    decode_nibbles, encode_nibbles, packed_len, seq_add, seq_scale, seq_zero, Vector,
};
use vstd::prelude::*;

verus! {

/// The number of coefficients of a tail polynomial.
pub const TAIL_LEN: usize = 4;

/// One Horner step: `acc` times `X`, reduced by `X^m = tail(X)`, plus `addend`.
/// The top coefficient of `acc` leaves at the high end and comes back in
/// multiplied by each of the four tail coefficients.
pub open spec fn mul_x_add(acc: Seq<u8>, tail: Seq<u8>, addend: Seq<u8>) -> Seq<u8> {
    Seq::new(
        acc.len(),
        |i: int|
            gf16_add(
                gf16_add(
                    if i == 0 {
                        0u8
                    } else {
                        acc[i - 1]
                    },
                    if i < 4 {
                        gf16_mul(acc[acc.len() - 1], tail[i] & 0x0f)
                    } else {
                        0u8
                    },
                ),
                addend[i],
            ),
    )
}

/// `acc` with `s` times `other` added to it, entry by entry.
pub open spec fn add_scaled(acc: Seq<u8>, other: Seq<u8>, s: u8) -> Seq<u8> {
    Seq::new(acc.len(), |i: int| gf16_add(acc[i], gf16_mul(other[i], s)))
}

/// A batch of field elements, one for each public equation.
#[derive(Debug, Clone, PartialEq, Eq)]
pub struct MVector {
    pub elements: Vec<F16>,
}

impl MVector {
    /// The nibbles of the entries, in order.
    pub open spec fn view(&self) -> Seq<u8> {
        values(self.elements@)
    }

    /// The batch that holds `elements`, which must be `m_param` many.
    pub fn new(m_param: usize, elements: Vec<F16>) -> (r: Result<MVector, String>)
        ensures
            r.is_ok() <==> elements@.len() == m_param,
            r.is_ok() ==> r.unwrap()@ == values(elements@),
    {
        if elements.len() != m_param {
            return Err(with_two_numbers(
                "MVector: element count ",
                elements.len(),
                " does not match m_param ",
                m_param,
                "",
            ));
        }
        Ok(MVector { elements })
    }

    /// The all-zero batch of `m_param` entries.
    pub fn zero(m_param: usize) -> (r: MVector)
        ensures
            r@ == seq_zero(m_param as nat),
    {
        let elements = Vector::zero(m_param).into_elements();
        MVector { elements }
    }

    /// The number of entries.
    pub fn len(&self) -> (n: usize)
        ensures
            n == self@.len(),
    {
        self.elements.len()
    }

    /// Whether there is no entry.
    pub fn is_empty(&self) -> (b: bool)
        ensures
            b == (self@.len() == 0),
    {
        self.elements.len() == 0
    }

    /// The entry at `index`, which must exist.
    pub fn at(&self, index: usize) -> (r: F16)
        requires
            index < self@.len(),
        ensures
            r@ == self@[index as int],
            r@ < 16,
    {
        let e = self.elements[index];
        proof {
            F16::lemma_nibble(e);
        }
        e
    }

    /// A copy with the same entries.
    pub fn duplicate(&self) -> (r: MVector)
        ensures
            r@ == self@,
    {
        let n = self.elements.len();
        let mut out: Vec<F16> = Vec::with_capacity(n);
        let mut i: usize = 0;
        while i < n
            invariant
                i <= n,
                n == self.elements.len(),
                out.len() == i,
                forall|t: int| 0 <= t < i ==> (#[trigger] out@[t])@ == self@[t],
            decreases n - i,
        {
            out.push(self.elements[i]);
            i += 1;
        }
        let v = MVector { elements: out };
        assert(v@ =~= self@);
        v
    }

    /// The batch of `m_param` entries that `bytes` packs, two nibbles to a
    /// byte and sixteen to a limb. The bytes must be exactly as many as
    /// `m_param` nibbles need, and `m_vec_limbs` limbs must hold them all.
    pub fn from_limbs_bytes(bytes: &[u8], m_param: usize, m_vec_limbs: usize) -> (r: Result<
        MVector,
        String,
    >)
        ensures
            r.is_ok() <==> bytes@.len() == packed_len(m_param as nat) && m_param <= 16
                * m_vec_limbs,
            r.is_ok() ==> r.unwrap()@ == decode_nibbles(bytes@, m_param as nat),
    {
        match Vector::decode_vec(m_param, bytes) {
            Ok(v) => {
                if m_param > 0 && (m_param - 1) / 16 >= m_vec_limbs {
                    return Err(with_two_numbers(
                        "MVector: m_vec_limbs ",
                        m_vec_limbs,
                        " is too small for m_param ",
                        m_param,
                        "",
                    ));
                }
                Ok(MVector { elements: v.into_elements() })
            },
            Err(e) => Err(e),
        }
    }

    /// The nibble-packed bytes of this batch. `m_vec_limbs` limbs of sixteen
    /// nibbles must hold every entry.
    pub fn to_limbs_bytes(&self, m_vec_limbs: usize) -> (r: Result<Vec<u8>, String>)
        ensures
            r.is_ok() <==> self@.len() <= 16 * m_vec_limbs,
            r.is_ok() ==> r.unwrap()@ == encode_nibbles(self@),
    {
        let m = self.elements.len();
        if m > 0 && (m - 1) / 16 >= m_vec_limbs {
            return Err(with_two_numbers(
                "MVector: m_vec_limbs ",
                m_vec_limbs,
                " is too small for m_param ",
                m,
                "",
            ));
        }
        let n = m / 2 + m % 2;
        let mut out: Vec<u8> = Vec::with_capacity(n);
        let mut j: usize = 0;
        while j < n
            invariant
                j <= n,
                m == self.elements.len(),
                n == packed_len(m as nat),
                out.len() == j,
                forall|t: int| 0 <= t < j ==> out@[t] == #[trigger] encode_nibbles(self@)[t],
            decreases n - j,
        {
            let lo = self.elements[2 * j].value();
            let hi = if 2 * j + 1 < m {
                self.elements[2 * j + 1].value()
            } else {
                0u8
            };
            out.push(lo | (hi << 4));
            j += 1;
        }
        assert(out@ =~= encode_nibbles(self@));
        Ok(out)
    }

    /// The entrywise sum with `rhs`; an error when the lengths differ.
    pub fn plus(&self, rhs: &MVector) -> (r: Result<MVector, String>)
        ensures
            r.is_ok() <==> self@.len() == rhs@.len(),
            r.is_ok() ==> r.unwrap()@ == seq_add(self@, rhs@),
    {
        if self.elements.len() != rhs.elements.len() {
            return Err("MVector addition requires vectors of the same m_param.".to_string());
        }
        Ok(self.sum_with(rhs))
    }

    /// Every entry multiplied by `scalar`.
    pub fn scale(&self, scalar: F16) -> (r: MVector)
        ensures
            r@ == seq_scale(self@, scalar@),
    {
        let n = self.elements.len();
        let mut out: Vec<F16> = Vec::with_capacity(n);
        let mut i: usize = 0;
        while i < n
            invariant
                i <= n,
                n == self.elements.len(),
                out.len() == i,
                forall|t: int|
                    0 <= t < i ==> (#[trigger] out@[t])@ == gf16_mul(self@[t], scalar@),
            decreases n - i,
        {
            out.push(self.elements[i] * scalar);
            i += 1;
        }
        let v = MVector { elements: out };
        assert(v@ =~= seq_scale(self@, scalar@));
        v
    }

    /// Adds `scalar` times `other` to this batch in place. The lengths must agree.
    pub fn accumulate(&mut self, other: &MVector, scalar: F16)
        requires
            old(self)@.len() == other@.len(),
        ensures
            final(self)@ == add_scaled(old(self)@, other@, scalar@),
    {
        let n = self.elements.len();
        let mut i: usize = 0;
        while i < n
            invariant
                i <= n,
                n == self.elements.len(),
                n == other.elements.len(),
                n == old(self).elements.len(),
                forall|t: int|
                    0 <= t < i ==> (#[trigger] self@[t]) == gf16_add(
                        old(self)@[t],
                        gf16_mul(other@[t], scalar@),
                    ),
                forall|t: int| i <= t < n ==> (#[trigger] self@[t]) == old(self)@[t],
            decreases n - i,
        {
            let ghost prev = self@;
            let e = self.elements[i] + other.elements[i] * scalar;
            proof {
                lemma_values_update(self.elements@, i as int, e);
                assert(prev[i as int] == old(self)@[i as int]);
            }
            self.elements[i] = e;
            assert(self@ == prev.update(i as int, e@));
            i += 1;
        }
        assert(self@ =~= add_scaled(old(self)@, other@, scalar@));
    }

    /// The entrywise sum with `rhs`, which must have the same length.
    pub fn sum_with(&self, rhs: &MVector) -> (r: MVector)
        requires
            self@.len() == rhs@.len(),
        ensures
            r@ == seq_add(self@, rhs@),
    {
        let n = self.elements.len();
        let mut out: Vec<F16> = Vec::with_capacity(n);
        let mut i: usize = 0;
        while i < n
            invariant
                i <= n,
                n == self.elements.len(),
                n == rhs.elements.len(),
                out.len() == i,
                forall|t: int|
                    0 <= t < i ==> (#[trigger] out@[t])@ == gf16_add(self@[t], rhs@[t]),
            decreases n - i,
        {
            out.push(self.elements[i] + rhs.elements[i]);
            i += 1;
        }
        let v = MVector { elements: out };
        assert(v@ =~= seq_add(self@, rhs@));
        v
    }

    /// One Horner step: this batch times `X`, reduced with the tail
    /// polynomial `f_tail`, plus `to_add`. The batches must have one length,
    /// no shorter than the tail, and the tail four coefficients.
    pub fn horner_step(&self, f_tail: &[u8], to_add: &MVector) -> (r: MVector)
        requires
            self@.len() == to_add@.len(),
            f_tail@.len() == 4,
            self@.len() >= 4,
        ensures
            r@ == mul_x_add(self@, f_tail@, to_add@),
            r@.len() == self@.len(),
    {
        let m = self.elements.len();
        let top = self.elements[m - 1];
        let mut out: Vec<F16> = Vec::with_capacity(m);
        let mut i: usize = 0;
        while i < m
            invariant
                i <= m,
                m >= 4,
                m == self.elements.len(),
                m == to_add.elements.len(),
                f_tail@.len() == 4,
                top@ == self@[m - 1],
                out.len() == i,
                forall|t: int|
                    0 <= t < i ==> (#[trigger] out@[t])@ == mul_x_add(self@, f_tail@, to_add@)[t],
            decreases m - i,
        {
            let shifted = if i == 0 {
                F16::new(0)
            } else {
                self.elements[i - 1]
            };
            let reduction = if i < TAIL_LEN {
                top * F16::new(f_tail[i])
            } else {
                F16::new(0)
            };
            out.push(shifted + reduction + to_add.elements[i]);
            i += 1;
        }
        let v = MVector { elements: out };
        assert(v@ =~= mul_x_add(self@, f_tail@, to_add@));
        v
    }

    /// One Horner step of the whipped polynomial: this batch times `X`,
    /// reduced with the tail polynomial `f_tail`, plus `to_add`. An error
    /// when the two batches differ in length, when the tail does not have
    /// four coefficients, or when the batch is shorter than the tail.
    pub fn poly_mul_by_x_and_add(&self, f_tail: &[u8], to_add: &MVector) -> (r: Result<
        MVector,
        String,
    >)
        ensures
            r.is_ok() <==> self@.len() == to_add@.len() && f_tail@.len() == 4 && self@.len() >= 4,
            r.is_ok() ==> r.unwrap()@ == mul_x_add(self@, f_tail@, to_add@),
    {
        if self.elements.len() != to_add.elements.len() {
            return Err("MVectors must have same m_param for poly_mul_by_x_and_add".to_string());
        }
        if f_tail.len() != TAIL_LEN {
            return Err("f_tail must have length 4".to_string());
        }
        if self.elements.len() < TAIL_LEN {
            return Err("MVector is shorter than the tail polynomial".to_string());
        }
        Ok(self.horner_step(f_tail, to_add))
    }
}

impl core::ops::Add for &MVector {
    type Output = Result<MVector, String>;

    /// The entrywise sum; an error when the lengths differ.
    fn add(self, rhs: &MVector) -> (r: Result<MVector, String>)
        ensures
            r.is_ok() <==> self@.len() == rhs@.len(),
            r.is_ok() ==> r.unwrap()@ == seq_add(self@, rhs@),
    {
        self.plus(rhs)
    }
}

impl vstd::std_specs::ops::AddSpecImpl for &MVector {
    open spec fn obeys_add_spec() -> bool {
        false
    }

    open spec fn add_req(self, rhs: &MVector) -> bool {
        true
    }

    open spec fn add_spec(self, rhs: &MVector) -> Result<MVector, String> {
        Ok(*self)
    }
}

impl core::ops::Mul<F16> for &MVector {
    type Output = MVector;

    /// Every entry multiplied by `scalar`.
    fn mul(self, scalar: F16) -> (r: MVector)
        ensures
            r@ == seq_scale(self@, scalar@),
    {
        self.scale(scalar)
    }
}

impl vstd::std_specs::ops::MulSpecImpl<F16> for &MVector {
    open spec fn obeys_mul_spec() -> bool {
        false
    }

    open spec fn mul_req(self, scalar: F16) -> bool {
        true
    }

    open spec fn mul_spec(self, scalar: F16) -> MVector {
        *self
    }
}

impl core::ops::Mul<&MVector> for F16 {
    type Output = MVector;

    /// Every entry of `vector` multiplied by this scalar.
    fn mul(self, vector: &MVector) -> (r: MVector)
        ensures
            r@ == seq_scale(vector@, self@),
    {
        vector.scale(self)
    }
}

impl vstd::std_specs::ops::MulSpecImpl<&MVector> for F16 {
    open spec fn obeys_mul_spec() -> bool {
        false
    }

    open spec fn mul_req(self, vector: &MVector) -> bool {
        true
    }

    open spec fn mul_spec(self, vector: &MVector) -> MVector {
        *vector
    }
}

} // verus!
