//! The field GF(16): four-bit values with arithmetic modulo x^4 + x + 1.
//!
//! The arithmetic is defined once, as spec functions on nibbles held in `u8`.
//! [`F16`] is the executable element; its view is its nibble.

use vstd::prelude::*;

verus! {

/// Addition in GF(16): the XOR of the two nibbles. Subtraction is the same map.
pub open spec fn gf16_add(a: u8, b: u8) -> u8 {
    a ^ b
}

/// The product of two polynomials over GF(2) of degree at most three,
/// before any reduction: bit `i` of `b` contributes `a` shifted by `i`.
pub open spec fn clmul(a: u8, b: u8) -> u8 {
    (if b & 1 != 0 { a } else { 0u8 })
        ^ (if b & 2 != 0 { a << 1 } else { 0u8 })
        ^ (if b & 4 != 0 { a << 2 } else { 0u8 })
        ^ (if b & 8 != 0 { a << 3 } else { 0u8 })
}

/// Reduces a polynomial of degree at most six modulo x^4 + x + 1:
/// each of x^4, x^5, x^6 is replaced by its own power times (x + 1).
pub open spec fn reduce(p: u8) -> u8 {
    (p & 0x0f) ^ (p >> 4) ^ ((p >> 4) << 1)
}

/// Multiplication in GF(16).
pub open spec fn gf16_mul(a: u8, b: u8) -> u8 {
    reduce(clmul(a, b))
}

/// The fourteenth power, which inverts every nonzero element.
pub open spec fn gf16_inv(a: u8) -> u8 {
    let a2 = gf16_mul(a, a);
    let a4 = gf16_mul(a2, a2);
    let a8 = gf16_mul(a4, a4);
    gf16_mul(gf16_mul(a8, a4), a2)
}

/// Two to the power `k`, for the five exponents that a nibble needs.
pub open spec fn pow2_small(k: int) -> int {
    if k <= 0 {
        1
    } else if k == 1 {
        2
    } else if k == 2 {
        4
    } else if k == 3 {
        8
    } else {
        16
    }
}

/// An element of GF(16).
#[derive(Debug, Clone, Copy, PartialEq, Eq, Structural)]
pub struct F16(u8);

impl F16 {
    #[verifier::type_invariant]
    spec fn inv(self) -> bool {
        self.0 < 16
    }

    /// The nibble that this element holds.
    pub closed spec fn view(&self) -> u8 {
        self.0 & 0x0f
    }

    /// Every view is a nibble.
    pub proof fn lemma_nibble(a: F16)
        ensures
            a@ < 16,
    {
        lemma_low_nibble(a.0);
    }

    /// The element given by the low four bits of `val`.
    pub fn new(val: u8) -> (r: F16)
        ensures
            r@ == val & 0x0f,
            r@ < 16,
            val < 16 ==> r@ == val,
    {
        let v: u8 = val & 0x0f;
        proof {
            lemma_low_nibble(val);
            lemma_low_nibble(v);
        }
        F16(v)
    }

    /// The nibble of this element.
    pub fn value(&self) -> (v: u8)
        ensures
            v == self@,
            v < 16,
    {
        proof {
            use_type_invariant(self);
            lemma_low_nibble(self.0);
        }
        self.0
    }

    /// The nibble that encodes this element.
    pub fn encode_f16(&self) -> (v: u8)
        ensures
            v == self@,
            v < 16,
    {
        proof {
            use_type_invariant(self);
            lemma_low_nibble(self.0);
        }
        self.0
    }

    /// The element that the low four bits of `nibble` encode.
    pub fn decode_f16(nibble: u8) -> (r: F16)
        ensures
            r@ == nibble & 0x0f,
            r@ < 16,
            nibble < 16 ==> r@ == nibble,
    {
        F16::new(nibble)
    }

    /// The multiplicative inverse, which zero alone lacks.
    pub fn inverse(&self) -> (r: Option<F16>)
        ensures
            self@ == 0 ==> r.is_none(),
            self@ != 0 ==> r.is_some() && r.unwrap()@ == gf16_inv(self@),
    {
        if self.value() == 0 {
            return None;
        }
        let a2 = *self * *self;
        let a4 = a2 * a2;
        let a8 = a4 * a4;
        Some(a8 * a4 * a2)
    }
}

impl core::ops::Add for F16 {
    type Output = F16;

    fn add(self, rhs: F16) -> (r: F16)
        ensures
            r@ == gf16_add(self@, rhs@),
            r@ < 16,
    {
        let a: u8 = self.value();
        let b: u8 = rhs.value();
        proof {
            lemma_add_closed(a, b);
            lemma_low_nibble(a ^ b);
        }
        F16(a ^ b)
    }
}

impl vstd::std_specs::ops::AddSpecImpl for F16 {
    open spec fn obeys_add_spec() -> bool {
        true
    }

    open spec fn add_req(self, rhs: F16) -> bool {
        true
    }

    closed spec fn add_spec(self, rhs: F16) -> F16 {
        F16(gf16_add(self@, rhs@))
    }
}

impl core::ops::Sub for F16 {
    type Output = F16;

    fn sub(self, rhs: F16) -> (r: F16)
        ensures
            r@ == gf16_add(self@, rhs@),
            r@ < 16,
    {
        let a: u8 = self.value();
        let b: u8 = rhs.value();
        proof {
            lemma_add_closed(a, b);
            lemma_low_nibble(a ^ b);
        }
        F16(a ^ b)
    }
}

impl vstd::std_specs::ops::SubSpecImpl for F16 {
    open spec fn obeys_sub_spec() -> bool {
        true
    }

    open spec fn sub_req(self, rhs: F16) -> bool {
        true
    }

    closed spec fn sub_spec(self, rhs: F16) -> F16 {
        F16(gf16_add(self@, rhs@))
    }
}

impl core::ops::Mul for F16 {
    type Output = F16;

    fn mul(self, rhs: F16) -> (r: F16)
        ensures
            r@ == gf16_mul(self@, rhs@),
            r@ < 16,
    {
        let mut a: u8 = self.value();
        let mut b: u8 = rhs.value();
        let mut res: u8 = 0;
        let mut i: usize = 0;
        proof {
            lemma_add_laws(gf16_mul(a, b), 0, 0);
        }
        while i < 4
            invariant
                i <= 4,
                a < 16,
                b < 16,
                res < 16,
                (b as int) < pow2_small(4 - i),
                gf16_mul(self@, rhs@) == res ^ gf16_mul(a, b),
            decreases 4 - i,
        {
            proof {
                lemma_mul_step(a, b, res);
            }
            if (b & 1) == 1 {
                res = res ^ a;
            }
            let high: bool = (a & 0x08) != 0;
            a = (a << 1) & 0x0f;
            if high {
                a = a ^ 0x03;
            }
            b = b >> 1;
            i += 1;
        }
        proof {
            lemma_mul_exhausted(a, res);
            lemma_low_nibble(res);
            lemma_mul_closed(self@, rhs@);
        }
        F16(res)
    }
}

impl vstd::std_specs::ops::MulSpecImpl for F16 {
    open spec fn obeys_mul_spec() -> bool {
        true
    }

    open spec fn mul_req(self, rhs: F16) -> bool {
        true
    }

    closed spec fn mul_spec(self, rhs: F16) -> F16 {
        F16(gf16_mul(self@, rhs@))
    }
}

impl core::ops::Div for F16 {
    type Output = F16;

    fn div(self, rhs: F16) -> (r: F16)
        ensures
            r@ == gf16_mul(self@, gf16_inv(rhs@)),
            r@ < 16,
    {
        match rhs.inverse() {
            Some(inv) => {
                let q = self * inv;
                proof {
                    lemma_low_nibble(q.0);
                    use_type_invariant(q);
                }
                q
            },
            None => self,
        }
    }
}

impl vstd::std_specs::ops::DivSpecImpl for F16 {
    open spec fn obeys_div_spec() -> bool {
        true
    }

    open spec fn div_req(self, rhs: F16) -> bool {
        rhs@ != 0
    }

    closed spec fn div_spec(self, rhs: F16) -> F16 {
        F16(gf16_mul(self@, gf16_inv(rhs@)))
    }
}

/// The nibbles of a sequence of elements.
pub open spec fn values(s: Seq<F16>) -> Seq<u8> {
    Seq::new(s.len(), |i: int| s[i]@)
}

/// Whether every entry is a nibble.
pub open spec fn all_nibbles(s: Seq<u8>) -> bool {
    forall|i: int| 0 <= i < s.len() ==> #[trigger] s[i] < 16
}

/// The nibbles of a sequence of elements are nibbles.
pub proof fn lemma_values_nibbles(s: Seq<F16>)
    ensures
        all_nibbles(values(s)),
{
    assert forall|i: int| 0 <= i < values(s).len() implies #[trigger] values(s)[i] < 16 by {
        F16::lemma_nibble(s[i]);
    }
}

/// Appending an element appends its nibble.
pub proof fn lemma_values_push(s: Seq<F16>, e: F16)
    ensures
        values(s.push(e)) == values(s).push(e@),
{
    assert(values(s.push(e)) =~= values(s).push(e@));
}

/// Replacing an element replaces its nibble.
pub proof fn lemma_values_update(s: Seq<F16>, i: int, e: F16)
    requires
        0 <= i < s.len(),
    ensures
        values(s.update(i, e)) == values(s).update(i, e@),
{
    assert(values(s.update(i, e)) =~= values(s).update(i, e@));
}

/// Masking with 0x0f leaves a nibble, and leaves a nibble as it is.
pub proof fn lemma_low_nibble(val: u8)
    ensures
        val & 0x0f < 16,
        val < 16 ==> val & 0x0f == val,
{
    assert(val & 0x0f < 16) by (bit_vector);
    assert(val < 16 ==> val & 0x0f == val) by (bit_vector);
}

/// The sum of two nibbles is a nibble.
pub proof fn lemma_add_closed(a: u8, b: u8)
    requires
        a < 16,
        b < 16,
    ensures
        gf16_add(a, b) < 16,
{
    assert(a ^ b < 16) by (bit_vector)
        requires
            a < 16,
            b < 16,
    ;
}

/// The product of two nibbles is a nibble.
pub proof fn lemma_mul_closed(a: u8, b: u8)
    requires
        a < 16,
        b < 16,
    ensures
        gf16_mul(a, b) < 16,
{
    assert(gf16_mul(a, b) < 16) by (bit_vector)
        requires
            a < 16,
            b < 16,
    ;
}

/// One round of shift-and-add: the lowest bit of `b` is spent, `a` moves up by x.
proof fn lemma_mul_step(a: u8, b: u8, res: u8)
    requires
        a < 16,
        b < 16,
        res < 16,
    ensures
        (a << 1) & 0x0f < 16,
        ((a << 1) & 0x0f) ^ 0x03 < 16,
        b >> 1 < 8,
        b < 8 ==> b >> 1 < 4,
        b < 4 ==> b >> 1 < 2,
        b < 2 ==> b >> 1 < 1,
        res ^ a < 16,
        (b & 1) == 1 && (a & 0x08) != 0 ==> res ^ gf16_mul(a, b) == (res ^ a) ^ gf16_mul(
            ((a << 1) & 0x0f) ^ 0x03,
            b >> 1,
        ),
        (b & 1) == 1 && (a & 0x08) == 0 ==> res ^ gf16_mul(a, b) == (res ^ a) ^ gf16_mul(
            (a << 1) & 0x0f,
            b >> 1,
        ),
        (b & 1) != 1 && (a & 0x08) != 0 ==> res ^ gf16_mul(a, b) == res ^ gf16_mul(
            ((a << 1) & 0x0f) ^ 0x03,
            b >> 1,
        ),
        (b & 1) != 1 && (a & 0x08) == 0 ==> res ^ gf16_mul(a, b) == res ^ gf16_mul(
            (a << 1) & 0x0f,
            b >> 1,
        ),
{
    assert({
        &&& (a << 1) & 0x0f < 16
        &&& ((a << 1) & 0x0f) ^ 0x03 < 16
        &&& b >> 1 < 8
        &&& (b < 8 ==> b >> 1 < 4)
        &&& (b < 4 ==> b >> 1 < 2)
        &&& (b < 2 ==> b >> 1 < 1)
        &&& res ^ a < 16
        &&& ((b & 1) == 1 && (a & 0x08) != 0 ==> res ^ gf16_mul(a, b) == (res ^ a) ^ gf16_mul(
            ((a << 1) & 0x0f) ^ 0x03,
            b >> 1,
        ))
        &&& ((b & 1) == 1 && (a & 0x08) == 0 ==> res ^ gf16_mul(a, b) == (res ^ a) ^ gf16_mul(
            (a << 1) & 0x0f,
            b >> 1,
        ))
        &&& ((b & 1) != 1 && (a & 0x08) != 0 ==> res ^ gf16_mul(a, b) == res ^ gf16_mul(
            ((a << 1) & 0x0f) ^ 0x03,
            b >> 1,
        ))
        &&& ((b & 1) != 1 && (a & 0x08) == 0 ==> res ^ gf16_mul(a, b) == res ^ gf16_mul(
            (a << 1) & 0x0f,
            b >> 1,
        ))
    }) by (bit_vector)
        requires
            a < 16,
            b < 16,
            res < 16,
    ;
}

/// Once `b` is used up, the accumulator is the whole product.
proof fn lemma_mul_exhausted(a: u8, res: u8)
    requires
        a < 16,
        res < 16,
    ensures
        res ^ gf16_mul(a, 0) == res,
{
    assert(res ^ gf16_mul(a, 0) == res) by (bit_vector)
        requires
            a < 16,
            res < 16,
    ;
}

/// Every nonzero element times its inverse is one.
pub proof fn lemma_mul_inverse(a: u8)
    requires
        0 < a < 16,
    ensures
        gf16_mul(a, gf16_inv(a)) == 1,
        gf16_mul(gf16_inv(a), a) == 1,
        0 < gf16_inv(a) < 16,
{
    let a2 = gf16_mul(a, a);
    let a4 = gf16_mul(a2, a2);
    let a8 = gf16_mul(a4, a4);
    let a12 = gf16_mul(a8, a4);
    let a14 = gf16_mul(a12, a2);
    assert(gf16_mul(a, a14) == 1 && gf16_mul(a14, a) == 1 && 0 < a14 < 16) by (bit_vector)
        requires
            0 < a < 16,
            a2 == gf16_mul(a, a),
            a4 == gf16_mul(a2, a2),
            a8 == gf16_mul(a4, a4),
            a12 == gf16_mul(a8, a4),
            a14 == gf16_mul(a12, a2),
    ;
}

/// Every element is its own negative: `a + a` is zero.
pub proof fn lemma_add_self(a: u8)
    ensures
        gf16_add(a, a) == 0,
{
    assert(a ^ a == 0) by (bit_vector);
}

/// Multiplication distributes over addition, on both sides.
pub proof fn lemma_mul_distributes(a: u8, b: u8, c: u8)
    requires
        a < 16,
        b < 16,
        c < 16,
    ensures
        gf16_mul(a, gf16_add(b, c)) == gf16_add(gf16_mul(a, b), gf16_mul(a, c)),
        gf16_mul(gf16_add(b, c), a) == gf16_add(gf16_mul(b, a), gf16_mul(c, a)),
{
    assert(gf16_mul(a, b ^ c) == gf16_mul(a, b) ^ gf16_mul(a, c) && gf16_mul(b ^ c, a) == gf16_mul(
        b,
        a,
    ) ^ gf16_mul(c, a)) by (bit_vector)
        requires
            a < 16,
            b < 16,
            c < 16,
    ;
}

/// Multiplication is commutative.
pub proof fn lemma_mul_commutes(a: u8, b: u8)
    requires
        a < 16,
        b < 16,
    ensures
        gf16_mul(a, b) == gf16_mul(b, a),
{
    assert(gf16_mul(a, b) == gf16_mul(b, a)) by (bit_vector)
        requires
            a < 16,
            b < 16,
    ;
}

/// Multiplication is associative.
pub proof fn lemma_mul_associates(a: u8, b: u8, c: u8)
    requires
        a < 16,
        b < 16,
        c < 16,
    ensures
        gf16_mul(gf16_mul(a, b), c) == gf16_mul(a, gf16_mul(b, c)),
{
    assert(gf16_mul(gf16_mul(a, b), c) == gf16_mul(a, gf16_mul(b, c))) by (bit_vector)
        requires
            a < 16,
            b < 16,
            c < 16,
    ;
}

/// One is the multiplicative identity and zero annihilates.
pub proof fn lemma_mul_one_zero(a: u8)
    requires
        a < 16,
    ensures
        gf16_mul(a, 1) == a,
        gf16_mul(1, a) == a,
        gf16_mul(a, 0) == 0,
        gf16_mul(0, a) == 0,
{
    assert(gf16_mul(a, 1) == a && gf16_mul(1, a) == a && gf16_mul(a, 0) == 0 && gf16_mul(0, a)
        == 0) by (bit_vector)
        requires
            a < 16,
    ;
}

/// Addition is commutative and associative, and zero is its identity.
pub proof fn lemma_add_laws(a: u8, b: u8, c: u8)
    ensures
        gf16_add(a, b) == gf16_add(b, a),
        gf16_add(gf16_add(a, b), c) == gf16_add(a, gf16_add(b, c)),
        gf16_add(a, 0) == a,
        gf16_add(0, a) == a,
{
    assert(a ^ b == b ^ a && (a ^ b) ^ c == a ^ (b ^ c) && a ^ 0 == a && 0 ^ a == a)
        by (bit_vector);
}

} // verus!
