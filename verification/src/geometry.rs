//! Arithmetic in GF(2^8), polynomials over it, and Lagrange interpolation.
//!
//! A field element is a byte. Addition and subtraction are both bitwise xor
//! (the field has characteristic two); multiplication is carry-less
//! polynomial multiplication reduced by x^8 + x^4 + x^3 + x + 1 (0x11b), the
//! same reduction polynomial AES uses; the inverse of a non-zero element `b`
//! is `b^254` (the field's multiplicative group has order 255).

use vstd::prelude::*;

use crate::basic_sharing::Error;

verus! {

/// Doubling step of the carry-less multiplication: multiply by x and reduce
/// by 0x11b once if the degree reached eight.
pub open spec fn gf_xtime(a: u8) -> u8 {
    if a < 0x80 {
        a << 1
    } else {
        (a << 1) ^ 0x1b
    }
}

/// Field addition: bitwise xor. Subtraction is the same operation.
pub open spec fn gf_add(a: u8, b: u8) -> u8 {
    a ^ b
}

/// Field multiplication: shift-and-add over GF(2), reducing by 0x11b.
pub open spec fn gf_mul(a: u8, b: u8) -> u8
    decreases b,
{
    if b == 0 {
        0u8
    } else {
        (if b % 2 == 1 {
            a
        } else {
            0u8
        }) ^ gf_mul(gf_xtime(a), b / 2)
    }
}

/// A field element squared.
pub open spec fn gf_square(a: u8) -> u8 {
    gf_mul(a, a)
}

/// The multiplicative inverse of a non-zero element, b^254, computed by
/// repeated squaring: 254 = 2 + 4 + 8 + 16 + 32 + 64 + 128. `gf_inv(0)` is
/// a meaningless placeholder value and no contract relies on it.
pub open spec fn gf_inv(b: u8) -> u8 {
    let b2 = gf_square(b);
    let b4 = gf_square(b2);
    let b8 = gf_square(b4);
    let b16 = gf_square(b8);
    let b32 = gf_square(b16);
    let b64 = gf_square(b32);
    let b128 = gf_square(b64);
    gf_mul(b2, gf_mul(b4, gf_mul(b8, gf_mul(b16, gf_mul(b32, gf_mul(b64, b128))))))
}

/// Field division, meaningful only for `b != 0`.
pub open spec fn gf_div(a: u8, b: u8) -> u8 {
    gf_mul(a, gf_inv(b))
}

fn xtime(a: u8) -> (r: u8)
    ensures
        r == gf_xtime(a),
{
    if a < 0x80 {
        a << 1u8
    } else {
        (a << 1u8) ^ 0x1b
    }
}

/// Field multiplication, shift-and-add.
pub fn gf_multiply(a: u8, b: u8) -> (r: u8)
    ensures
        r == gf_mul(a, b),
{
    let mut x = a;
    let mut y = b;
    let mut acc: u8 = 0;
    proof {
        let m = gf_mul(a, b);
        assert(0u8 ^ m == m) by (bit_vector);
    }
    while y != 0
        invariant
            acc ^ gf_mul(x, y) == gf_mul(a, b),
        decreases y,
    {
        let low: u8 = if y % 2 == 1 {
            x
        } else {
            0
        };
        proof {
            let rest = gf_mul(gf_xtime(x), y / 2);
            assert(gf_mul(x, y) == low ^ rest);
            assert((acc ^ low) ^ rest == acc ^ (low ^ rest)) by (bit_vector);
        }
        acc = acc ^ low;
        x = xtime(x);
        y = y / 2;
    }
    proof {
        assert(acc ^ 0 == acc) by (bit_vector);
    }
    acc
}

/// The inverse as b^254, by repeated squaring.
pub fn gf_invert(b: u8) -> (r: u8)
    ensures
        r == gf_inv(b),
{
    let b2 = gf_multiply(b, b);
    let b4 = gf_multiply(b2, b2);
    let b8 = gf_multiply(b4, b4);
    let b16 = gf_multiply(b8, b8);
    let b32 = gf_multiply(b16, b16);
    let b64 = gf_multiply(b32, b32);
    let b128 = gf_multiply(b64, b64);
    gf_multiply(b2, gf_multiply(b4, gf_multiply(b8, gf_multiply(b16, gf_multiply(b32, gf_multiply(b64, b128))))))
}

/// Field division for a divisor already known to be non-zero.
pub fn gf_divide_nz(a: u8, b: u8) -> (r: u8)
    requires
        b != 0,
    ensures
        r == gf_div(a, b),
{
    gf_multiply(a, gf_invert(b))
}

/// Field division; dividing by the zero element fails.
pub fn gf_divide(a: u8, b: u8) -> (r: Result<u8, Error>)
    ensures
        b == 0 ==> r == Err::<u8, Error>(Error::DivisionByZero),
        b != 0 ==> r == Ok::<u8, Error>(gf_div(a, b)),
{
    if b == 0 {
        Err(Error::DivisionByZero)
    } else {
        Ok(gf_divide_nz(a, b))
    }
}

/// The value at `x` of the polynomial with coefficient sequence `c`
/// (position i holds the coefficient of x^i).
pub open spec fn poly_eval(c: Seq<u8>, x: u8) -> u8
    decreases c.len(),
{
    if c.len() == 0 {
        0u8
    } else {
        gf_add(c[0], gf_mul(x, poly_eval(c.drop_first(), x)))
    }
}

/// A polynomial over GF(2^8): position i of `coeffs` is the coefficient of
/// x^i. Unset positions read as zero.
pub struct GaloisPolynomial {
    pub coeffs: Vec<u8>,
}

/// `c` grown with zero coefficients until `index` is in range, then updated
/// there to `co`.
pub open spec fn spec_set_coeff(c: Seq<u8>, co: u8, index: int) -> Seq<u8> {
    let padded = if c.len() > index {
        c
    } else {
        c + Seq::new((index + 1 - c.len()) as nat, |_i: int| 0u8)
    };
    padded.update(index, co)
}

impl GaloisPolynomial {
    /// The empty polynomial: every coefficient is an implicit zero.
    pub fn new() -> (r: GaloisPolynomial)
        ensures
            r.coeffs@ == Seq::<u8>::empty(),
    {
        GaloisPolynomial { coeffs: Vec::new() }
    }

    /// Set the coefficient of x^index, growing the storage with zeros if the
    /// position is out of range so far.
    pub fn set_coeff(&mut self, co: u8, index: usize)
        requires
            index < usize::MAX,
        ensures
            final(self).coeffs@ == spec_set_coeff(old(self).coeffs@, co, index as int),
    {
        if index >= self.coeffs.len() {
            let ghost orig = self.coeffs@;
            let mut i = self.coeffs.len();
            while i < index + 1
                invariant
                    i == self.coeffs@.len(),
                    i <= index + 1,
                    orig.len() <= i,
                    index < usize::MAX,
                    self.coeffs@ == orig + Seq::new((i - orig.len()) as nat, |_j: int| 0u8),
                decreases index + 1 - i,
            {
                self.coeffs.push(0);
                proof {
                    assert(self.coeffs@ =~= orig + Seq::new(
                        (i + 1 - orig.len()) as nat,
                        |_j: int| 0u8,
                    ));
                }
                i = i + 1;
            }
        }
        self.coeffs[index] = co;
        proof {
            assert(self.coeffs@ =~= spec_set_coeff(old(self).coeffs@, co, index as int));
        }
    }

    /// Evaluate the polynomial at `x` by Horner's method. Evaluating at zero
    /// returns the constant term.
    pub fn get_y_value(&self, x: u8) -> (y: u8)
        ensures
            y == poly_eval(self.coeffs@, x),
    {
        let n = self.coeffs.len();
        let mut acc: u8 = 0;
        let mut i = n;
        proof {
            assert(self.coeffs@.skip(n as int) =~= Seq::<u8>::empty());
        }
        while i > 0
            invariant
                i <= n,
                n == self.coeffs@.len(),
                acc == poly_eval(self.coeffs@.skip(i as int), x),
            decreases i,
        {
            i = i - 1;
            proof {
                let s = self.coeffs@.skip(i as int);
                assert(s.len() > 0);
                assert(s[0] == self.coeffs@[i as int]);
                assert(s.drop_first() =~= self.coeffs@.skip(i as int + 1));
            }
            acc = self.coeffs[i] ^ gf_multiply(x, acc);
        }
        proof {
            assert(self.coeffs@.skip(0) =~= self.coeffs@);
        }
        acc
    }

    /// Recover the value at x = 0 of the polynomial through the given points
    /// by Lagrange interpolation: see `interp_at_zero`.
    ///
    /// No point count is validated: fewer points than the polynomial's degree
    /// needs yield a well-defined but unrelated byte.
    pub fn get_y_intercept_from_points(points: &[(u8, u8)]) -> (y: u8)
        requires
            forall|i: int, j: int|
                0 <= i < j < points@.len() ==> points@[i].0 != points@[j].0,
        ensures
            y == interp_at_zero(points@),
    {
        let n = points.len();
        let mut acc: u8 = 0;
        let mut i: usize = 0;
        while i < n
            invariant
                i <= n,
                n == points@.len(),
                forall|p: int, q: int|
                    0 <= p < q < points@.len() ==> points@[p].0 != points@[q].0,
                acc == interp_sum(points@, i as int),
            decreases n - i,
        {
            let xi = points[i].0;
            let yi = points[i].1;
            let mut prod: u8 = 1;
            let mut j: usize = 0;
            while j < n
                invariant
                    j <= n,
                    i < n,
                    n == points@.len(),
                    xi == points@[i as int].0,
                    forall|p: int, q: int|
                        0 <= p < q < points@.len() ==> points@[p].0 != points@[q].0,
                    prod == lag_prod(points@, i as int, j as int),
                decreases n - j,
            {
                if j != i {
                    let xj = points[j].0;
                    proof {
                        assert(xj != xi);
                        assert(xj != xi ==> xj ^ xi != 0) by (bit_vector);
                    }
                    let d = xj ^ xi;
                    prod = gf_multiply(prod, gf_divide_nz(xj, d));
                }
                j = j + 1;
            }
            acc = acc ^ gf_multiply(yi, prod);
            i = i + 1;
        }
        acc
    }
}

/// Product of the Lagrange-basis factors x_j / (x_j - x_i) for j < k, j != i,
/// evaluated at x = 0 (subtraction in the field is xor).
pub open spec fn lag_prod(points: Seq<(u8, u8)>, i: int, k: int) -> u8
    decreases k,
{
    if k <= 0 {
        1u8
    } else {
        let rest = lag_prod(points, i, k - 1);
        if k - 1 == i {
            rest
        } else {
            gf_mul(rest, gf_div(points[k - 1].0, gf_add(points[k - 1].0, points[i].0)))
        }
    }
}

/// Sum of the first `k` Lagrange terms y_i * prod_{j != i} x_j / (x_j - x_i).
pub open spec fn interp_sum(points: Seq<(u8, u8)>, k: int) -> u8
    decreases k,
{
    if k <= 0 {
        0u8
    } else {
        gf_add(
            interp_sum(points, k - 1),
            gf_mul(points[k - 1].1, lag_prod(points, k - 1, points.len() as int)),
        )
    }
}

/// Lagrange interpolation evaluated at x = 0:
/// sum over i of y_i * prod_{j != i} (x_j / (x_j - x_i)), in field arithmetic.
pub open spec fn interp_at_zero(points: Seq<(u8, u8)>) -> u8 {
    interp_sum(points, points.len() as int)
}

/// Concrete field products used by the inverse and cancellation lemmas,
/// evaluated by unfolding the multiplication over raw shift and xor facts.
proof fn lemma_concrete_products()
    ensures
        gf_mul(0x03, 0x03) == 0x05,
        gf_mul(0x05, 0x05) == 0x11,
        gf_mul(0x11, 0x11) == 0x1a,
        gf_mul(0x1a, 0x1a) == 0x5f,
        gf_mul(0x5f, 0x5f) == 0xe5,
        gf_mul(0xe5, 0xe5) == 0x4c,
        gf_mul(0x4c, 0x4c) == 0xfb,
        gf_mul(0x4c, 0xfb) == 0xfc,
        gf_mul(0xe5, 0xfc) == 0x12,
        gf_mul(0x5f, 0x12) == 0x39,
        gf_mul(0x1a, 0x39) == 0x1c,
        gf_mul(0x11, 0x1c) == 0xc7,
        gf_mul(0x05, 0xc7) == 0xf6,
        gf_mul(0x01, 0xf6) == 0xf6,
        gf_mul(0x02, 0xf6) == 0xf7,
        gf_mul(0x04, 0xf6) == 0xf5,
        gf_mul(0x08, 0xf6) == 0xf1,
        gf_mul(0x10, 0xf6) == 0xf9,
        gf_mul(0x20, 0xf6) == 0xe9,
        gf_mul(0x40, 0xf6) == 0xc9,
        gf_mul(0x80, 0xf6) == 0x89,
        gf_mul(0x03, 0xf6) == 0x01,
        gf_mul(0x03, 0xf7) == 0x02,
        gf_mul(0x03, 0xf5) == 0x04,
        gf_mul(0x03, 0xf1) == 0x08,
        gf_mul(0x03, 0xf9) == 0x10,
        gf_mul(0x03, 0xe9) == 0x20,
        gf_mul(0x03, 0xc9) == 0x40,
        gf_mul(0x03, 0x89) == 0x80,
{
    assert((0x03u8 << 1) == 0x06u8
        && (0x06u8 << 1) == 0x0cu8
        && (0x06u8 ^ 0x00u8) == 0x06u8
        && (0x03u8 ^ 0x06u8) == 0x05u8
        && (0x05u8 << 1) == 0x0au8
        && (0x0au8 << 1) == 0x14u8
        && (0x14u8 << 1) == 0x28u8
        && (0x14u8 ^ 0x00u8) == 0x14u8
        && (0x00u8 ^ 0x14u8) == 0x14u8
        && (0x05u8 ^ 0x14u8) == 0x11u8
        && (0x11u8 << 1) == 0x22u8
        && (0x22u8 << 1) == 0x44u8
        && (0x44u8 << 1) == 0x88u8
        && (0x88u8 << 1) == 0x10u8
        && (0x10u8 ^ 0x1bu8) == 0x0bu8
        && (0x0bu8 << 1) == 0x16u8
        && (0x0bu8 ^ 0x00u8) == 0x0bu8
        && (0x00u8 ^ 0x0bu8) == 0x0bu8
        && (0x11u8 ^ 0x0bu8) == 0x1au8
        && (0x1au8 << 1) == 0x34u8
        && (0x34u8 << 1) == 0x68u8
        && (0x68u8 << 1) == 0xd0u8
        && (0xd0u8 << 1) == 0xa0u8
        && (0xa0u8 ^ 0x1bu8) == 0xbbu8
        && (0xbbu8 << 1) == 0x76u8
        && (0x76u8 ^ 0x1bu8) == 0x6du8
        && (0xbbu8 ^ 0x00u8) == 0xbbu8
        && (0xd0u8 ^ 0xbbu8) == 0x6bu8
        && (0x00u8 ^ 0x6bu8) == 0x6bu8
        && (0x34u8 ^ 0x6bu8) == 0x5fu8
        && (0x00u8 ^ 0x5fu8) == 0x5fu8
        && (0x5fu8 << 1) == 0xbeu8
        && (0xbeu8 << 1) == 0x7cu8
        && (0x7cu8 ^ 0x1bu8) == 0x67u8
        && (0x67u8 << 1) == 0xceu8
        && (0xceu8 << 1) == 0x9cu8
        && (0x9cu8 ^ 0x1bu8) == 0x87u8
        && (0x87u8 << 1) == 0x0eu8
        && (0x0eu8 ^ 0x1bu8) == 0x15u8
        && (0x15u8 << 1) == 0x2au8
        && (0x2au8 << 1) == 0x54u8
        && (0x2au8 ^ 0x00u8) == 0x2au8
        && (0x00u8 ^ 0x2au8) == 0x2au8
        && (0x87u8 ^ 0x2au8) == 0xadu8
        && (0xceu8 ^ 0xadu8) == 0x63u8
        && (0x67u8 ^ 0x63u8) == 0x04u8
        && (0xbeu8 ^ 0x04u8) == 0xbau8
        && (0x5fu8 ^ 0xbau8) == 0xe5u8
        && (0xe5u8 << 1) == 0xcau8
        && (0xcau8 ^ 0x1bu8) == 0xd1u8
        && (0xd1u8 << 1) == 0xa2u8
        && (0xa2u8 ^ 0x1bu8) == 0xb9u8
        && (0xb9u8 << 1) == 0x72u8
        && (0x72u8 ^ 0x1bu8) == 0x69u8
        && (0x69u8 << 1) == 0xd2u8
        && (0xd2u8 << 1) == 0xa4u8
        && (0xa4u8 ^ 0x1bu8) == 0xbfu8
        && (0xbfu8 << 1) == 0x7eu8
        && (0x7eu8 ^ 0x1bu8) == 0x65u8
        && (0x65u8 << 1) == 0xcau8
        && (0xcau8 << 1) == 0x94u8
        && (0x94u8 ^ 0x1bu8) == 0x8fu8
        && (0xcau8 ^ 0x00u8) == 0xcau8
        && (0x65u8 ^ 0xcau8) == 0xafu8
        && (0xbfu8 ^ 0xafu8) == 0x10u8
        && (0x00u8 ^ 0x10u8) == 0x10u8
        && (0xb9u8 ^ 0x10u8) == 0xa9u8
        && (0x00u8 ^ 0xa9u8) == 0xa9u8
        && (0xe5u8 ^ 0xa9u8) == 0x4cu8
        && (0x4cu8 << 1) == 0x98u8) by (bit_vector);
    assert((0x98u8 << 1) == 0x30u8
        && (0x30u8 ^ 0x1bu8) == 0x2bu8
        && (0x2bu8 << 1) == 0x56u8
        && (0x56u8 << 1) == 0xacu8
        && (0xacu8 << 1) == 0x58u8
        && (0x58u8 ^ 0x1bu8) == 0x43u8
        && (0x43u8 << 1) == 0x86u8
        && (0x86u8 << 1) == 0x0cu8
        && (0x0cu8 ^ 0x1bu8) == 0x17u8
        && (0x86u8 ^ 0x00u8) == 0x86u8
        && (0x00u8 ^ 0x86u8) == 0x86u8
        && (0x56u8 ^ 0x86u8) == 0xd0u8
        && (0x2bu8 ^ 0xd0u8) == 0xfbu8
        && (0x00u8 ^ 0xfbu8) == 0xfbu8
        && (0x17u8 << 1) == 0x2eu8
        && (0x17u8 ^ 0x00u8) == 0x17u8
        && (0x86u8 ^ 0x17u8) == 0x91u8
        && (0x43u8 ^ 0x91u8) == 0xd2u8
        && (0xacu8 ^ 0xd2u8) == 0x7eu8
        && (0x56u8 ^ 0x7eu8) == 0x28u8
        && (0x00u8 ^ 0x28u8) == 0x28u8
        && (0x98u8 ^ 0x28u8) == 0xb0u8
        && (0x4cu8 ^ 0xb0u8) == 0xfcu8
        && (0xd2u8 ^ 0x10u8) == 0xc2u8
        && (0x69u8 ^ 0xc2u8) == 0xabu8
        && (0xb9u8 ^ 0xabu8) == 0x12u8
        && (0x00u8 ^ 0x12u8) == 0x12u8
        && (0x87u8 ^ 0x00u8) == 0x87u8
        && (0x00u8 ^ 0x87u8) == 0x87u8
        && (0xbeu8 ^ 0x87u8) == 0x39u8
        && (0x00u8 ^ 0x39u8) == 0x39u8
        && (0x6du8 << 1) == 0xdau8
        && (0x6du8 ^ 0x00u8) == 0x6du8
        && (0xbbu8 ^ 0x6du8) == 0xd6u8
        && (0xd0u8 ^ 0xd6u8) == 0x06u8
        && (0x00u8 ^ 0x06u8) == 0x06u8
        && (0x1au8 ^ 0x06u8) == 0x1cu8
        && (0x88u8 ^ 0x0bu8) == 0x83u8
        && (0x44u8 ^ 0x83u8) == 0xc7u8
        && (0x00u8 ^ 0xc7u8) == 0xc7u8
        && (0x28u8 << 1) == 0x50u8
        && (0x50u8 << 1) == 0xa0u8
        && (0xa0u8 << 1) == 0x40u8
        && (0x40u8 ^ 0x1bu8) == 0x5bu8
        && (0x5bu8 << 1) == 0xb6u8
        && (0xb6u8 << 1) == 0x6cu8
        && (0x6cu8 ^ 0x1bu8) == 0x77u8
        && (0xb6u8 ^ 0x00u8) == 0xb6u8
        && (0x5bu8 ^ 0xb6u8) == 0xedu8
        && (0x00u8 ^ 0xedu8) == 0xedu8
        && (0x14u8 ^ 0xedu8) == 0xf9u8
        && (0x0au8 ^ 0xf9u8) == 0xf3u8
        && (0x05u8 ^ 0xf3u8) == 0xf6u8
        && (0x01u8 << 1) == 0x02u8
        && (0x02u8 << 1) == 0x04u8
        && (0x04u8 << 1) == 0x08u8
        && (0x08u8 << 1) == 0x10u8
        && (0x10u8 << 1) == 0x20u8
        && (0x20u8 << 1) == 0x40u8
        && (0x40u8 << 1) == 0x80u8
        && (0x80u8 << 1) == 0x00u8
        && (0x00u8 ^ 0x1bu8) == 0x1bu8
        && (0x80u8 ^ 0x00u8) == 0x80u8
        && (0x40u8 ^ 0x80u8) == 0xc0u8
        && (0x20u8 ^ 0xc0u8) == 0xe0u8
        && (0x10u8 ^ 0xe0u8) == 0xf0u8
        && (0x00u8 ^ 0xf0u8) == 0xf0u8
        && (0x04u8 ^ 0xf0u8) == 0xf4u8
        && (0x02u8 ^ 0xf4u8) == 0xf6u8
        && (0x00u8 ^ 0xf6u8) == 0xf6u8) by (bit_vector);
    assert((0x1bu8 << 1) == 0x36u8
        && (0x1bu8 ^ 0x00u8) == 0x1bu8
        && (0x80u8 ^ 0x1bu8) == 0x9bu8
        && (0x40u8 ^ 0x9bu8) == 0xdbu8
        && (0x20u8 ^ 0xdbu8) == 0xfbu8
        && (0x08u8 ^ 0xfbu8) == 0xf3u8
        && (0x04u8 ^ 0xf3u8) == 0xf7u8
        && (0x00u8 ^ 0xf7u8) == 0xf7u8
        && (0x36u8 << 1) == 0x6cu8
        && (0x36u8 ^ 0x00u8) == 0x36u8
        && (0x1bu8 ^ 0x36u8) == 0x2du8
        && (0x80u8 ^ 0x2du8) == 0xadu8
        && (0x40u8 ^ 0xadu8) == 0xedu8
        && (0x10u8 ^ 0xedu8) == 0xfdu8
        && (0x08u8 ^ 0xfdu8) == 0xf5u8
        && (0x00u8 ^ 0xf5u8) == 0xf5u8
        && (0x6cu8 << 1) == 0xd8u8
        && (0x6cu8 ^ 0x00u8) == 0x6cu8
        && (0x36u8 ^ 0x6cu8) == 0x5au8
        && (0x1bu8 ^ 0x5au8) == 0x41u8
        && (0x80u8 ^ 0x41u8) == 0xc1u8
        && (0x00u8 ^ 0xc1u8) == 0xc1u8
        && (0x20u8 ^ 0xc1u8) == 0xe1u8
        && (0x10u8 ^ 0xe1u8) == 0xf1u8
        && (0x00u8 ^ 0xf1u8) == 0xf1u8
        && (0xd8u8 << 1) == 0xb0u8
        && (0xb0u8 ^ 0x1bu8) == 0xabu8
        && (0xd8u8 ^ 0x00u8) == 0xd8u8
        && (0x6cu8 ^ 0xd8u8) == 0xb4u8
        && (0x36u8 ^ 0xb4u8) == 0x82u8
        && (0x1bu8 ^ 0x82u8) == 0x99u8
        && (0x00u8 ^ 0x99u8) == 0x99u8
        && (0x40u8 ^ 0x99u8) == 0xd9u8
        && (0x20u8 ^ 0xd9u8) == 0xf9u8
        && (0x00u8 ^ 0xf9u8) == 0xf9u8
        && (0xabu8 << 1) == 0x56u8
        && (0x56u8 ^ 0x1bu8) == 0x4du8
        && (0xabu8 ^ 0x00u8) == 0xabu8
        && (0xd8u8 ^ 0xabu8) == 0x73u8
        && (0x6cu8 ^ 0x73u8) == 0x1fu8
        && (0x36u8 ^ 0x1fu8) == 0x29u8
        && (0x00u8 ^ 0x29u8) == 0x29u8
        && (0x80u8 ^ 0x29u8) == 0xa9u8
        && (0x40u8 ^ 0xa9u8) == 0xe9u8
        && (0x00u8 ^ 0xe9u8) == 0xe9u8
        && (0x4du8 << 1) == 0x9au8
        && (0x4du8 ^ 0x00u8) == 0x4du8
        && (0xabu8 ^ 0x4du8) == 0xe6u8
        && (0xd8u8 ^ 0xe6u8) == 0x3eu8
        && (0x6cu8 ^ 0x3eu8) == 0x52u8
        && (0x00u8 ^ 0x52u8) == 0x52u8
        && (0x1bu8 ^ 0x52u8) == 0x49u8
        && (0x80u8 ^ 0x49u8) == 0xc9u8
        && (0x00u8 ^ 0xc9u8) == 0xc9u8
        && (0x9au8 << 1) == 0x34u8
        && (0x34u8 ^ 0x1bu8) == 0x2fu8
        && (0x9au8 ^ 0x00u8) == 0x9au8
        && (0x4du8 ^ 0x9au8) == 0xd7u8
        && (0xabu8 ^ 0xd7u8) == 0x7cu8
        && (0xd8u8 ^ 0x7cu8) == 0xa4u8
        && (0x00u8 ^ 0xa4u8) == 0xa4u8
        && (0x36u8 ^ 0xa4u8) == 0x92u8
        && (0x1bu8 ^ 0x92u8) == 0x89u8
        && (0x00u8 ^ 0x89u8) == 0x89u8
        && (0x0cu8 << 1) == 0x18u8
        && (0x18u8 << 1) == 0x30u8
        && (0x30u8 << 1) == 0x60u8
        && (0x60u8 << 1) == 0xc0u8
        && (0xc0u8 << 1) == 0x80u8
        && (0x9bu8 << 1) == 0x36u8) by (bit_vector);
    assert((0x36u8 ^ 0x1bu8) == 0x2du8
        && (0x9bu8 ^ 0x00u8) == 0x9bu8
        && (0xc0u8 ^ 0x9bu8) == 0x5bu8
        && (0x60u8 ^ 0x5bu8) == 0x3bu8
        && (0x30u8 ^ 0x3bu8) == 0x0bu8
        && (0x0cu8 ^ 0x0bu8) == 0x07u8
        && (0x06u8 ^ 0x07u8) == 0x01u8
        && (0x00u8 ^ 0x01u8) == 0x01u8
        && (0x03u8 ^ 0x01u8) == 0x02u8
        && (0x00u8 ^ 0x07u8) == 0x07u8
        && (0x03u8 ^ 0x07u8) == 0x04u8
        && (0x03u8 ^ 0x0bu8) == 0x08u8
        && (0x18u8 ^ 0x0bu8) == 0x13u8
        && (0x00u8 ^ 0x13u8) == 0x13u8
        && (0x03u8 ^ 0x13u8) == 0x10u8
        && (0x00u8 ^ 0x3bu8) == 0x3bu8
        && (0x18u8 ^ 0x3bu8) == 0x23u8
        && (0x00u8 ^ 0x23u8) == 0x23u8
        && (0x03u8 ^ 0x23u8) == 0x20u8
        && (0x00u8 ^ 0x5bu8) == 0x5bu8
        && (0x18u8 ^ 0x5bu8) == 0x43u8
        && (0x00u8 ^ 0x43u8) == 0x43u8
        && (0x03u8 ^ 0x43u8) == 0x40u8
        && (0x00u8 ^ 0x9bu8) == 0x9bu8
        && (0x18u8 ^ 0x9bu8) == 0x83u8
        && (0x00u8 ^ 0x83u8) == 0x83u8
        && (0x03u8 ^ 0x83u8) == 0x80u8) by (bit_vector);
    assert(gf_mul(0x03, 0x03) == 0x05) by {
        reveal_with_fuel(gf_mul, 10);
    }
    assert(gf_mul(0x05, 0x05) == 0x11) by {
        reveal_with_fuel(gf_mul, 10);
    }
    assert(gf_mul(0x11, 0x11) == 0x1a) by {
        reveal_with_fuel(gf_mul, 10);
    }
    assert(gf_mul(0x1a, 0x1a) == 0x5f) by {
        reveal_with_fuel(gf_mul, 10);
    }
    assert(gf_mul(0x5f, 0x5f) == 0xe5) by {
        reveal_with_fuel(gf_mul, 10);
    }
    assert(gf_mul(0xe5, 0xe5) == 0x4c) by {
        reveal_with_fuel(gf_mul, 10);
    }
    assert(gf_mul(0x4c, 0x4c) == 0xfb) by {
        reveal_with_fuel(gf_mul, 10);
    }
    assert(gf_mul(0x4c, 0xfb) == 0xfc) by {
        reveal_with_fuel(gf_mul, 10);
    }
    assert(gf_mul(0xe5, 0xfc) == 0x12) by {
        reveal_with_fuel(gf_mul, 10);
    }
    assert(gf_mul(0x5f, 0x12) == 0x39) by {
        reveal_with_fuel(gf_mul, 10);
    }
    assert(gf_mul(0x1a, 0x39) == 0x1c) by {
        reveal_with_fuel(gf_mul, 10);
    }
    assert(gf_mul(0x11, 0x1c) == 0xc7) by {
        reveal_with_fuel(gf_mul, 10);
    }
    assert(gf_mul(0x05, 0xc7) == 0xf6) by {
        reveal_with_fuel(gf_mul, 10);
    }
    assert(gf_mul(0x01, 0xf6) == 0xf6) by {
        reveal_with_fuel(gf_mul, 10);
    }
    assert(gf_mul(0x02, 0xf6) == 0xf7) by {
        reveal_with_fuel(gf_mul, 10);
    }
    assert(gf_mul(0x04, 0xf6) == 0xf5) by {
        reveal_with_fuel(gf_mul, 10);
    }
    assert(gf_mul(0x08, 0xf6) == 0xf1) by {
        reveal_with_fuel(gf_mul, 10);
    }
    assert(gf_mul(0x10, 0xf6) == 0xf9) by {
        reveal_with_fuel(gf_mul, 10);
    }
    assert(gf_mul(0x20, 0xf6) == 0xe9) by {
        reveal_with_fuel(gf_mul, 10);
    }
    assert(gf_mul(0x40, 0xf6) == 0xc9) by {
        reveal_with_fuel(gf_mul, 10);
    }
    assert(gf_mul(0x80, 0xf6) == 0x89) by {
        reveal_with_fuel(gf_mul, 10);
    }
    assert(gf_mul(0x03, 0xf6) == 0x01) by {
        reveal_with_fuel(gf_mul, 10);
    }
    assert(gf_mul(0x03, 0xf7) == 0x02) by {
        reveal_with_fuel(gf_mul, 10);
    }
    assert(gf_mul(0x03, 0xf5) == 0x04) by {
        reveal_with_fuel(gf_mul, 10);
    }
    assert(gf_mul(0x03, 0xf1) == 0x08) by {
        reveal_with_fuel(gf_mul, 10);
    }
    assert(gf_mul(0x03, 0xf9) == 0x10) by {
        reveal_with_fuel(gf_mul, 10);
    }
    assert(gf_mul(0x03, 0xe9) == 0x20) by {
        reveal_with_fuel(gf_mul, 10);
    }
    assert(gf_mul(0x03, 0xc9) == 0x40) by {
        reveal_with_fuel(gf_mul, 10);
    }
    assert(gf_mul(0x03, 0x89) == 0x80) by {
        reveal_with_fuel(gf_mul, 10);
    }
}

/// The inverse of the element 3 is 0xf6.
pub proof fn lemma_inv_three()
    ensures
        gf_inv(3) == 0xf6,
{
    lemma_concrete_products();
}


/// Unfolding step of the multiplication, valid for every second argument.
proof fn lemma_mul_unfold(a: u8, b: u8)
    ensures
        gf_mul(a, b) == (if b % 2 == 1 {
            a
        } else {
            0u8
        }) ^ gf_mul(gf_xtime(a), b / 2),
{
    if b == 0 {
        assert((0u8 ^ 0u8) == 0u8) by (bit_vector);
    }
}

/// The doubling step distributes over xor.
proof fn lemma_xtime_linear(x: u8, y: u8)
    ensures
        gf_xtime(x ^ y) == gf_xtime(x) ^ gf_xtime(y),
{
    assert((if (x ^ y) < 0x80 {
        (x ^ y) << 1
    } else {
        ((x ^ y) << 1) ^ 0x1b
    }) == ((if x < 0x80 {
        x << 1
    } else {
        (x << 1) ^ 0x1b
    }) ^ (if y < 0x80 {
        y << 1
    } else {
        (y << 1) ^ 0x1b
    }))) by (bit_vector);
}

/// Zero annihilates the multiplication on the left.
proof fn lemma_mul_zero_left(b: u8)
    ensures
        gf_mul(0, b) == 0,
    decreases b,
{
    if b != 0 {
        assert((0u8 << 1) == 0u8 && (0u8 ^ 0u8) == 0u8) by (bit_vector);
        assert(gf_xtime(0) == 0);
        lemma_mul_zero_left(b / 2);
    }
}

/// The multiplication distributes over xor in its second argument.
proof fn lemma_mul_right_xor(a: u8, x: u8, y: u8)
    ensures
        gf_mul(a, x ^ y) == gf_mul(a, x) ^ gf_mul(a, y),
    decreases x + y,
{
    if x == 0 && y == 0 {
        assert((0u8 ^ 0u8) == 0u8) by (bit_vector);
        assert(x ^ y == 0u8);
        assert(gf_mul(a, x) ^ gf_mul(a, y) == 0u8);
    } else {
        lemma_mul_unfold(a, x);
        lemma_mul_unfold(a, y);
        lemma_mul_unfold(a, x ^ y);
        assert(((x ^ y) / 2) == ((x / 2) ^ (y / 2))) by (bit_vector);
        lemma_mul_right_xor(gf_xtime(a), x / 2, y / 2);
        let mx = gf_mul(gf_xtime(a), x / 2);
        let my = gf_mul(gf_xtime(a), y / 2);
        assert(gf_mul(gf_xtime(a), (x ^ y) / 2) == mx ^ my);
        assert(((if (x ^ y) % 2 == 1 {
            a
        } else {
            0u8
        }) ^ (mx ^ my)) == (((if x % 2 == 1 {
            a
        } else {
            0u8
        }) ^ mx) ^ ((if y % 2 == 1 {
            a
        } else {
            0u8
        }) ^ my))) by (bit_vector);
    }
}

/// The multiplication distributes over xor in its first argument.
proof fn lemma_mul_left_xor(x: u8, y: u8, b: u8)
    ensures
        gf_mul(x ^ y, b) == gf_mul(x, b) ^ gf_mul(y, b),
    decreases b,
{
    if b == 0 {
        assert((0u8 ^ 0u8) == 0u8) by (bit_vector);
    } else {
        lemma_mul_unfold(x ^ y, b);
        lemma_mul_unfold(x, b);
        lemma_mul_unfold(y, b);
        lemma_xtime_linear(x, y);
        lemma_mul_left_xor(gf_xtime(x), gf_xtime(y), b / 2);
        let mx = gf_mul(gf_xtime(x), b / 2);
        let my = gf_mul(gf_xtime(y), b / 2);
        assert(gf_mul(gf_xtime(x) ^ gf_xtime(y), b / 2) == mx ^ my);
        assert(((if b % 2 == 1 {
            x ^ y
        } else {
            0u8
        }) ^ (mx ^ my)) == (((if b % 2 == 1 {
            x
        } else {
            0u8
        }) ^ mx) ^ ((if b % 2 == 1 {
            y
        } else {
            0u8
        }) ^ my))) by (bit_vector);
    }
}

/// Multiplying by 3 undoes division by 3: the two operations cancel on
/// every byte, because 3 is invertible in the field.
pub proof fn lemma_mul_three_cancel(u: u8)
    ensures
        gf_mul(3, gf_div(u, 3)) == u,
{
    lemma_inv_three();
    lemma_concrete_products();
    assert(u == (u & 0x01) ^ ((u & 0x02) ^ ((u & 0x04) ^ ((u & 0x08) ^ ((u & 0x10) ^ ((u & 0x20) ^ ((u & 0x40) ^ ((u & 0x80))))))))) by (bit_vector);
    assert(((u & 0x01) == 0 || (u & 0x01) == 0x01) && ((u & 0x02) == 0 || (u & 0x02) == 0x02) && ((u & 0x04) == 0 || (u & 0x04) == 0x04) && ((u & 0x08) == 0 || (u & 0x08) == 0x08) && ((u & 0x10) == 0 || (u & 0x10) == 0x10) && ((u & 0x20) == 0 || (u & 0x20) == 0x20) && ((u & 0x40) == 0 || (u & 0x40) == 0x40) && ((u & 0x80) == 0 || (u & 0x80) == 0x80)) by (bit_vector);
    let u0 = u & 0x01;
    let u1 = u & 0x02;
    let u2 = u & 0x04;
    let u3 = u & 0x08;
    let u4 = u & 0x10;
    let u5 = u & 0x20;
    let u6 = u & 0x40;
    let u7 = u & 0x80;
    let t7 = u7;
    let t6 = u6 ^ t7;
    let t5 = u5 ^ t6;
    let t4 = u4 ^ t5;
    let t3 = u3 ^ t4;
    let t2 = u2 ^ t3;
    let t1 = u1 ^ t2;
    let t0 = u0 ^ t1;
    assert(t0 == u);
    lemma_mul_left_xor(u0, t1, 0xf6);
    lemma_mul_left_xor(u1, t2, 0xf6);
    lemma_mul_left_xor(u2, t3, 0xf6);
    lemma_mul_left_xor(u3, t4, 0xf6);
    lemma_mul_left_xor(u4, t5, 0xf6);
    lemma_mul_left_xor(u5, t6, 0xf6);
    lemma_mul_left_xor(u6, t7, 0xf6);
    let m0 = gf_mul(u0, 0xf6);
    if u0 == 0 {
        lemma_mul_zero_left(0xf6);
        assert(m0 == 0);
        assert(gf_mul(3, m0) == 0);
    } else {
        assert(u0 == 0x01);
        assert(m0 == 0xf6);
        assert(gf_mul(3, m0) == 0x01);
    }
    assert(gf_mul(3, m0) == u0);
    let m1 = gf_mul(u1, 0xf6);
    if u1 == 0 {
        lemma_mul_zero_left(0xf6);
        assert(m1 == 0);
        assert(gf_mul(3, m1) == 0);
    } else {
        assert(u1 == 0x02);
        assert(m1 == 0xf7);
        assert(gf_mul(3, m1) == 0x02);
    }
    assert(gf_mul(3, m1) == u1);
    let m2 = gf_mul(u2, 0xf6);
    if u2 == 0 {
        lemma_mul_zero_left(0xf6);
        assert(m2 == 0);
        assert(gf_mul(3, m2) == 0);
    } else {
        assert(u2 == 0x04);
        assert(m2 == 0xf5);
        assert(gf_mul(3, m2) == 0x04);
    }
    assert(gf_mul(3, m2) == u2);
    let m3 = gf_mul(u3, 0xf6);
    if u3 == 0 {
        lemma_mul_zero_left(0xf6);
        assert(m3 == 0);
        assert(gf_mul(3, m3) == 0);
    } else {
        assert(u3 == 0x08);
        assert(m3 == 0xf1);
        assert(gf_mul(3, m3) == 0x08);
    }
    assert(gf_mul(3, m3) == u3);
    let m4 = gf_mul(u4, 0xf6);
    if u4 == 0 {
        lemma_mul_zero_left(0xf6);
        assert(m4 == 0);
        assert(gf_mul(3, m4) == 0);
    } else {
        assert(u4 == 0x10);
        assert(m4 == 0xf9);
        assert(gf_mul(3, m4) == 0x10);
    }
    assert(gf_mul(3, m4) == u4);
    let m5 = gf_mul(u5, 0xf6);
    if u5 == 0 {
        lemma_mul_zero_left(0xf6);
        assert(m5 == 0);
        assert(gf_mul(3, m5) == 0);
    } else {
        assert(u5 == 0x20);
        assert(m5 == 0xe9);
        assert(gf_mul(3, m5) == 0x20);
    }
    assert(gf_mul(3, m5) == u5);
    let m6 = gf_mul(u6, 0xf6);
    if u6 == 0 {
        lemma_mul_zero_left(0xf6);
        assert(m6 == 0);
        assert(gf_mul(3, m6) == 0);
    } else {
        assert(u6 == 0x40);
        assert(m6 == 0xc9);
        assert(gf_mul(3, m6) == 0x40);
    }
    assert(gf_mul(3, m6) == u6);
    let m7 = gf_mul(u7, 0xf6);
    if u7 == 0 {
        lemma_mul_zero_left(0xf6);
        assert(m7 == 0);
        assert(gf_mul(3, m7) == 0);
    } else {
        assert(u7 == 0x80);
        assert(m7 == 0x89);
        assert(gf_mul(3, m7) == 0x80);
    }
    assert(gf_mul(3, m7) == u7);
    let s7 = m7;
    let s6 = m6 ^ s7;
    let s5 = m5 ^ s6;
    let s4 = m4 ^ s5;
    let s3 = m3 ^ s4;
    let s2 = m2 ^ s3;
    let s1 = m1 ^ s2;
    let s0 = m0 ^ s1;
    assert(gf_mul(u, 0xf6) == s0);
    lemma_mul_right_xor(3, m0, s1);
    lemma_mul_right_xor(3, m1, s2);
    lemma_mul_right_xor(3, m2, s3);
    lemma_mul_right_xor(3, m3, s4);
    lemma_mul_right_xor(3, m4, s5);
    lemma_mul_right_xor(3, m5, s6);
    lemma_mul_right_xor(3, m6, s7);
    assert(gf_mul(3, s0) == u0 ^ (u1 ^ (u2 ^ (u3 ^ (u4 ^ (u5 ^ (u6 ^ u7)))))));
    assert(gf_div(u, 3) == gf_mul(u, 0xf6));
}

/// One is the multiplicative identity.
pub proof fn lemma_mul_one(y: u8)
    ensures
        gf_mul(y, 1) == y,
{
    assert(gf_mul(y, 1) == y ^ gf_mul(gf_xtime(y), 0));
    assert(y ^ 0 == y) by (bit_vector);
}

/// A polynomial with the secret as its only coefficient takes the secret as
/// its value everywhere, and interpolating a single such point returns it:
/// the round trip for a scheme that requires one share.
pub proof fn lemma_constant_poly_round_trip(s: u8, x: u8)
    ensures
        poly_eval(seq![s], x) == s,
        interp_at_zero(seq![(x, poly_eval(seq![s], x))]) == s,
{
    assert(seq![s].drop_first() =~= Seq::<u8>::empty());
    assert(poly_eval(Seq::<u8>::empty(), x) == 0);
    assert(s ^ 0u8 == s) by (bit_vector);
    lemma_interpolate_single_point((x, poly_eval(seq![s], x)));
}

/// Interpolation through a single point returns that point's y value: the
/// basis product is empty, so the one term is y * 1.
pub proof fn lemma_interpolate_single_point(pt: (u8, u8))
    ensures
        interp_at_zero(seq![pt]) == pt.1,
{
    let pts = seq![pt];
    assert(lag_prod(pts, 0, 1) == lag_prod(pts, 0, 0));
    assert(interp_sum(pts, 1) == gf_add(interp_sum(pts, 0), gf_mul(pts[0].1, lag_prod(pts, 0, 1))));
    lemma_mul_one(pt.1);
    let v = pt.1;
    assert(0u8 ^ v == v) by (bit_vector);
}

} // verus!
