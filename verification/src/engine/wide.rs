use vstd::prelude::*;

verus! {

/// Two to the power 64: the weight of the second word of a wide integer.
pub open spec fn pow64() -> nat {
    0x1_0000_0000_0000_0000nat
}

/// Two to the power 128.
pub open spec fn pow128() -> nat {
    0x1_0000_0000_0000_0000_0000_0000_0000_0000nat
}

/// Two to the power 192.
pub open spec fn pow192() -> nat {
    0x1_0000_0000_0000_0000_0000_0000_0000_0000_0000_0000_0000_0000nat
}

/// Two to the power 256: one more than the largest value a `U256` holds.
pub open spec fn pow256() -> nat {
    0x1_0000_0000_0000_0000_0000_0000_0000_0000_0000_0000_0000_0000_0000_0000_0000_0000nat
}

/// A 256-bit unsigned integer, held as four 64-bit words, least significant
/// first. Prices and quantities are of this type.
#[derive(Clone, Copy, Debug, PartialEq, Eq, Structural)]
pub struct U256 {
    pub w0: u64,
    pub w1: u64,
    pub w2: u64,
    pub w3: u64,
}

impl View for U256 {
    type V = nat;

    open spec fn view(&self) -> nat {
        (self.w0 + self.w1 * pow64() + self.w2 * pow128() + self.w3 * pow192()) as nat
    }
}

impl From<u64> for U256 {
    fn from(n: u64) -> (r: U256) {
        U256 { w0: n, w1: 0, w2: 0, w3: 0 }
    }
}

impl vstd::std_specs::convert::FromSpecImpl<u64> for U256 {
    open spec fn obeys_from_spec() -> bool {
        true
    }

    open spec fn from_spec(n: u64) -> U256 {
        U256 { w0: n, w1: 0, w2: 0, w3: 0 }
    }
}

impl U256 {
    /// The value zero.
    pub fn zero() -> (r: U256)
        ensures
            r@ == 0,
            r == U256::from_nat(0),
    {
        U256 { w0: 0, w1: 0, w2: 0, w3: 0 }
    }

    /// The 256-bit integer with the value of `n`.
    pub fn from_u64(n: u64) -> (r: U256)
        ensures
            r@ == n,
    {
        U256 { w0: n, w1: 0, w2: 0, w3: 0 }
    }

    /// The value whose view is `n`, for `n` below two to the power 256.
    pub open spec fn from_nat(n: nat) -> U256 {
        U256 {
            w0: (n % pow64()) as u64,
            w1: ((n / pow64()) % pow64()) as u64,
            w2: ((n / pow128()) % pow64()) as u64,
            w3: ((n / pow192()) % pow64()) as u64,
        }
    }

    /// `from_nat` is the inverse of the view.
    pub proof fn lemma_from_nat(n: nat)
        requires
            n < pow256(),
        ensures
            U256::from_nat(n)@ == n,
    {
        let a = n / pow64();
        let b = n / pow128();
        let c = n / pow192();
        assert(b == a / pow64());
        assert(c == b / pow64());
        assert(c < pow64());
    }

    /// A value is `from_nat` of its view.
    pub proof fn lemma_from_view(self)
        ensures
            U256::from_nat(self@) == self,
    {
        U256::lemma_from_nat(self@);
        self.lemma_view_injective(U256::from_nat(self@));
    }

    /// Every value is below two to the power 256.
    pub proof fn lemma_bounded(self)
        ensures
            self@ < pow256(),
    {
    }

    /// Two values with the same view are the same value.
    pub proof fn lemma_view_injective(self, other: U256)
        ensures
            self@ == other@ <==> self == other,
    {
        self.lemma_view_order(other);
        other.lemma_view_order(self);
    }

    /// The order of the views is the lexicographic order of the words, most
    /// significant first.
    pub proof fn lemma_view_order(self, other: U256)
        ensures
            self@ < other@ <==> (self.w3 < other.w3 || (self.w3 == other.w3 && (self.w2 < other.w2
                || (self.w2 == other.w2 && (self.w1 < other.w1 || (self.w1 == other.w1 && self.w0
                < other.w0)))))),
    {
    }
}

/// A 512-bit unsigned integer, held as eight 64-bit words, least significant
/// first. It holds the product of a price and a number of basis points.
#[derive(Clone, Copy, Debug, PartialEq, Eq, Structural)]
pub struct U512 {
    pub w0: u64,
    pub w1: u64,
    pub w2: u64,
    pub w3: u64,
    pub w4: u64,
    pub w5: u64,
    pub w6: u64,
    pub w7: u64,
}

impl View for U512 {
    type V = nat;

    open spec fn view(&self) -> nat {
        (self.w0 + self.w1 * pow64() + self.w2 * pow128() + self.w3 * pow192() + (self.w4 + self.w5
            * pow64() + self.w6 * pow128() + self.w7 * pow192()) * pow256()) as nat
    }
}

/// The sum of two values, held at the largest value where it would pass it.
pub open spec fn saturating_sum(a: nat, b: nat) -> nat {
    if a + b < pow256() {
        a + b
    } else {
        (pow256() - 1) as nat
    }
}

/// The difference of two values, held at zero where it would fall below it.
pub open spec fn saturating_difference(a: nat, b: nat) -> nat {
    if a >= b {
        (a - b) as nat
    } else {
        0
    }
}

/// Calls the `<` of `crypto_bigint::U256`, which compares two integers by
/// value: the result says whether `a` is the smaller.
#[verifier::external_body]
fn uint_lt(a: &U256, b: &U256) -> (r: bool)
    ensures
        r == (a@ < b@),
{
    let x = crypto_bigint::U256::from_words([a.w0, a.w1, a.w2, a.w3]);
    let y = crypto_bigint::U256::from_words([b.w0, b.w1, b.w2, b.w3]);
    x < y
}

/// Calls `crypto_bigint::Zero::is_zero` on a `crypto_bigint::U256`: the
/// result says whether the value is zero.
#[verifier::external_body]
fn uint_is_zero(a: &U256) -> (r: bool)
    ensures
        r == (a@ == 0),
{
    let x = crypto_bigint::U256::from_words([a.w0, a.w1, a.w2, a.w3]);
    crypto_bigint::Zero::is_zero(&x).into()
}

/// Calls `crypto_bigint::U256::saturating_add`, which returns the sum, or
/// the largest value where the sum does not fit.
#[verifier::external_body]
fn uint_saturating_add(a: &U256, b: &U256) -> (r: U256)
    ensures
        r@ == saturating_sum(a@, b@),
{
    let x = crypto_bigint::U256::from_words([a.w0, a.w1, a.w2, a.w3]);
    let y = crypto_bigint::U256::from_words([b.w0, b.w1, b.w2, b.w3]);
    let w = x.saturating_add(&y).to_words();
    U256 { w0: w[0], w1: w[1], w2: w[2], w3: w[3] }
}

/// Calls `crypto_bigint::U256::saturating_sub`, which returns the
/// difference, or zero where `b` is the larger.
#[verifier::external_body]
fn uint_saturating_sub(a: &U256, b: &U256) -> (r: U256)
    ensures
        r@ == saturating_difference(a@, b@),
{
    let x = crypto_bigint::U256::from_words([a.w0, a.w1, a.w2, a.w3]);
    let y = crypto_bigint::U256::from_words([b.w0, b.w1, b.w2, b.w3]);
    let w = x.saturating_sub(&y).to_words();
    U256 { w0: w[0], w1: w[1], w2: w[2], w3: w[3] }
}

/// Calls the `*` of `crypto_bigint::U512` with a `crypto_bigint::U256` on
/// the right, on `factor` widened to 512 bits. That operator panics when the
/// product does not fit in 512 bits; a 32-bit factor times a 256-bit value
/// always fits, so the result is the exact product.
#[verifier::external_body]
fn uint_mul_wide(factor: u32, a: &U256) -> (r: U512)
    ensures
        r@ == factor * a@,
{
    let x = crypto_bigint::U256::from_words([a.w0, a.w1, a.w2, a.w3]);
    let w = (crypto_bigint::U512::from(factor) * x).to_words();
    U512 { w0: w[0], w1: w[1], w2: w[2], w3: w[3], w4: w[4], w5: w[5], w6: w[6], w7: w[7] }
}

/// Calls `crypto_bigint::U512::div_rem_limb_with_reciprocal` with the
/// reciprocal of `divisor`, which returns the quotient and the remainder of
/// the division by that one word. Making the reciprocal panics on zero,
/// which `requires` leaves out.
#[verifier::external_body]
fn uint_div_rem_limb(a: &U512, divisor: u64) -> (r: (U512, u64))
    requires
        divisor != 0,
    ensures
        r.0@ == a@ / (divisor as nat),
        r.1 == a@ % (divisor as nat),
{
    let x = crypto_bigint::U512::from_words([a.w0, a.w1, a.w2, a.w3, a.w4, a.w5, a.w6, a.w7]);
    let d = crypto_bigint::NonZero::<crypto_bigint::Limb>::new_unwrap(crypto_bigint::Limb(divisor));
    let (q, rem) = x.div_rem_limb_with_reciprocal(&crypto_bigint::Reciprocal::new(d));
    let w = q.to_words();
    (U512 { w0: w[0], w1: w[1], w2: w[2], w3: w[3], w4: w[4], w5: w[5], w6: w[6], w7: w[7] }, rem.0)
}

/// Calls `crypto_bigint::U512::split`, which returns the low and the high
/// 256 bits, in that order.
#[verifier::external_body]
fn uint_split(a: &U512) -> (r: (U256, U256))
    ensures
        r.0@ == a@ % pow256(),
        r.1@ == a@ / pow256(),
{
    let x = crypto_bigint::U512::from_words([a.w0, a.w1, a.w2, a.w3, a.w4, a.w5, a.w6, a.w7]);
    let (lo, hi): (crypto_bigint::U256, crypto_bigint::U256) = x.split();
    let (l, h) = (lo.to_words(), hi.to_words());
    (U256 { w0: l[0], w1: l[1], w2: l[2], w3: l[3] }, U256 { w0: h[0], w1: h[1], w2: h[2], w3: h[3] })
}

/// The share of `value` that `bps` basis points stand for, rounded down.
pub open spec fn basis_point_share(value: nat, bps: nat) -> nat {
    value * bps / 10000
}

impl U256 {
    /// The largest value.
    pub fn max_value() -> (r: U256)
        ensures
            r@ == pow256() - 1,
    {
        U256 {
            w0: 0xffff_ffff_ffff_ffff,
            w1: 0xffff_ffff_ffff_ffff,
            w2: 0xffff_ffff_ffff_ffff,
            w3: 0xffff_ffff_ffff_ffff,
        }
    }

    /// Whether the value is zero.
    pub fn is_zero(&self) -> (r: bool)
        ensures
            r == (self@ == 0),
    {
        uint_is_zero(self)
    }

    /// Whether `self` is less than `other`.
    pub fn lt(&self, other: &U256) -> (r: bool)
        ensures
            r == (self@ < other@),
    {
        uint_lt(self, other)
    }

    /// Whether `self` is greater than `other`.
    pub fn gt(&self, other: &U256) -> (r: bool)
        ensures
            r == (self@ > other@),
    {
        uint_lt(other, self)
    }

    /// The smaller of two values.
    pub fn min(self, other: U256) -> (r: U256)
        ensures
            r == self.spec_min(other),
    {
        if uint_lt(&other, &self) {
            other
        } else {
            self
        }
    }

    /// The smaller of two values, in specifications.
    pub open spec fn spec_min(self, other: U256) -> U256 {
        if other@ < self@ {
            other
        } else {
            self
        }
    }

    /// `saturating_add`, in specifications.
    pub open spec fn spec_saturating_add(self, other: U256) -> U256 {
        U256::from_nat(saturating_sum(self@, other@))
    }

    /// `saturating_sub`, in specifications.
    pub open spec fn spec_saturating_sub(self, other: U256) -> U256 {
        U256::from_nat(saturating_difference(self@, other@))
    }

    /// `basis_points`, in specifications.
    pub open spec fn spec_basis_points(self, bps: u32) -> U256 {
        if basis_point_share(self@, bps as nat) < pow256() {
            U256::from_nat(basis_point_share(self@, bps as nat))
        } else {
            U256::from_nat((pow256() - 1) as nat)
        }
    }

    /// `self + other`, or the largest value where the sum does not fit.
    pub fn saturating_add(&self, other: &U256) -> (r: U256)
        ensures
            r@ == saturating_sum(self@, other@),
            r == self.spec_saturating_add(*other),
    {
        let r = uint_saturating_add(self, other);
        proof {
            U256::lemma_from_nat(saturating_sum(self@, other@));
            r.lemma_view_injective(self.spec_saturating_add(*other));
        }
        r
    }

    /// `self - other`, or zero where `other` is the larger.
    pub fn saturating_sub(&self, other: &U256) -> (r: U256)
        ensures
            r@ == saturating_difference(self@, other@),
            r == self.spec_saturating_sub(*other),
    {
        let r = uint_saturating_sub(self, other);
        proof {
            U256::lemma_from_nat(saturating_difference(self@, other@));
            r.lemma_view_injective(self.spec_saturating_sub(*other));
        }
        r
    }

    /// The share of `self` that `bps` basis points stand for, rounded down,
    /// or the largest value where the share does not fit in 256 bits.
    pub fn basis_points(&self, bps: u32) -> (r: U256)
        ensures
            r@ == if basis_point_share(self@, bps as nat) < pow256() {
                basis_point_share(self@, bps as nat)
            } else {
                (pow256() - 1) as nat
            },
            r == self.spec_basis_points(bps),
    {
        let product = uint_mul_wide(bps, self);
        let (quotient, _) = uint_div_rem_limb(&product, 10000);
        let (lo, hi) = uint_split(&quotient);
        proof {
            assert(quotient@ == basis_point_share(self@, bps as nat)) by (nonlinear_arith)
                requires
                    product@ == bps * self@,
                    quotient@ == product@ / 10000,
            ;
            assert(hi@ == 0 <==> quotient@ < pow256()) by (nonlinear_arith)
                requires
                    hi@ == quotient@ / pow256(),
                    pow256() > 0,
            ;
            assert(hi@ == 0 ==> lo@ == quotient@) by (nonlinear_arith)
                requires
                    hi@ == quotient@ / pow256(),
                    lo@ == quotient@ % pow256(),
                    pow256() > 0,
            ;
        }
        let r = if uint_is_zero(&hi) {
            lo
        } else {
            U256::max_value()
        };
        proof {
            U256::lemma_from_nat(r@);
            r.lemma_view_injective(self.spec_basis_points(bps));
        }
        r
    }
}

} // verus!
