//! Exact decimal numbers in plain form: a sign, a magnitude and a scale, the
//! number being `±magnitude / 10^scale` (the unpacked form of the decimals that
//! placement files hold).
use vstd::prelude::*;

verus! {

/// `10^n`.
pub open spec fn pow10(n: nat) -> int
    decreases n,
{
    if n == 0 {
        1
    } else {
        10 * pow10((n - 1) as nat)
    }
}

pub proof fn lemma_pow10_positive(n: nat)
    ensures
        pow10(n) > 0,
    decreases n,
{
    if n > 0 {
        lemma_pow10_positive((n - 1) as nat);
    }
}

/// A decimal number `±magnitude / 10^scale`.
#[derive(Debug, Clone, Copy, PartialEq, Eq, Hash, Default)]
pub struct DecimalValue {
    pub negative: bool,
    pub magnitude: u128,
    pub scale: u32,
}

impl DecimalValue {
    /// The signed numerator over `10^scale`.
    pub open spec fn numerator(self) -> int {
        if self.negative {
            -(self.magnitude as int)
        } else {
            self.magnitude as int
        }
    }

    /// Whether two decimals denote the same number.
    pub open spec fn same_number(self, other: DecimalValue) -> bool {
        self.numerator() * pow10(other.scale as nat) == other.numerator() * pow10(self.scale as nat)
    }

    /// Builds a decimal from its parts.
    pub fn new(negative: bool, magnitude: u128, scale: u32) -> (r: DecimalValue)
        ensures
            r.negative == negative,
            r.magnitude == magnitude,
            r.scale == scale,
    {
        DecimalValue { negative, magnitude, scale }
    }

    /// The same number with trailing zeros of the magnitude removed.
    fn normalized(self) -> (r: DecimalValue)
        ensures
            r.same_number(self),
            r.negative == self.negative,
            r.scale == 0 || r.magnitude % 10 != 0,
            r.magnitude == 0 ==> self.magnitude == 0,
    {
        let mut m = self.magnitude;
        let mut s = self.scale;
        while s > 0 && m % 10 == 0
            invariant
                (m as int) * pow10(self.scale as nat) == (self.magnitude as int) * pow10(s as nat),
                m == 0 ==> self.magnitude == 0,
            decreases s,
        {
            let ghost old_m = m as int;
            let ghost old_s = s as nat;
            m = m / 10;
            s = s - 1;
            proof {
                assert(old_m == 10 * (m as int));
                assert(pow10(old_s) == 10 * pow10(s as nat));
                assert(old_m * pow10(self.scale as nat) == (10 * (m as int)) * pow10(self.scale as nat));
                assert((10 * (m as int)) * pow10(self.scale as nat) == 10 * ((m as int) * pow10(self.scale as nat)))
                    by (nonlinear_arith);
                assert((self.magnitude as int) * (10 * pow10(s as nat)) == 10 * ((self.magnitude as int) * pow10(s as nat)))
                    by (nonlinear_arith);
            }
        }
        let r = DecimalValue { negative: self.negative, magnitude: m, scale: s };
        proof {
            let x = m as int;
            let y = self.magnitude as int;
            let p1 = pow10(self.scale as nat);
            let p2 = pow10(s as nat);
            assert(x * p1 == y * p2);
            assert((-x) * p1 == (-y) * p2) by (nonlinear_arith)
                requires
                    x * p1 == y * p2,
            {
            }
        }
        r
    }

    /// Whether two decimals denote the same number (the numeric `==` of decimals).
    pub fn equals(&self, other: &DecimalValue) -> (r: bool)
        ensures
            r == self.same_number(*other),
    {
        let a = self.normalized();
        let b = other.normalized();
        proof {
            lemma_pow10_positive(a.scale as nat);
            lemma_pow10_positive(b.scale as nat);
            lemma_pow10_positive(self.scale as nat);
            lemma_pow10_positive(other.scale as nat);
            lemma_same_number_transitive(*self, a, b);
            lemma_same_number_transitive(b, *other, *self);
            lemma_same_number_transitive(*self, b, a);
        }
        if a.magnitude == 0 && b.magnitude == 0 {
            proof {
                lemma_zero_same(a, b);
                lemma_same_number_transitive(*self, a, b);
                lemma_same_number_transitive(*self, b, *other);
            }
            return true;
        }
        let r = a.negative == b.negative && a.magnitude == b.magnitude && a.scale == b.scale;
        proof {
            if r {
                lemma_same_number_transitive(*self, a, *other);
            } else {
                if self.same_number(*other) {
                    lemma_same_number_transitive(a, *self, *other);
                    lemma_same_number_transitive(a, *other, b);
                    lemma_normalized_unique(a, b);
                }
            }
        }
        r
    }
}

proof fn lemma_zero_same(a: DecimalValue, b: DecimalValue)
    requires
        a.magnitude == 0,
        b.magnitude == 0,
    ensures
        a.same_number(b),
{
    assert(a.numerator() == 0);
    assert(b.numerator() == 0);
}

/// Denoting the same number is symmetric and transitive.
pub proof fn lemma_same_number_transitive(a: DecimalValue, b: DecimalValue, c: DecimalValue)
    ensures
        a.same_number(b) ==> b.same_number(a),
        a.same_number(b) && b.same_number(c) ==> a.same_number(c),
{
    lemma_pow10_positive(a.scale as nat);
    lemma_pow10_positive(b.scale as nat);
    lemma_pow10_positive(c.scale as nat);
    let na = a.numerator();
    let nb = b.numerator();
    let nc = c.numerator();
    let pa = pow10(a.scale as nat);
    let pb = pow10(b.scale as nat);
    let pc = pow10(c.scale as nat);
    if a.same_number(b) && b.same_number(c) {
        assert(na * pb == nb * pa);
        assert(nb * pc == nc * pb);
        assert(na * pc == nc * pa) by (nonlinear_arith)
            requires
                na * pb == nb * pa,
                nb * pc == nc * pb,
                pb > 0,
        {
            assert((na * pc) * pb == (na * pb) * pc);
            assert((na * pb) * pc == (nb * pa) * pc);
            assert((nb * pa) * pc == (nb * pc) * pa);
            assert((nb * pc) * pa == (nc * pb) * pa);
            assert((nc * pb) * pa == (nc * pa) * pb);
        }
    }
}

proof fn lemma_pow10_split(a: nat, b: nat)
    ensures
        pow10(a + b) == pow10(a) * pow10(b),
    decreases a,
{
    if a > 0 {
        lemma_pow10_split((a - 1) as nat, b);
        assert(pow10(a + b) == 10 * pow10((a - 1 + b) as nat));
        assert(10 * (pow10((a - 1) as nat) * pow10(b)) == (10 * pow10((a - 1) as nat)) * pow10(b)) by (nonlinear_arith);
    }
}

proof fn lemma_normalized_unique(a: DecimalValue, b: DecimalValue)
    requires
        a.same_number(b),
        a.scale == 0 || a.magnitude % 10 != 0,
        b.scale == 0 || b.magnitude % 10 != 0,
        !(a.magnitude == 0 && b.magnitude == 0),
    ensures
        a.negative == b.negative,
        a.magnitude == b.magnitude,
        a.scale == b.scale,
{
    lemma_same_number_transitive(a, b, b);
    if a.scale < b.scale {
        lemma_scale_order(a, b);
    } else if b.scale < a.scale {
        lemma_scale_order(b, a);
    } else {
        let p = pow10(a.scale as nat);
        lemma_pow10_positive(a.scale as nat);
        assert(a.numerator() == b.numerator()) by (nonlinear_arith)
            requires
                a.numerator() * p == b.numerator() * p,
                p > 0,
        {
        }
    }
}

/// Two normalized decimals of different scales denote different numbers.
proof fn lemma_scale_order(a: DecimalValue, b: DecimalValue)
    requires
        a.scale < b.scale,
        b.magnitude % 10 != 0,
        !(a.magnitude == 0 && b.magnitude == 0),
    ensures
        !a.same_number(b),
{
    if a.same_number(b) {
        lemma_scale_order_contradiction(a, b);
    }
}

proof fn lemma_scale_order_contradiction(a: DecimalValue, b: DecimalValue)
    requires
        a.same_number(b),
        a.scale < b.scale,
        b.magnitude % 10 != 0,
        !(a.magnitude == 0 && b.magnitude == 0),
    ensures
        a.magnitude == 0 && b.magnitude == 0,
{
    let d = (b.scale - a.scale) as nat;
    lemma_pow10_split(a.scale as nat, d);
    lemma_pow10_positive(a.scale as nat);
    lemma_pow10_positive(d);
    let pa = pow10(a.scale as nat);
    let pd = pow10(d);
    assert(pow10(b.scale as nat) == pa * pd);
    let na = a.numerator();
    let nb = b.numerator();
    assert(na * (pa * pd) == nb * pa);
    assert(nb == na * pd) by (nonlinear_arith)
        requires
            na * (pa * pd) == nb * pa,
            pa > 0,
    {
        assert(na * (pa * pd) == (na * pd) * pa);
    }
    assert(pd == 10 * pow10((d - 1) as nat));
    let q = na * pow10((d - 1) as nat);
    assert(nb == 10 * q) by (nonlinear_arith)
        requires
            nb == na * pd,
            pd == 10 * pow10((d - 1) as nat),
            q == na * pow10((d - 1) as nat),
    {
    }
    if b.negative {
        assert((b.magnitude as int) == -10 * q);
        assert((b.magnitude as int) % 10 == 0);
    } else {
        assert((b.magnitude as int) == 10 * q);
        assert((b.magnitude as int) % 10 == 0);
    }
}

} // verus!
