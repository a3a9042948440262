//! The records of DipTrace placement files.
use vstd::prelude::*;
use crate::eda::placement::{EdaPlacement, EdaPlacementField};
use crate::planning::pcb::PcbSide;
use crate::pnp::decimal::{DecimalValue, pow10, lemma_pow10_positive};

verus! {

/// The error of building a placement from a DipTrace record; no record produces it.
#[derive(Debug, Clone, Copy, PartialEq, Eq, Structural)]
pub enum DiptracePlacementRecordError {
    Unknown,
}

/// The side of a DipTrace placement.
#[derive(Debug, Clone, Copy, PartialEq, Eq, Structural)]
pub enum DipTracePcbSide {
    Top,
    Bottom,
}

/// A record of a DipTrace placement file. Its rotation is anti-clockwise, from 0
/// up to 360.
#[derive(Debug, Clone, PartialEq, Eq)]
pub struct DiptracePlacementRecord {
    pub ref_des: String,
    pub name: String,
    pub value: String,
    pub side: DipTracePcbSide,
    pub x: DecimalValue,
    pub y: DecimalValue,
    pub rotation: DecimalValue,
}

/// The largest magnitude of the decimals of placement files (96 bits).
pub open spec fn decimal_magnitude_limit() -> int {
    0x1_0000_0000_0000_0000_0000_0000
}

/// A rotation brought into the range above -180 up to 180, as a numerator over
/// `10^scale`: the remainder modulo 360, less 360 where it exceeds 180.
pub open spec fn converted_rotation(numerator: int, scale: nat) -> int {
    let full = 360 * pow10(scale);
    let r = numerator % full;
    if r > 180 * pow10(scale) {
        r - full
    } else {
        r
    }
}

/// A converted rotation lies above -180 and up to 180, differs from the input by
/// whole turns of 360, and converting it again leaves it as it is.
pub proof fn lemma_converted_rotation(numerator: int, scale: nat)
    ensures
        -180 * pow10(scale) < converted_rotation(numerator, scale) <= 180 * pow10(scale),
        (numerator - converted_rotation(numerator, scale)) % (360 * pow10(scale)) == 0,
        converted_rotation(converted_rotation(numerator, scale), scale) == converted_rotation(numerator, scale),
{
    lemma_pow10_positive(scale);
    let p = pow10(scale);
    let full = 360 * p;
    let r0 = numerator % full;
    let r = converted_rotation(numerator, scale);
    vstd::arithmetic::div_mod::lemma_mod_bound(numerator, full);
    vstd::arithmetic::div_mod::lemma_fundamental_div_mod(numerator, full);
    let q = numerator / full;
    if r0 > 180 * p {
        assert(numerator - r == (q + 1) * full) by (nonlinear_arith)
            requires numerator == full * q + r0, r == r0 - full;
        vstd::arithmetic::div_mod::lemma_fundamental_div_mod_converse(numerator - r, full, q + 1, 0);
        vstd::arithmetic::div_mod::lemma_fundamental_div_mod_converse(r, full, -1, r + full);
    } else {
        assert(numerator - r == q * full) by (nonlinear_arith)
            requires numerator == full * q + r0, r == r0;
        vstd::arithmetic::div_mod::lemma_fundamental_div_mod_converse(numerator - r, full, q, 0);
        vstd::arithmetic::div_mod::lemma_fundamental_div_mod_converse(r, full, 0, r);
    }
}

/// 360 at the given scale fits in the magnitude of a decimal, so that turning a
/// rotation of that scale by whole turns is exact.
pub open spec fn turn_fits(scale: u32) -> bool {
    360 * pow10(scale as nat) < decimal_magnitude_limit()
}

/// One whole turn, 360 degrees.
pub open spec fn whole_turn() -> DecimalValue {
    DecimalValue { negative: false, magnitude: 360, scale: 0 }
}

/// What `rust_decimal` gives for the sum of two decimals, in plain form.
pub uninterp spec fn decimal_sum(a: DecimalValue, b: DecimalValue) -> DecimalValue;

/// `r` lies within one unit of its last place of the exact sum of `a` and `b`:
/// `|r - (a + b)| < 10^-r.scale`, multiplied out over the scales.
pub open spec fn within_last_place(a: DecimalValue, b: DecimalValue, r: DecimalValue) -> bool {
    let d = pow10(a.scale as nat) * pow10(b.scale as nat);
    let e = (a.numerator() * pow10(b.scale as nat) + b.numerator() * pow10(a.scale as nat)) * pow10(r.scale as nat);
    -d < r.numerator() * d - e < d
}

/// Adds two decimals with `rust_decimal` (`Decimal + Decimal`). Claimed of it: the
/// sum is a decimal (a magnitude below 2^96, a scale up to 28) that lies within
/// one unit of its last place of the exact sum, since `rust_decimal` keeps the
/// exact sum where it fits and otherwise rounds it, to nearest, at a smaller
/// scale. It panics only where the sum's whole part cannot be held; `requires`
/// keeps the inputs' whole parts together below 2^95. Which rounded value comes
/// back is not stated: it is named `decimal_sum`.
#[verifier::external_body]
fn add_decimals(a: DecimalValue, b: DecimalValue) -> (r: DecimalValue)
    requires
        a.scale <= 28,
        b.scale <= 28,
        a.magnitude < decimal_magnitude_limit(),
        b.magnitude < decimal_magnitude_limit(),
        a.magnitude * pow10(b.scale as nat) + b.magnitude * pow10(a.scale as nat)
            < 0x8000_0000_0000_0000_0000_0000 * (pow10(a.scale as nat) * pow10(b.scale as nat)),
    ensures
        r == decimal_sum(a, b),
        r.scale <= 28,
        r.magnitude < decimal_magnitude_limit(),
        within_last_place(a, b, r),
{
    let mut x = rust_decimal::Decimal::from_i128_with_scale(a.magnitude as i128, a.scale);
    x.set_sign_negative(a.negative);
    let mut y = rust_decimal::Decimal::from_i128_with_scale(b.magnitude as i128, b.scale);
    y.set_sign_negative(b.negative);
    let sum = x + y;
    DecimalValue { negative: sum.is_sign_negative(), magnitude: sum.mantissa().unsigned_abs(), scale: sum.scale() }
}

/// The rotation `r` that converting `input` gives. Where 360 fits at the input's
/// scale, every step is exact: the rotation is brought into range by whole turns
/// at its own scale. Otherwise (scales 27 and 28, below 80 in size) a rotation at
/// or above 0 stays as it is, and a negative one is first turned once with
/// `rust_decimal`, whose sum is then brought into range.
pub open spec fn rotation_converted(input: DecimalValue, r: DecimalValue) -> bool {
    if input.numerator() < 0 && !turn_fits(input.scale) {
        let s = decimal_sum(input, whole_turn());
        r.scale == s.scale && r.numerator() == converted_rotation(s.numerator(), s.scale as nat)
    } else {
        r.scale == input.scale && r.numerator() == converted_rotation(input.numerator(), input.scale as nat)
    }
}

/// The measure of a conversion: a negative rotation whose scale leaves no room
/// for 360 is turned once before it is brought into range.
pub open spec fn turns_first(input: DecimalValue) -> int {
    if input.numerator() < 0 && !turn_fits(input.scale) {
        1
    } else {
        0
    }
}

/// Converts DipTrace rotations to the range above -180 up to 180.
pub struct DipTraceRotationConverter {}

impl DipTraceRotationConverter {
    /// The rotation in the range above -180 up to 180: by whole turns of 360 at
    /// the same scale where 360 fits at that scale (see `rotation_converted`).
    pub fn convert(input: DecimalValue) -> (r: DecimalValue)
        requires
            input.scale <= 28,
            input.magnitude < decimal_magnitude_limit(),
        ensures
            rotation_converted(input, r),
            -180 * pow10(r.scale as nat) < r.numerator() <= 180 * pow10(r.scale as nat),
            turn_fits(input.scale) ==> (input.numerator() - r.numerator()) % (360 * pow10(input.scale as nat)) == 0,
            r.scale <= 28,
            r.magnitude < decimal_magnitude_limit(),
        decreases turns_first(input),
    {
        proof {
            lemma_pow10_28();
            lemma_turn_fits_scale(input.scale);
        }
        if input.negative && input.magnitude > 0 && input.scale > 26 {
            let sum = add_decimals(input, DecimalValue::new(false, 360, 0));
            proof {
                lemma_turned_rotation(input, sum);
            }
            let r = Self::convert(sum);
            return r;
        }
        let mut p: u128 = 1;
        let mut k: u32 = 0;
        while k < input.scale
            invariant
                k <= input.scale <= 28,
                p == pow10(k as nat),
                p <= pow10(28),
                pow10(28) == 10000000000000000000000000000,
            decreases input.scale - k,
        {
            proof {
                lemma_pow10_monotone(k as nat + 1, 28);
            }
            p = p * 10;
            k = k + 1;
        }
        proof {
            lemma_pow10_positive(input.scale as nat);
            lemma_converted_rotation(input.numerator(), input.scale as nat);
        }
        let full: u128 = 360 * p;
        let half: u128 = 180 * p;
        let m: u128 = input.magnitude % full;
        let r: u128 = if input.negative && m > 0 { full - m } else { m };
        proof {
            let n = input.numerator();
            let f = full as int;
            let q = (input.magnitude as int) / f;
            vstd::arithmetic::div_mod::lemma_fundamental_div_mod(input.magnitude as int, f);
            if input.negative && m > 0 {
                assert(n == (-q - 1) * f + (f - m)) by (nonlinear_arith)
                    requires n == -(input.magnitude as int), input.magnitude as int == f * q + m;
                vstd::arithmetic::div_mod::lemma_fundamental_div_mod_converse(n, f, -q - 1, f - m);
            } else if input.negative {
                assert(n == (-q) * f + 0) by (nonlinear_arith)
                    requires n == -(input.magnitude as int), input.magnitude as int == f * q + m, m == 0;
                vstd::arithmetic::div_mod::lemma_fundamental_div_mod_converse(n, f, -q, 0);
            }
            if !turn_fits(input.scale) {
                assert(input.magnitude < full);
                vstd::arithmetic::div_mod::lemma_small_mod(input.magnitude as nat, full as nat);
                assert(m == input.magnitude);
                assert(r == input.magnitude);
            }
        }
        if r > half {
            DecimalValue::new(true, full - r, input.scale)
        } else {
            DecimalValue::new(false, r, input.scale)
        }
    }
}

/// 360 fits at the scales up to 26, and not at 27 or 28; at those two scales a
/// decimal is below 80 in size.
proof fn lemma_turn_fits_scale(scale: u32)
    requires
        scale <= 28,
    ensures
        turn_fits(scale) == (scale <= 26),
        scale > 26 ==> decimal_magnitude_limit() <= 80 * pow10(scale as nat),
{
    reveal_with_fuel(pow10, 29);
    if scale <= 26 {
        lemma_pow10_monotone(scale as nat, 26);
    } else {
        lemma_pow10_monotone(27, scale as nat);
    }
}

/// A negative rotation of scale 27 or 28, turned once with `rust_decimal`, lies
/// between 280 and 360, at a scale at which 360 fits.
proof fn lemma_turned_rotation(input: DecimalValue, sum: DecimalValue)
    requires
        input.scale <= 28,
        input.scale > 26,
        input.negative,
        input.magnitude > 0,
        input.magnitude < decimal_magnitude_limit(),
        sum.scale <= 28,
        sum.magnitude < decimal_magnitude_limit(),
        within_last_place(input, whole_turn(), sum),
    ensures
        0 < sum.numerator(),
        turn_fits(sum.scale),
        turns_first(sum) == 0,
{
    lemma_turn_fits_scale(input.scale);
    reveal_with_fuel(pow10, 29);
    let p = pow10(input.scale as nat);
    let q = pow10(sum.scale as nat);
    lemma_pow10_positive(input.scale as nat);
    lemma_pow10_positive(sum.scale as nat);
    let a = input.numerator();
    let n = sum.numerator();
    assert(pow10(0) == 1);
    assert(p * pow10(0) == p);
    assert(a * pow10(0) == a);
    assert(360 * p == whole_turn().numerator() * p);
    let e = (a + 360 * p) * q;
    assert(-p < n * p - e < p);
    assert(a > -80 * p);
    assert(e > 280 * p * q) by (nonlinear_arith)
        requires e == (a + 360 * p) * q, a > -80 * p, q > 0;
    assert(n * p > (280 * q - 1) * p) by (nonlinear_arith)
        requires n * p > e - p, e > 280 * p * q;
    assert(n > 280 * q - 1) by (nonlinear_arith)
        requires n * p > (280 * q - 1) * p, p > 0;
    assert(sum.magnitude as int == n);
    if sum.scale > 26 {
        lemma_pow10_monotone(27, sum.scale as nat);
        assert(false);
    }
    lemma_turn_fits_scale(sum.scale);
}

proof fn lemma_pow10_28()
    ensures
        pow10(28) == 10000000000000000000000000000,
{
    reveal_with_fuel(pow10, 29);
}

proof fn lemma_pow10_monotone(a: nat, b: nat)
    requires
        a <= b,
    ensures
        pow10(a) <= pow10(b),
    decreases b - a,
{
    if a < b {
        lemma_pow10_monotone(a, (b - 1) as nat);
        lemma_pow10_positive((b - 1) as nat);
    }
}

/// The placement of a record: to be placed, with its `name` and `value` fields, its
/// side and position, and its rotation converted.
pub open spec fn placement_of_record(record: DiptracePlacementRecord, p: EdaPlacement) -> bool {
    &&& p.ref_des@ == record.ref_des@
    &&& p.place
    &&& p.fields@.len() == 2
    &&& p.fields@[0].name@ == "name"@ && p.fields@[0].value@ == record.name@
    &&& p.fields@[1].name@ == "value"@ && p.fields@[1].value@ == record.value@
    &&& p.pcb_side == match record.side {
        DipTracePcbSide::Top => PcbSide::Top,
        DipTracePcbSide::Bottom => PcbSide::Bottom,
    }
    &&& p.x == record.x && p.y == record.y
    &&& rotation_converted(record.rotation, p.rotation)
}

impl DiptracePlacementRecord {
    /// The placement of the record, to be placed, with its `name` and `value`
    /// fields, its position, and its rotation converted.
    pub fn build_eda_placement(&self) -> (r: Result<EdaPlacement, DiptracePlacementRecordError>)
        requires
            self.rotation.scale <= 28,
            self.rotation.magnitude < decimal_magnitude_limit(),
        ensures
            r matches Ok(p) && placement_of_record(*self, p),
    {
        let mut fields: Vec<EdaPlacementField> = Vec::new();
        fields.push(EdaPlacementField::new("name".to_owned(), self.name.clone()));
        fields.push(EdaPlacementField::new("value".to_owned(), self.value.clone()));
        Ok(EdaPlacement {
            ref_des: self.ref_des.clone(),
            place: true,
            fields,
            pcb_side: match self.side {
                DipTracePcbSide::Top => PcbSide::Top,
                DipTracePcbSide::Bottom => PcbSide::Bottom,
            },
            x: self.x,
            y: self.y,
            rotation: DipTraceRotationConverter::convert(self.rotation),
        })
    }
}

} // verus!
