use vstd::prelude::*;

verus! {

/// The largest magnitude, in ten-thousandths, that a balance may hold: the
/// 96-bit mantissa bound of a decimal with four fractional digits.
pub const MAX_UNITS: i128 = 79228162514264337593543950335;

/// An exact amount of money, counted in ten-thousandths (four fractional
/// digits), so repeated additions and subtractions never drift.
#[derive(Clone, Copy, Debug, PartialEq, Eq, Structural)]
pub struct Amount {
    pub units: i128,
}

/// The text that `rust_decimal` renders for `units` ten-thousandths with
/// exactly four fractional digits.
pub uninterp spec fn four_place_text(units: int) -> Seq<char>;

/// Relies on `rust_decimal::Decimal::from_i128_with_scale` (exact for a
/// mantissa within 96 bits) and its `Display` with precision 4.
#[verifier::external_body]
fn decimal_text(units: i128) -> (r: String)
    requires
        -MAX_UNITS <= units <= MAX_UNITS,
    ensures
        r@ == four_place_text(units as int),
{
    format!("{:.4}", rust_decimal::Decimal::from_i128_with_scale(units, 4))
}

impl Amount {
    /// The amount as a mathematical integer of ten-thousandths.
    pub open spec fn value(self) -> int {
        self.units as int
    }

    /// Whether the amount fits the decimal range.
    pub open spec fn representable(self) -> bool {
        -MAX_UNITS <= self.units <= MAX_UNITS
    }

    pub fn zero() -> (r: Amount)
        ensures
            r.value() == 0,
    {
        Amount { units: 0 }
    }

    pub fn from_units(units: i128) -> (r: Amount)
        ensures
            r.value() == units,
    {
        Amount { units }
    }

    /// The amount rendered with exactly four fractional digits.
    pub fn to_text(&self) -> (r: String)
        requires
            self.representable(),
        ensures
            r@ == four_place_text(self.value()),
    {
        decimal_text(self.units)
    }
}

} // verus!
