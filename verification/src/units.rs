use vstd::prelude::*;

verus! {

/// Unit of the numeric command parameters (pt = in/72).
#[derive(Copy, Clone, Debug, PartialEq, Eq, Structural)]
pub enum Unit {
    Mm,
    Cm,
    In,
    Pt,
}

/// Internal lengths count in subpoints: 1 point = 127,000 subpoints.
/// The factor is chosen so that every unit converts exactly:
/// 1 in = 72 pt and 1 in = 25.4 mm, hence 1 mm = 360/127 pt = 360,000 subpoints.
pub const SUBPOINTS_PER_POINT: i64 = 127_000;

/// Upper bound on a user-supplied length: 1,000,000 units, held in
/// thousandths of the unit.
pub const MILLI_MAX: u64 = 1_000_000_000;

/// Largest length in subpoints that a valid argument can resolve to:
/// `MILLI_MAX` thousandths of an inch.
pub const EXT_MAX: i64 = 9_144_000_000_000;

/// Subpoints in one thousandth of the given unit.
pub open spec fn subpoints_per_milli(u: Unit) -> int {
    match u {
        Unit::Mm => 360,
        Unit::Cm => 3600,
        Unit::In => 9144,
        Unit::Pt => 127,
    }
}

/// Converts a length given in thousandths of `unit` to subpoints.
pub fn to_subpoints(milli: u64, unit: Unit) -> (r: i64)
    requires
        milli <= MILLI_MAX,
    ensures
        r == milli * subpoints_per_milli(unit),
        0 <= r <= EXT_MAX,
{
    match unit {
        Unit::Mm => (milli * 360) as i64,
        Unit::Cm => (milli * 3600) as i64,
        Unit::In => (milli * 9144) as i64,
        Unit::Pt => (milli * 127) as i64,
    }
}

} // verus!
