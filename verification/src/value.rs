//! The neutral column-value model shared by every provider: a closed set of
//! variants that can carry any column value independently of where it came
//! from or where it is going.
use vstd::prelude::*;

verus! {

/// A double-precision column value, carried as its classification plus, for
/// finite values, the default decimal rendering produced at extraction time.
/// Keeping the rendered digits rather than the machine float lets the
/// renderers stay exact about the text they emit.
#[derive(Debug, Clone, PartialEq)]
pub enum FloatLit {
    /// A finite value, as its default decimal rendering.
    Finite(String),
    /// A not-a-number value.
    NaN,
    /// Positive infinity.
    Infinity,
    /// Negative infinity.
    NegInfinity,
}

/// A column value, independent of any provider.
///
/// Exactly one case is active. `Decimal` is an opaque numeric string passed
/// through verbatim, never reparsed, so no precision is lost. Whether a byte
/// sequence landed in `Text` or `Bytes` is decided at extraction time by a
/// UTF-8-validity plus printable-ratio heuristic, not by the declared column
/// type.
#[derive(Debug, Clone, PartialEq)]
pub enum SqlValue {
    Null,
    Bool(bool),
    Int(i64),
    Float(FloatLit),
    Decimal(String),
    Text(String),
    Bytes(Vec<u8>),
    Date { y: i32, m: u32, d: u32 },
    Time { neg: bool, h: u32, m: u32, s: u32, us: u32 },
    Timestamp { y: i32, m: u32, d: u32, hh: u32, mm: u32, ss: u32, us: u32 },
}

impl SqlValue {
    /// Timestamp value from broken-down date and time-of-day fields; the
    /// microsecond field carries the sub-second fraction.
    pub fn from_datetime(y: i32, m: u32, d: u32, hh: u32, mm: u32, ss: u32, us: u32) -> (r:
        SqlValue)
        ensures
            r == (SqlValue::Timestamp { y, m, d, hh, mm, ss, us }),
    {
        SqlValue::Timestamp { y, m, d, hh, mm, ss, us }
    }

    /// Date value from broken-down fields.
    pub fn from_date(y: i32, m: u32, d: u32) -> (r: SqlValue)
        ensures
            r == (SqlValue::Date { y, m, d }),
    {
        SqlValue::Date { y, m, d }
    }

    /// Non-negative time-of-day value from broken-down fields.
    pub fn from_time(h: u32, m: u32, s: u32, us: u32) -> (r: SqlValue)
        ensures
            r == (SqlValue::Time { neg: false, h, m, s, us }),
    {
        SqlValue::Time { neg: false, h, m, s, us }
    }
}

impl From<Option<bool>> for SqlValue {
    /// A present boolean becomes `Bool`; an absent one becomes `Null`.
    fn from(value: Option<bool>) -> (r: SqlValue) {
        match value {
            Some(v) => SqlValue::Bool(v),
            None => SqlValue::Null,
        }
    }
}

impl vstd::std_specs::convert::FromSpecImpl<Option<bool>> for SqlValue {
    open spec fn obeys_from_spec() -> bool {
        true
    }

    open spec fn from_spec(value: Option<bool>) -> SqlValue {
        match value {
            Some(v) => SqlValue::Bool(v),
            None => SqlValue::Null,
        }
    }
}

} // verus!
