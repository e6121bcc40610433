//! Cell values and their wire types.
//!
//! A cell is a tagged value: one variant per supported wire type, plus
//! a typed NULL. Floating-point cells carry their IEEE bit pattern, so
//! the engine itself never computes on floats; fixed-point cells carry
//! a scaled integer mantissa, so no precision is lost through a float
//! detour. Character data is carried as raw code units (single-byte or
//! double-byte); the caller owns the character-set interpretation.

use vstd::prelude::*;

verus! {

/// Largest mantissa magnitude of a fixed-point `Decimal` cell
/// (38 nines: the widest decimal the wire format carries).
pub const MAX_DECIMAL_MAGNITUDE: i128 = 99999999999999999999999999999999999999;

/// Largest scale of a fixed-point `Decimal` cell.
pub const MAX_DECIMAL_SCALE: u8 = 38;

/// Largest day number of a `Date` cell: days since the year-1 epoch,
/// up to the last supported calendar day.
pub const MAX_DATE_DAYS: u32 = 3652058;

/// Number of 100-nanosecond units in one day; a `Time` cell is below it.
pub const TIME_UNITS_PER_DAY: u64 = 864000000000;

/// Number of 1/300-second units in one day; the time-of-day field of a
/// `DateTime` cell is below it.
pub const DATETIME_UNITS_PER_DAY: u32 = 25920000;

/// Longest single-byte character payload, in bytes. The length prefix
/// reserves `0xFFFF` as the NULL sentinel.
pub const MAX_VARCHAR_BYTES: usize = 65534;

/// Longest double-byte character payload, in 16-bit units, so that the
/// byte length stays below the NULL sentinel.
pub const MAX_NVARCHAR_UNITS: usize = 32767;

/// The declared type of a column or parameter on the wire.
#[derive(Clone, Copy, Debug, PartialEq, Eq, Structural)]
pub enum WireType {
    /// Unsigned 1-byte integer.
    TinyInt,
    /// Signed 2-byte integer.
    SmallInt,
    /// Signed 4-byte integer.
    Int,
    /// Signed 8-byte integer.
    BigInt,
    /// 32-bit IEEE floating point, carried as its bit pattern.
    Real,
    /// 64-bit IEEE floating point, carried as its bit pattern.
    Float,
    /// Fixed-point currency: a signed 8-byte count of 1/10000 units.
    Money,
    /// Fixed-point decimal with the given scale (digits after the
    /// point); the mantissa is a scaled integer.
    Decimal { scale: u8 },
    /// Date only: days since the year-1 epoch.
    Date,
    /// Time of day only: 100-nanosecond units since midnight.
    Time,
    /// Combined date and time: days since the 1900 epoch and
    /// 1/300-second units since midnight.
    DateTime,
    /// Fixed-length 16-byte unique identifier.
    Guid,
    /// Length-prefixed single-byte character data.
    VarChar,
    /// Length-prefixed double-byte character data.
    NVarChar,
}

/// A typed cell value as carried in rows and parameters.
#[derive(Clone, Debug, PartialEq, Eq)]
pub enum Value {
    /// The typed NULL of the given wire type. Distinct from every
    /// non-null value, including zero-length strings and zeroes.
    Null(WireType),
    TinyInt(u8),
    SmallInt(i16),
    Int(i32),
    BigInt(i64),
    /// IEEE bit pattern of a 32-bit float.
    Real(u32),
    /// IEEE bit pattern of a 64-bit float.
    Float(u64),
    /// Count of 1/10000 currency units.
    Money(i64),
    /// `mantissa * 10^-scale`.
    Decimal { scale: u8, mantissa: i128 },
    /// Days since the year-1 epoch.
    Date(u32),
    /// 100-nanosecond units since midnight.
    Time(u64),
    /// Days since the 1900 epoch (negative for earlier dates) and
    /// 1/300-second units since midnight.
    DateTime { days: i32, ticks: u32 },
    Guid([u8; 16]),
    VarChar(Vec<u8>),
    NVarChar(Vec<u16>),
}

/// The mathematical model of a cell value: the same shape as [`Value`]
/// with sequences in place of vectors.
pub enum ValModel {
    Null(WireType),
    TinyInt(u8),
    SmallInt(i16),
    Int(i32),
    BigInt(i64),
    Real(u32),
    Float(u64),
    Money(i64),
    Decimal { scale: u8, mantissa: i128 },
    Date(u32),
    Time(u64),
    DateTime { days: i32, ticks: u32 },
    Guid(Seq<u8>),
    VarChar(Seq<u8>),
    NVarChar(Seq<u16>),
}

impl View for Value {
    type V = ValModel;

    open spec fn view(&self) -> ValModel {
        match self {
            Value::Null(t) => ValModel::Null(*t),
            Value::TinyInt(x) => ValModel::TinyInt(*x),
            Value::SmallInt(x) => ValModel::SmallInt(*x),
            Value::Int(x) => ValModel::Int(*x),
            Value::BigInt(x) => ValModel::BigInt(*x),
            Value::Real(x) => ValModel::Real(*x),
            Value::Float(x) => ValModel::Float(*x),
            Value::Money(x) => ValModel::Money(*x),
            Value::Decimal { scale, mantissa } => ValModel::Decimal {
                scale: *scale,
                mantissa: *mantissa,
            },
            Value::Date(x) => ValModel::Date(*x),
            Value::Time(x) => ValModel::Time(*x),
            Value::DateTime { days, ticks } => ValModel::DateTime {
                days: *days,
                ticks: *ticks,
            },
            Value::Guid(b) => ValModel::Guid(b@),
            Value::VarChar(b) => ValModel::VarChar(b@),
            Value::NVarChar(u) => ValModel::NVarChar(u@),
        }
    }
}

/// Whether a declared wire type is itself well formed.
pub open spec fn wire_type_valid(t: WireType) -> bool {
    match t {
        WireType::Decimal { scale } => scale <= MAX_DECIMAL_SCALE,
        _ => true,
    }
}

impl ValModel {
    /// The wire type this value is an instance of.
    pub open spec fn wire_type(self) -> WireType {
        match self {
            ValModel::Null(t) => t,
            ValModel::TinyInt(_) => WireType::TinyInt,
            ValModel::SmallInt(_) => WireType::SmallInt,
            ValModel::Int(_) => WireType::Int,
            ValModel::BigInt(_) => WireType::BigInt,
            ValModel::Real(_) => WireType::Real,
            ValModel::Float(_) => WireType::Float,
            ValModel::Money(_) => WireType::Money,
            ValModel::Decimal { scale, .. } => WireType::Decimal { scale },
            ValModel::Date(_) => WireType::Date,
            ValModel::Time(_) => WireType::Time,
            ValModel::DateTime { .. } => WireType::DateTime,
            ValModel::Guid(_) => WireType::Guid,
            ValModel::VarChar(_) => WireType::VarChar,
            ValModel::NVarChar(_) => WireType::NVarChar,
        }
    }

    /// Whether the value is within the ranges its wire type can carry.
    /// Encoding rejects anything outside these bounds rather than
    /// truncating it.
    pub open spec fn valid(self) -> bool {
        match self {
            ValModel::Null(t) => wire_type_valid(t),
            ValModel::Decimal { scale, mantissa } => {
                &&& scale <= MAX_DECIMAL_SCALE
                &&& -(MAX_DECIMAL_MAGNITUDE as int) <= mantissa as int
                    <= MAX_DECIMAL_MAGNITUDE as int
            },
            ValModel::Date(d) => d <= MAX_DATE_DAYS,
            ValModel::Time(t) => t < TIME_UNITS_PER_DAY,
            ValModel::DateTime { days: _, ticks } => ticks < DATETIME_UNITS_PER_DAY,
            ValModel::Guid(b) => b.len() == 16,
            ValModel::VarChar(b) => b.len() <= MAX_VARCHAR_BYTES,
            ValModel::NVarChar(u) => u.len() <= MAX_NVARCHAR_UNITS,
            _ => true,
        }
    }

    /// Whether the value is the typed NULL.
    pub open spec fn is_null(self) -> bool {
        self is Null
    }
}

/// Why a typed read of a cell failed.
#[derive(Clone, Copy, Debug, PartialEq, Eq, Structural)]
pub enum AccessError {
    /// The cell is NULL; the caller chooses a default or propagates.
    Null,
    /// The cell holds a value of another wire type.
    TypeMismatch,
    /// The requested column index is beyond the row's width.
    AbsentColumn,
}

impl Value {
    /// The wire type this value is an instance of.
    pub fn wire_type(&self) -> (t: WireType)
        ensures
            t == self@.wire_type(),
    {
        match self {
            Value::Null(t) => *t,
            Value::TinyInt(_) => WireType::TinyInt,
            Value::SmallInt(_) => WireType::SmallInt,
            Value::Int(_) => WireType::Int,
            Value::BigInt(_) => WireType::BigInt,
            Value::Real(_) => WireType::Real,
            Value::Float(_) => WireType::Float,
            Value::Money(_) => WireType::Money,
            Value::Decimal { scale, .. } => WireType::Decimal { scale: *scale },
            Value::Date(_) => WireType::Date,
            Value::Time(_) => WireType::Time,
            Value::DateTime { .. } => WireType::DateTime,
            Value::Guid(_) => WireType::Guid,
            Value::VarChar(_) => WireType::VarChar,
            Value::NVarChar(_) => WireType::NVarChar,
        }
    }

    /// Whether the value is within the ranges its wire type can carry.
    pub fn is_valid(&self) -> (r: bool)
        ensures
            r == self@.valid(),
    {
        match self {
            Value::Null(t) => match t {
                WireType::Decimal { scale } => *scale <= MAX_DECIMAL_SCALE,
                _ => true,
            },
            Value::Decimal { scale, mantissa } => *scale <= MAX_DECIMAL_SCALE
                && -MAX_DECIMAL_MAGNITUDE <= *mantissa && *mantissa <= MAX_DECIMAL_MAGNITUDE,
            Value::Date(d) => *d <= MAX_DATE_DAYS,
            Value::Time(t) => *t < TIME_UNITS_PER_DAY,
            Value::DateTime { days: _, ticks } => *ticks < DATETIME_UNITS_PER_DAY,
            Value::VarChar(b) => b.len() <= MAX_VARCHAR_BYTES,
            Value::NVarChar(u) => u.len() <= MAX_NVARCHAR_UNITS,
            _ => true,
        }
    }

    /// Whether the cell is the typed NULL.
    pub fn is_null(&self) -> (r: bool)
        ensures
            r == self@.is_null(),
    {
        matches!(self, Value::Null(_))
    }

    /// The cell as an unsigned 1-byte integer.
    pub fn as_tiny_int(&self) -> (r: Result<u8, AccessError>)
        ensures
            match r {
                Ok(x) => self@ == ValModel::TinyInt(x),
                Err(e) => !(self@ is TinyInt) && e == (if self@.is_null() {
                    AccessError::Null
                } else {
                    AccessError::TypeMismatch
                }),
            },
    {
        match self {
            Value::TinyInt(x) => Ok(*x),
            Value::Null(_) => Err(AccessError::Null),
            _ => Err(AccessError::TypeMismatch),
        }
    }

    /// The cell as a signed 2-byte integer.
    pub fn as_small_int(&self) -> (r: Result<i16, AccessError>)
        ensures
            match r {
                Ok(x) => self@ == ValModel::SmallInt(x),
                Err(e) => !(self@ is SmallInt) && e == (if self@.is_null() {
                    AccessError::Null
                } else {
                    AccessError::TypeMismatch
                }),
            },
    {
        match self {
            Value::SmallInt(x) => Ok(*x),
            Value::Null(_) => Err(AccessError::Null),
            _ => Err(AccessError::TypeMismatch),
        }
    }

    /// The cell as a signed 4-byte integer.
    pub fn as_int(&self) -> (r: Result<i32, AccessError>)
        ensures
            match r {
                Ok(x) => self@ == ValModel::Int(x),
                Err(e) => !(self@ is Int) && e == (if self@.is_null() {
                    AccessError::Null
                } else {
                    AccessError::TypeMismatch
                }),
            },
    {
        match self {
            Value::Int(x) => Ok(*x),
            Value::Null(_) => Err(AccessError::Null),
            _ => Err(AccessError::TypeMismatch),
        }
    }

    /// The cell as a signed 8-byte integer.
    pub fn as_big_int(&self) -> (r: Result<i64, AccessError>)
        ensures
            match r {
                Ok(x) => self@ == ValModel::BigInt(x),
                Err(e) => !(self@ is BigInt) && e == (if self@.is_null() {
                    AccessError::Null
                } else {
                    AccessError::TypeMismatch
                }),
            },
    {
        match self {
            Value::BigInt(x) => Ok(*x),
            Value::Null(_) => Err(AccessError::Null),
            _ => Err(AccessError::TypeMismatch),
        }
    }

    /// The cell as the bit pattern of a 32-bit float.
    pub fn as_real_bits(&self) -> (r: Result<u32, AccessError>)
        ensures
            match r {
                Ok(x) => self@ == ValModel::Real(x),
                Err(e) => !(self@ is Real) && e == (if self@.is_null() {
                    AccessError::Null
                } else {
                    AccessError::TypeMismatch
                }),
            },
    {
        match self {
            Value::Real(x) => Ok(*x),
            Value::Null(_) => Err(AccessError::Null),
            _ => Err(AccessError::TypeMismatch),
        }
    }

    /// The cell as the bit pattern of a 64-bit float.
    pub fn as_float_bits(&self) -> (r: Result<u64, AccessError>)
        ensures
            match r {
                Ok(x) => self@ == ValModel::Float(x),
                Err(e) => !(self@ is Float) && e == (if self@.is_null() {
                    AccessError::Null
                } else {
                    AccessError::TypeMismatch
                }),
            },
    {
        match self {
            Value::Float(x) => Ok(*x),
            Value::Null(_) => Err(AccessError::Null),
            _ => Err(AccessError::TypeMismatch),
        }
    }

    /// The cell as a count of 1/10000 currency units.
    pub fn as_money(&self) -> (r: Result<i64, AccessError>)
        ensures
            match r {
                Ok(x) => self@ == ValModel::Money(x),
                Err(e) => !(self@ is Money) && e == (if self@.is_null() {
                    AccessError::Null
                } else {
                    AccessError::TypeMismatch
                }),
            },
    {
        match self {
            Value::Money(x) => Ok(*x),
            Value::Null(_) => Err(AccessError::Null),
            _ => Err(AccessError::TypeMismatch),
        }
    }

    /// The cell as a fixed-point decimal: `(mantissa, scale)`.
    pub fn as_decimal(&self) -> (r: Result<(i128, u8), AccessError>)
        ensures
            match r {
                Ok(p) => self@ == (ValModel::Decimal { scale: p.1, mantissa: p.0 }),
                Err(e) => !(self@ is Decimal) && e == (if self@.is_null() {
                    AccessError::Null
                } else {
                    AccessError::TypeMismatch
                }),
            },
    {
        match self {
            Value::Decimal { scale, mantissa } => Ok((*mantissa, *scale)),
            Value::Null(_) => Err(AccessError::Null),
            _ => Err(AccessError::TypeMismatch),
        }
    }

    /// The cell as days since the year-1 epoch.
    pub fn as_date(&self) -> (r: Result<u32, AccessError>)
        ensures
            match r {
                Ok(x) => self@ == ValModel::Date(x),
                Err(e) => !(self@ is Date) && e == (if self@.is_null() {
                    AccessError::Null
                } else {
                    AccessError::TypeMismatch
                }),
            },
    {
        match self {
            Value::Date(x) => Ok(*x),
            Value::Null(_) => Err(AccessError::Null),
            _ => Err(AccessError::TypeMismatch),
        }
    }

    /// The cell as 100-nanosecond units since midnight.
    pub fn as_time(&self) -> (r: Result<u64, AccessError>)
        ensures
            match r {
                Ok(x) => self@ == ValModel::Time(x),
                Err(e) => !(self@ is Time) && e == (if self@.is_null() {
                    AccessError::Null
                } else {
                    AccessError::TypeMismatch
                }),
            },
    {
        match self {
            Value::Time(x) => Ok(*x),
            Value::Null(_) => Err(AccessError::Null),
            _ => Err(AccessError::TypeMismatch),
        }
    }

    /// The cell as a combined date and time: `(days, ticks)`.
    pub fn as_date_time(&self) -> (r: Result<(i32, u32), AccessError>)
        ensures
            match r {
                Ok(p) => self@ == (ValModel::DateTime { days: p.0, ticks: p.1 }),
                Err(e) => !(self@ is DateTime) && e == (if self@.is_null() {
                    AccessError::Null
                } else {
                    AccessError::TypeMismatch
                }),
            },
    {
        match self {
            Value::DateTime { days, ticks } => Ok((*days, *ticks)),
            Value::Null(_) => Err(AccessError::Null),
            _ => Err(AccessError::TypeMismatch),
        }
    }

    /// The cell as a 16-byte unique identifier.
    pub fn as_guid(&self) -> (r: Result<&[u8; 16], AccessError>)
        ensures
            match r {
                Ok(b) => self@ == ValModel::Guid(b@),
                Err(e) => !(self@ is Guid) && e == (if self@.is_null() {
                    AccessError::Null
                } else {
                    AccessError::TypeMismatch
                }),
            },
    {
        match self {
            Value::Guid(b) => Ok(b),
            Value::Null(_) => Err(AccessError::Null),
            _ => Err(AccessError::TypeMismatch),
        }
    }

    /// The cell as single-byte character data.
    pub fn as_var_char(&self) -> (r: Result<&Vec<u8>, AccessError>)
        ensures
            match r {
                Ok(b) => self@ == ValModel::VarChar(b@),
                Err(e) => !(self@ is VarChar) && e == (if self@.is_null() {
                    AccessError::Null
                } else {
                    AccessError::TypeMismatch
                }),
            },
    {
        match self {
            Value::VarChar(b) => Ok(b),
            Value::Null(_) => Err(AccessError::Null),
            _ => Err(AccessError::TypeMismatch),
        }
    }

    /// The cell as double-byte character data.
    pub fn as_n_var_char(&self) -> (r: Result<&Vec<u16>, AccessError>)
        ensures
            match r {
                Ok(u) => self@ == ValModel::NVarChar(u@),
                Err(e) => !(self@ is NVarChar) && e == (if self@.is_null() {
                    AccessError::Null
                } else {
                    AccessError::TypeMismatch
                }),
            },
    {
        match self {
            Value::NVarChar(u) => Ok(u),
            Value::Null(_) => Err(AccessError::Null),
            _ => Err(AccessError::TypeMismatch),
        }
    }
}


/// Whether a declared wire type is itself well formed.
pub fn check_wire_type(t: WireType) -> (r: bool)
    ensures
        r == wire_type_valid(t),
{
    match t {
        WireType::Decimal { scale } => scale <= MAX_DECIMAL_SCALE,
        _ => true,
    }
}
} // verus!
