//! Encoding and decoding of single cells and of declared types.
//!
//! Every cell is length-prefixed. Fixed-width types carry a one-byte
//! width prefix whose zero value is the NULL sentinel; character types
//! carry a two-byte byte-length prefix whose all-ones value is the NULL
//! sentinel, so a zero-length string (`length == 0`) is distinct from
//! NULL. Decoding distinguishes a short buffer (`NeedMore`: the caller
//! buffers and retries, since the transport delivers arbitrary chunk
//! boundaries) from a malformed encoding (`Malformed`).
//!
//! The specification-level encoder [`enc_cell`] and decoder [`dec_cell`]
//! define the format; the executable functions are proved against them,
//! and [`lemma_cell_round_trip`] shows that decoding inverts encoding
//! for every valid value, with any trailing bytes left untouched.

use vstd::prelude::*;
use vstd::bytes::*;
use vstd::slice::{slice_subrange, slice_to_vec, slice_index_get};
use crate::bytes::{u16_of_i16, u32_of_i32, u64_of_i64, put_u16, put_u32, put_u64, put_u128, read_u16, read_u32, read_u64, read_u128};
use crate::value::{WireType, Value, ValModel, wire_type_valid, MAX_DECIMAL_SCALE, MAX_DECIMAL_MAGNITUDE, MAX_DATE_DAYS, TIME_UNITS_PER_DAY, DATETIME_UNITS_PER_DAY};

verus! {

/// Wire tag of `TinyInt`.
pub const TAG_TINYINT: u8 = 0x30;

/// Wire tag of `SmallInt`.
pub const TAG_SMALLINT: u8 = 0x34;

/// Wire tag of `Int`.
pub const TAG_INT: u8 = 0x38;

/// Wire tag of `BigInt`.
pub const TAG_BIGINT: u8 = 0x7f;

/// Wire tag of `Real`.
pub const TAG_REAL: u8 = 0x3b;

/// Wire tag of `Float`.
pub const TAG_FLOAT: u8 = 0x3e;

/// Wire tag of `Money`.
pub const TAG_MONEY: u8 = 0x3c;

/// Wire tag of `Decimal`; a scale byte follows it.
pub const TAG_DECIMAL: u8 = 0x6a;

/// Wire tag of `Date`.
pub const TAG_DATE: u8 = 0x28;

/// Wire tag of `Time`.
pub const TAG_TIME: u8 = 0x29;

/// Wire tag of `DateTime`.
pub const TAG_DATETIME: u8 = 0x3d;

/// Wire tag of `Guid`.
pub const TAG_GUID: u8 = 0x24;

/// Wire tag of `VarChar`.
pub const TAG_VARCHAR: u8 = 0xa7;

/// Wire tag of `NVarChar`.
pub const TAG_NVARCHAR: u8 = 0xe7;

/// Length-prefix value that marks a NULL character cell.
pub const CHAR_NULL_SENTINEL: u16 = 0xffff;

/// Why encoding a value was refused.
#[derive(Clone, Copy, Debug, PartialEq, Eq, Structural)]
pub enum EncodeError {
    /// The value lies outside the ranges its wire type can carry; it
    /// is rejected rather than silently truncated.
    ValueOutOfRange,
}

/// Why decoding stopped.
#[derive(Clone, Copy, Debug, PartialEq, Eq, Structural)]
pub enum DecodeError {
    /// The buffer ends before the item does: buffer more bytes and
    /// retry. Not a failure of the stream.
    NeedMore,
    /// The bytes cannot be an encoding of the expected item; the
    /// stream is desynchronised.
    Malformed,
}

/// Whether the type's cells use the two-byte character length prefix.
pub open spec fn is_char_type(t: WireType) -> bool {
    t is VarChar || t is NVarChar
}

/// Width in bytes of a non-null cell of a fixed-width type.
pub open spec fn fixed_width(t: WireType) -> u8 {
    match t {
        WireType::TinyInt => 1,
        WireType::SmallInt => 2,
        WireType::Int => 4,
        WireType::BigInt => 8,
        WireType::Real => 4,
        WireType::Float => 8,
        WireType::Money => 8,
        WireType::Decimal { .. } => 17,
        WireType::Date => 4,
        WireType::Time => 8,
        WireType::DateTime => 8,
        WireType::Guid => 16,
        WireType::VarChar => 0,
        WireType::NVarChar => 0,
    }
}

/// The encoding of a declared type: its tag byte, plus the scale byte
/// for `Decimal`.
pub open spec fn enc_type(t: WireType) -> Seq<u8> {
    match t {
        WireType::TinyInt => seq![TAG_TINYINT],
        WireType::SmallInt => seq![TAG_SMALLINT],
        WireType::Int => seq![TAG_INT],
        WireType::BigInt => seq![TAG_BIGINT],
        WireType::Real => seq![TAG_REAL],
        WireType::Float => seq![TAG_FLOAT],
        WireType::Money => seq![TAG_MONEY],
        WireType::Decimal { scale } => seq![TAG_DECIMAL, scale],
        WireType::Date => seq![TAG_DATE],
        WireType::Time => seq![TAG_TIME],
        WireType::DateTime => seq![TAG_DATETIME],
        WireType::Guid => seq![TAG_GUID],
        WireType::VarChar => seq![TAG_VARCHAR],
        WireType::NVarChar => seq![TAG_NVARCHAR],
    }
}

/// Specification-level decoder of a declared type at the head of `s`:
/// the type and the bytes consumed, or `None` when `s` is too short,
/// holds an unknown tag, or holds an unsupported scale.
pub open spec fn dec_type(s: Seq<u8>) -> Option<(WireType, int)> {
    if s.len() < 1 {
        None
    } else if s[0] == TAG_DECIMAL {
        if s.len() < 2 {
            None
        } else if s[1] <= MAX_DECIMAL_SCALE {
            Some((WireType::Decimal { scale: s[1] }, 2))
        } else {
            None
        }
    } else if s[0] == TAG_TINYINT {
        Some((WireType::TinyInt, 1))
    } else if s[0] == TAG_SMALLINT {
        Some((WireType::SmallInt, 1))
    } else if s[0] == TAG_INT {
        Some((WireType::Int, 1))
    } else if s[0] == TAG_BIGINT {
        Some((WireType::BigInt, 1))
    } else if s[0] == TAG_REAL {
        Some((WireType::Real, 1))
    } else if s[0] == TAG_FLOAT {
        Some((WireType::Float, 1))
    } else if s[0] == TAG_MONEY {
        Some((WireType::Money, 1))
    } else if s[0] == TAG_DATE {
        Some((WireType::Date, 1))
    } else if s[0] == TAG_TIME {
        Some((WireType::Time, 1))
    } else if s[0] == TAG_DATETIME {
        Some((WireType::DateTime, 1))
    } else if s[0] == TAG_GUID {
        Some((WireType::Guid, 1))
    } else if s[0] == TAG_VARCHAR {
        Some((WireType::VarChar, 1))
    } else if s[0] == TAG_NVARCHAR {
        Some((WireType::NVarChar, 1))
    } else {
        None
    }
}

/// Whether a type decode failed only because the buffer is short.
pub open spec fn type_more(s: Seq<u8>) -> bool {
    s.len() < 1 || (s[0] == TAG_DECIMAL && s.len() < 2)
}

/// The sign byte of a decimal mantissa: `1` for zero or positive, `0`
/// for negative.
pub open spec fn dec_sign_byte(m: i128) -> u8 {
    if m < 0 {
        0
    } else {
        1
    }
}

/// The magnitude of a decimal mantissa.
pub open spec fn dec_magnitude(m: i128) -> u128 {
    if m < 0 {
        (-(m as int)) as u128
    } else {
        m as u128
    }
}

/// The little-endian concatenation of a sequence of 16-bit units.
pub open spec fn enc_u16s(u: Seq<u16>) -> Seq<u8>
    decreases u.len(),
{
    if u.len() == 0 {
        Seq::empty()
    } else {
        spec_u16_to_le_bytes(u[0]) + enc_u16s(u.drop_first())
    }
}

/// The 16-bit units read pairwise little-endian from a byte sequence.
pub open spec fn dec_u16s(s: Seq<u8>) -> Seq<u16> {
    Seq::new((s.len() / 2) as nat, |i: int| spec_u16_from_le_bytes(s.subrange(2 * i, 2 * i + 2)))
}

/// Payload of a non-null cell of a fixed-width type (everything after
/// the width byte).
pub open spec fn fixed_payload(v: ValModel) -> Seq<u8> {
    match v {
        ValModel::TinyInt(x) => seq![x],
        ValModel::SmallInt(x) => spec_u16_to_le_bytes(u16_of_i16(x)),
        ValModel::Int(x) => spec_u32_to_le_bytes(u32_of_i32(x)),
        ValModel::BigInt(x) => spec_u64_to_le_bytes(u64_of_i64(x)),
        ValModel::Real(b) => spec_u32_to_le_bytes(b),
        ValModel::Float(b) => spec_u64_to_le_bytes(b),
        ValModel::Money(x) => spec_u64_to_le_bytes(u64_of_i64(x)),
        ValModel::Decimal { scale: _, mantissa } => seq![dec_sign_byte(mantissa)]
            + spec_u128_to_le_bytes(dec_magnitude(mantissa)),
        ValModel::Date(d) => spec_u32_to_le_bytes(d),
        ValModel::Time(t) => spec_u64_to_le_bytes(t),
        ValModel::DateTime { days, ticks } => spec_u32_to_le_bytes(u32_of_i32(days))
            + spec_u32_to_le_bytes(ticks),
        ValModel::Guid(b) => b,
        _ => Seq::empty(),
    }
}

/// The encoding of one cell: its length prefix and payload.
pub open spec fn enc_cell(v: ValModel) -> Seq<u8> {
    match v {
        ValModel::Null(t) => if is_char_type(t) {
            spec_u16_to_le_bytes(CHAR_NULL_SENTINEL)
        } else {
            seq![0u8]
        },
        ValModel::VarChar(b) => spec_u16_to_le_bytes(b.len() as u16) + b,
        ValModel::NVarChar(u) => spec_u16_to_le_bytes((2 * u.len()) as u16) + enc_u16s(u),
        _ => seq![fixed_width(v.wire_type())] + fixed_payload(v),
    }
}

/// Specification-level decoder of one fixed-width payload.
pub open spec fn dec_fixed(p: Seq<u8>, t: WireType) -> Option<ValModel> {
    match t {
        WireType::TinyInt => Some(ValModel::TinyInt(p[0])),
        WireType::SmallInt => Some(ValModel::SmallInt(spec_u16_from_le_bytes(p) as i16)),
        WireType::Int => Some(ValModel::Int(spec_u32_from_le_bytes(p) as i32)),
        WireType::BigInt => Some(ValModel::BigInt(spec_u64_from_le_bytes(p) as i64)),
        WireType::Real => Some(ValModel::Real(spec_u32_from_le_bytes(p))),
        WireType::Float => Some(ValModel::Float(spec_u64_from_le_bytes(p))),
        WireType::Money => Some(ValModel::Money(spec_u64_from_le_bytes(p) as i64)),
        WireType::Decimal { scale } => {
            let sign = p[0];
            let mag = spec_u128_from_le_bytes(p.subrange(1, 17));
            if sign != 0 && sign != 1 {
                None
            } else if mag > MAX_DECIMAL_MAGNITUDE as u128 {
                None
            } else if sign == 1 {
                Some(ValModel::Decimal { scale, mantissa: mag as i128 })
            } else {
                Some(ValModel::Decimal { scale, mantissa: (-(mag as int)) as i128 })
            }
        },
        WireType::Date => {
            let d = spec_u32_from_le_bytes(p);
            if d <= MAX_DATE_DAYS {
                Some(ValModel::Date(d))
            } else {
                None
            }
        },
        WireType::Time => {
            let x = spec_u64_from_le_bytes(p);
            if x < TIME_UNITS_PER_DAY {
                Some(ValModel::Time(x))
            } else {
                None
            }
        },
        WireType::DateTime => {
            let days = spec_u32_from_le_bytes(p.subrange(0, 4)) as i32;
            let ticks = spec_u32_from_le_bytes(p.subrange(4, 8));
            if ticks < DATETIME_UNITS_PER_DAY {
                Some(ValModel::DateTime { days, ticks })
            } else {
                None
            }
        },
        WireType::Guid => Some(ValModel::Guid(p)),
        _ => None,
    }
}

/// Specification-level decoder of one cell of declared type `t` at the
/// head of `s`: the value and the bytes consumed, or `None` when the
/// buffer is short or the encoding malformed ([`cell_more`] tells the
/// two apart).
pub open spec fn dec_cell(s: Seq<u8>, t: WireType) -> Option<(ValModel, int)> {
    if is_char_type(t) {
        if s.len() < 2 {
            None
        } else {
            let n = spec_u16_from_le_bytes(s.subrange(0, 2)) as int;
            if n == CHAR_NULL_SENTINEL as int {
                Some((ValModel::Null(t), 2))
            } else if s.len() < 2 + n {
                None
            } else if t is VarChar {
                Some((ValModel::VarChar(s.subrange(2, 2 + n)), 2 + n))
            } else if n % 2 == 0 {
                Some((ValModel::NVarChar(dec_u16s(s.subrange(2, 2 + n))), 2 + n))
            } else {
                None
            }
        }
    } else if s.len() < 1 {
        None
    } else if s[0] == 0 {
        Some((ValModel::Null(t), 1))
    } else if s[0] != fixed_width(t) {
        None
    } else if s.len() < 1 + fixed_width(t) {
        None
    } else {
        match dec_fixed(s.subrange(1, 1 + fixed_width(t) as int), t) {
            Some(v) => Some((v, 1 + fixed_width(t) as int)),
            None => None,
        }
    }
}

/// Whether a cell decode failed only because the buffer is short: the
/// caller should buffer more bytes and retry rather than fail.
pub open spec fn cell_more(s: Seq<u8>, t: WireType) -> bool {
    if is_char_type(t) {
        s.len() < 2 || {
            let n = spec_u16_from_le_bytes(s.subrange(0, 2)) as int;
            n != CHAR_NULL_SENTINEL as int && s.len() < 2 + n
        }
    } else {
        s.len() < 1 || (s[0] == fixed_width(t) && s[0] != 0 && s.len() < 1 + fixed_width(t))
    }
}


pub proof fn lemma_enc_u16s_len(u: Seq<u16>)
    ensures
        enc_u16s(u).len() == 2 * u.len(),
    decreases u.len(),
{
    lemma_auto_spec_u16_to_from_le_bytes();
    if u.len() > 0 {
        lemma_enc_u16s_len(u.drop_first());
    }
}

pub proof fn lemma_enc_u16s_snoc(u: Seq<u16>, x: u16)
    ensures
        enc_u16s(u.push(x)) == enc_u16s(u) + spec_u16_to_le_bytes(x),
    decreases u.len(),
{
    lemma_auto_spec_u16_to_from_le_bytes();
    if u.len() == 0 {
        assert(u.push(x)[0] == x);
        assert(u.push(x).drop_first() =~= Seq::<u16>::empty());
        assert(enc_u16s(Seq::<u16>::empty()) == Seq::<u8>::empty());
        assert(enc_u16s(u) == Seq::<u8>::empty());
        assert(enc_u16s(u.push(x)) == spec_u16_to_le_bytes(x) + Seq::<u8>::empty());
        assert(enc_u16s(u.push(x)) =~= enc_u16s(u) + spec_u16_to_le_bytes(x));
    } else {
        assert(u.push(x).drop_first() =~= u.drop_first().push(x));
        lemma_enc_u16s_snoc(u.drop_first(), x);
        assert(enc_u16s(u.push(x)) =~= enc_u16s(u) + spec_u16_to_le_bytes(x));
    }
}

pub proof fn lemma_enc_u16s_index(u: Seq<u16>, i: int)
    requires
        0 <= i < u.len(),
    ensures
        enc_u16s(u).subrange(2 * i, 2 * i + 2) == spec_u16_to_le_bytes(u[i]),
    decreases u.len(),
{
    lemma_auto_spec_u16_to_from_le_bytes();
    lemma_enc_u16s_len(u);
    if i == 0 {
        assert(enc_u16s(u).subrange(0, 2) =~= spec_u16_to_le_bytes(u[0]));
    } else {
        lemma_enc_u16s_len(u.drop_first());
        lemma_enc_u16s_index(u.drop_first(), i - 1);
        assert(enc_u16s(u).subrange(2 * i, 2 * i + 2) =~= enc_u16s(u.drop_first()).subrange(
            2 * (i - 1),
            2 * (i - 1) + 2,
        ));
    }
}

/// Reading 16-bit units back out of their little-endian concatenation
/// returns the original sequence.
pub proof fn lemma_dec_enc_u16s(u: Seq<u16>)
    ensures
        dec_u16s(enc_u16s(u)) == u,
{
    lemma_auto_spec_u16_to_from_le_bytes();
    lemma_enc_u16s_len(u);
    assert forall|i: int| 0 <= i < u.len() implies dec_u16s(enc_u16s(u))[i] == u[i] by {
        lemma_auto_spec_u16_to_from_le_bytes();
        lemma_enc_u16s_index(u, i);
        assert(enc_u16s(u).subrange(2 * i, 2 * i + 2) == spec_u16_to_le_bytes(u[i]));
        assert(spec_u16_from_le_bytes(spec_u16_to_le_bytes(u[i])) == u[i]);
    };
    assert(dec_u16s(enc_u16s(u)) =~= u);
}

/// Decoding a declared type inverts encoding it, for every well-formed
/// type and whatever bytes follow.
pub proof fn lemma_type_round_trip(t: WireType, rest: Seq<u8>)
    requires
        wire_type_valid(t),
    ensures
        dec_type(enc_type(t) + rest) == Some((t, enc_type(t).len() as int)),
{
    let s = enc_type(t) + rest;
    assert(s[0] == enc_type(t)[0]);
    if t is Decimal {
        assert(s[1] == enc_type(t)[1]);
    }
}

/// Decoding inverts encoding: for every valid cell value, decoding the
/// encoding at its own wire type returns the value itself and consumes
/// exactly the encoding, whatever bytes follow it.
pub proof fn lemma_cell_round_trip(v: ValModel, rest: Seq<u8>)
    requires
        v.valid(),
    ensures
        dec_cell(enc_cell(v) + rest, v.wire_type()) == Some((v, enc_cell(v).len() as int)),
{
    lemma_auto_spec_u16_to_from_le_bytes();
    lemma_auto_spec_u32_to_from_le_bytes();
    lemma_auto_spec_u64_to_from_le_bytes();
    lemma_auto_spec_u128_to_from_le_bytes();
    let t = v.wire_type();
    let e = enc_cell(v);
    let s = e + rest;
    match v {
        ValModel::Null(t0) => {
            if is_char_type(t0) {
                assert(s.subrange(0, 2) =~= spec_u16_to_le_bytes(CHAR_NULL_SENTINEL));
                assert(spec_u16_from_le_bytes(s.subrange(0, 2)) == CHAR_NULL_SENTINEL);
            } else {
                assert(s[0] == 0);
            }
        },
        ValModel::VarChar(b) => {
            let n = b.len() as int;
            assert(s.subrange(0, 2) =~= spec_u16_to_le_bytes(b.len() as u16));
            assert(spec_u16_from_le_bytes(s.subrange(0, 2)) == b.len() as u16);
            assert(s.subrange(2, 2 + n) =~= b);
        },
        ValModel::NVarChar(u) => {
            lemma_enc_u16s_len(u);
            let n = 2 * u.len() as int;
            assert(s.subrange(0, 2) =~= spec_u16_to_le_bytes((2 * u.len()) as u16));
            assert(spec_u16_from_le_bytes(s.subrange(0, 2)) == (2 * u.len()) as u16);
            assert(s.subrange(2, 2 + n) =~= enc_u16s(u));
            lemma_dec_enc_u16s(u);
        },
        _ => {
            let w = fixed_width(t) as int;
            let pay = fixed_payload(v);
            assert(s[0] == fixed_width(t));
            assert(s.len() == 1 + w + rest.len() && pay.len() == w) by {
                match v {
                    ValModel::Decimal { scale: _, mantissa } => {
                        assert(spec_u128_to_le_bytes(dec_magnitude(mantissa)).len() == 16);
                    },
                    _ => {},
                }
            };
            let p = s.subrange(1, 1 + w);
            assert(p =~= pay);
            match v {
                ValModel::TinyInt(x) => {
                    assert(p[0] == x);
                },
                ValModel::SmallInt(x) => {
                    crate::bytes::lemma_i16_bits_round_trip(x);
                },
                ValModel::Int(x) => {
                    crate::bytes::lemma_i32_bits_round_trip(x);
                },
                ValModel::BigInt(x) => {
                    crate::bytes::lemma_i64_bits_round_trip(x);
                },
                ValModel::Money(x) => {
                    crate::bytes::lemma_i64_bits_round_trip(x);
                },
                ValModel::Decimal { scale: _, mantissa } => {
                    let mag = dec_magnitude(mantissa);
                    assert(p[0] == dec_sign_byte(mantissa));
                    assert(p.subrange(1, 17) =~= spec_u128_to_le_bytes(mag));
                    assert(spec_u128_from_le_bytes(p.subrange(1, 17)) == mag);
                    assert(mag <= MAX_DECIMAL_MAGNITUDE as u128);
                    if mantissa < 0 {
                        assert((-(mag as int)) as i128 == mantissa);
                    } else {
                        assert(mag as i128 == mantissa);
                    }
                },
                ValModel::DateTime { days, ticks } => {
                    assert(p.subrange(0, 4) =~= spec_u32_to_le_bytes(u32_of_i32(days)));
                    assert(p.subrange(4, 8) =~= spec_u32_to_le_bytes(ticks));
                    crate::bytes::lemma_i32_bits_round_trip(days);
                },
                ValModel::Guid(b) => {
                    assert(p =~= b);
                },
                _ => {},
            }
        },
    }
}

/// A typed NULL never shares an encoding with a non-null value of the
/// same wire type; in particular a zero-length string and a zero-valued
/// numeric round-trip distinctly from NULL.
pub proof fn lemma_null_cell_distinct(v: ValModel)
    requires
        v.valid(),
    ensures
        v.is_null() || enc_cell(ValModel::Null(v.wire_type())) != enc_cell(v),
{
    lemma_auto_spec_u16_to_from_le_bytes();
    let t = v.wire_type();
    let en = enc_cell(ValModel::Null(t));
    let ev = enc_cell(v);
    match v {
        ValModel::Null(_) => {
        },
        ValModel::VarChar(b) => {
            assert(en.subrange(0, 2) =~= spec_u16_to_le_bytes(CHAR_NULL_SENTINEL));
            assert(ev.subrange(0, 2) =~= spec_u16_to_le_bytes(b.len() as u16));
            assert(spec_u16_from_le_bytes(en.subrange(0, 2)) == CHAR_NULL_SENTINEL);
            assert(spec_u16_from_le_bytes(ev.subrange(0, 2)) == b.len() as u16);
            assert(b.len() as u16 != CHAR_NULL_SENTINEL);
        },
        ValModel::NVarChar(u) => {
            lemma_enc_u16s_len(u);
            assert(en.subrange(0, 2) =~= spec_u16_to_le_bytes(CHAR_NULL_SENTINEL));
            assert(ev.subrange(0, 2) =~= spec_u16_to_le_bytes((2 * u.len()) as u16));
            assert(spec_u16_from_le_bytes(en.subrange(0, 2)) == CHAR_NULL_SENTINEL);
            assert(spec_u16_from_le_bytes(ev.subrange(0, 2)) == (2 * u.len()) as u16);
            assert((2 * u.len()) as u16 != CHAR_NULL_SENTINEL);
        },
        _ => {
            assert(ev[0] == fixed_width(t));
            assert(en[0] == 0);
            assert(fixed_width(t) != 0);
        },
    }
}


/// Append the encoding of a declared type to `out`.
pub fn encode_type(out: &mut Vec<u8>, t: WireType)
    ensures
        final(out)@ == old(out)@ + enc_type(t),
{
    match t {
        WireType::TinyInt => out.push(TAG_TINYINT),
        WireType::SmallInt => out.push(TAG_SMALLINT),
        WireType::Int => out.push(TAG_INT),
        WireType::BigInt => out.push(TAG_BIGINT),
        WireType::Real => out.push(TAG_REAL),
        WireType::Float => out.push(TAG_FLOAT),
        WireType::Money => out.push(TAG_MONEY),
        WireType::Decimal { scale } => {
            out.push(TAG_DECIMAL);
            out.push(scale);
        },
        WireType::Date => out.push(TAG_DATE),
        WireType::Time => out.push(TAG_TIME),
        WireType::DateTime => out.push(TAG_DATETIME),
        WireType::Guid => out.push(TAG_GUID),
        WireType::VarChar => out.push(TAG_VARCHAR),
        WireType::NVarChar => out.push(TAG_NVARCHAR),
    }
    proof {
        assert(out@ =~= old(out)@ + enc_type(t));
    }
}

/// Decode the declared type at the head of `input`.
pub fn decode_type(input: &[u8]) -> (r: Result<(WireType, usize), DecodeError>)
    ensures
        match r {
            Ok(p) => dec_type(input@) == Some((p.0, p.1 as int)) && wire_type_valid(p.0) && p.1
                <= input@.len(),
            Err(DecodeError::NeedMore) => dec_type(input@) is None && type_more(input@),
            Err(DecodeError::Malformed) => dec_type(input@) is None && (!type_more(input@)),
        },
{
    if input.len() < 1 {
        return Err(DecodeError::NeedMore);
    }
    let b0 = *slice_index_get(input, 0);
    if b0 == TAG_DECIMAL {
        if input.len() < 2 {
            return Err(DecodeError::NeedMore);
        }
        let sc = *slice_index_get(input, 1);
        if sc <= MAX_DECIMAL_SCALE {
            Ok((WireType::Decimal { scale: sc }, 2))
        } else {
            Err(DecodeError::Malformed)
        }
    } else if b0 == TAG_TINYINT {
        Ok((WireType::TinyInt, 1))
    } else if b0 == TAG_SMALLINT {
        Ok((WireType::SmallInt, 1))
    } else if b0 == TAG_INT {
        Ok((WireType::Int, 1))
    } else if b0 == TAG_BIGINT {
        Ok((WireType::BigInt, 1))
    } else if b0 == TAG_REAL {
        Ok((WireType::Real, 1))
    } else if b0 == TAG_FLOAT {
        Ok((WireType::Float, 1))
    } else if b0 == TAG_MONEY {
        Ok((WireType::Money, 1))
    } else if b0 == TAG_DATE {
        Ok((WireType::Date, 1))
    } else if b0 == TAG_TIME {
        Ok((WireType::Time, 1))
    } else if b0 == TAG_DATETIME {
        Ok((WireType::DateTime, 1))
    } else if b0 == TAG_GUID {
        Ok((WireType::Guid, 1))
    } else if b0 == TAG_VARCHAR {
        Ok((WireType::VarChar, 1))
    } else if b0 == TAG_NVARCHAR {
        Ok((WireType::NVarChar, 1))
    } else {
        Err(DecodeError::Malformed)
    }
}

/// Width in bytes of a non-null cell of a fixed-width type.
pub fn width_of(t: WireType) -> (w: u8)
    ensures
        w == fixed_width(t),
{
    match t {
        WireType::TinyInt => 1,
        WireType::SmallInt => 2,
        WireType::Int => 4,
        WireType::BigInt => 8,
        WireType::Real => 4,
        WireType::Float => 8,
        WireType::Money => 8,
        WireType::Decimal { .. } => 17,
        WireType::Date => 4,
        WireType::Time => 8,
        WireType::DateTime => 8,
        WireType::Guid => 16,
        WireType::VarChar => 0,
        WireType::NVarChar => 0,
    }
}

/// Append the encoding of one cell to `out`. A value outside the
/// ranges of its wire type is rejected whole: nothing is appended.
pub fn encode_cell(out: &mut Vec<u8>, v: &Value) -> (r: Result<usize, EncodeError>)
    ensures
        (r is Ok) == v@.valid(),
        v@.valid() ==> final(out)@ == old(out)@ + enc_cell(v@) && r == Ok::<usize, EncodeError>(
            enc_cell(v@).len() as usize,
        ),
        (!v@.valid()) ==> final(out)@ == old(out)@,
{
    if !v.is_valid() {
        return Err(EncodeError::ValueOutOfRange);
    }
    let start = out.len();
    match v {
        Value::Null(t) => {
            match t {
                WireType::VarChar | WireType::NVarChar => put_u16(out, CHAR_NULL_SENTINEL),
                _ => out.push(0),
            }
        },
        Value::TinyInt(x) => {
            out.push(1);
            out.push(*x);
        },
        Value::SmallInt(x) => {
            out.push(2);
            put_u16(out, *x as u16);
        },
        Value::Int(x) => {
            out.push(4);
            put_u32(out, *x as u32);
        },
        Value::BigInt(x) => {
            out.push(8);
            put_u64(out, *x as u64);
        },
        Value::Real(b) => {
            out.push(4);
            put_u32(out, *b);
        },
        Value::Float(b) => {
            out.push(8);
            put_u64(out, *b);
        },
        Value::Money(x) => {
            out.push(8);
            put_u64(out, *x as u64);
        },
        Value::Decimal { scale: _, mantissa } => {
            out.push(17);
            if *mantissa < 0 {
                out.push(0);
                put_u128(out, (-*mantissa) as u128);
            } else {
                out.push(1);
                put_u128(out, *mantissa as u128);
            }
        },
        Value::Date(d) => {
            out.push(4);
            put_u32(out, *d);
        },
        Value::Time(x) => {
            out.push(8);
            put_u64(out, *x);
        },
        Value::DateTime { days, ticks } => {
            out.push(8);
            put_u32(out, *days as u32);
            put_u32(out, *ticks);
        },
        Value::Guid(b) => {
            out.push(16);
            out.extend_from_slice(b.as_slice());
        },
        Value::VarChar(b) => {
            put_u16(out, b.len() as u16);
            out.extend_from_slice(b.as_slice());
        },
        Value::NVarChar(u) => {
            put_u16(out, (2 * u.len()) as u16);
            let ghost mid = out@;
            let n = u.len();
            let mut i: usize = 0;
            while i < n
                invariant
                    n == u@.len(),
                    i <= n,
                    out@ == mid + enc_u16s(u@.take(i as int)),
                decreases n - i,
            {
                proof {
                    lemma_enc_u16s_snoc(u@.take(i as int), u@[i as int]);
                    assert(u@.take(i as int).push(u@[i as int]) =~= u@.take(i as int + 1));
                }
                put_u16(out, u[i]);
                i += 1;
            }
            proof {
                assert(u@.take(n as int) =~= u@);
            }
        },
    }
    proof {
        assert(out@ =~= old(out)@ + enc_cell(v@));
    }
    Ok(out.len() - start)
}

/// Decode one cell of declared type `t` at the head of `input`:
/// the value and the bytes consumed. `NeedMore` reports a short
/// buffer (retry after reading more bytes); `Malformed` reports bytes
/// that cannot encode a cell of this type.
pub fn decode_cell(input: &[u8], t: WireType) -> (r: Result<(Value, usize), DecodeError>)
    requires
        wire_type_valid(t),
    ensures
        match r {
            Ok(p) => {
                &&& dec_cell(input@, t) == Some((p.0@, p.1 as int))
                &&& p.1 <= input@.len()
                &&& p.0@.valid()
                &&& p.0@.wire_type() == t
            },
            Err(DecodeError::NeedMore) => dec_cell(input@, t) is None && cell_more(input@, t),
            Err(DecodeError::Malformed) => dec_cell(input@, t) is None && (!cell_more(input@, t)),
        },
{
    let len = input.len();
    match t {
        WireType::VarChar | WireType::NVarChar => {
            if len < 2 {
                return Err(DecodeError::NeedMore);
            }
            let n16 = read_u16(input, 0);
            if n16 == CHAR_NULL_SENTINEL {
                return Ok((Value::Null(t), 2));
            }
            let n = n16 as usize;
            if len - 2 < n {
                return Err(DecodeError::NeedMore);
            }
            if matches!(t, WireType::VarChar) {
                let bytes = slice_to_vec(slice_subrange(input, 2, 2 + n));
                Ok((Value::VarChar(bytes), 2 + n))
            } else {
                if n % 2 == 1 {
                    return Err(DecodeError::Malformed);
                }
                let ghost pay = input@.subrange(2, 2 + n as int);
                let half = n / 2;
                let mut units: Vec<u16> = Vec::new();
                let mut i: usize = 0;
                while i < half
                    invariant
                        half == n / 2,
                        n % 2 == 0,
                        2 + n <= input@.len(),
                        pay == input@.subrange(2, 2 + n as int),
                        i <= half,
                        units@ == dec_u16s(pay).take(i as int),
                    decreases half - i,
                {
                    let x = read_u16(input, 2 + 2 * i);
                    proof {
                        assert(pay.subrange(2 * i as int, 2 * i as int + 2) =~= input@.subrange(
                            2 + 2 * i as int,
                            2 + 2 * i as int + 2,
                        ));
                        assert(dec_u16s(pay)[i as int] == spec_u16_from_le_bytes(
                            pay.subrange(2 * i as int, 2 * i as int + 2),
                        ));
                        assert(dec_u16s(pay).take(i as int).push(dec_u16s(pay)[i as int])
                            =~= dec_u16s(pay).take(i as int + 1));
                    }
                    units.push(x);
                    i += 1;
                }
                proof {
                    assert(dec_u16s(pay).take(half as int) =~= dec_u16s(pay));
                }
                Ok((Value::NVarChar(units), 2 + n))
            }
        },
        _ => {
            if len < 1 {
                return Err(DecodeError::NeedMore);
            }
            let w0 = *slice_index_get(input, 0);
            if w0 == 0 {
                return Ok((Value::Null(t), 1));
            }
            let w = width_of(t);
            if w0 != w {
                return Err(DecodeError::Malformed);
            }
            let wu = w as usize;
            if len - 1 < wu {
                return Err(DecodeError::NeedMore);
            }
            let ghost pay = input@.subrange(1, 1 + fixed_width(t) as int);
            match t {
                WireType::TinyInt => {
                    let x = *slice_index_get(input, 1);
                    proof {
                        assert(pay[0] == x);
                    }
                    Ok((Value::TinyInt(x), 2))
                },
                WireType::SmallInt => {
                    let x = read_u16(input, 1);
                    proof {
                        assert(pay =~= input@.subrange(1, 3));
                    }
                    Ok((Value::SmallInt(x as i16), 3))
                },
                WireType::Int => {
                    let x = read_u32(input, 1);
                    proof {
                        assert(pay =~= input@.subrange(1, 5));
                    }
                    Ok((Value::Int(x as i32), 5))
                },
                WireType::BigInt => {
                    let x = read_u64(input, 1);
                    proof {
                        assert(pay =~= input@.subrange(1, 9));
                    }
                    Ok((Value::BigInt(x as i64), 9))
                },
                WireType::Real => {
                    let x = read_u32(input, 1);
                    proof {
                        assert(pay =~= input@.subrange(1, 5));
                    }
                    Ok((Value::Real(x), 5))
                },
                WireType::Float => {
                    let x = read_u64(input, 1);
                    proof {
                        assert(pay =~= input@.subrange(1, 9));
                    }
                    Ok((Value::Float(x), 9))
                },
                WireType::Money => {
                    let x = read_u64(input, 1);
                    proof {
                        assert(pay =~= input@.subrange(1, 9));
                    }
                    Ok((Value::Money(x as i64), 9))
                },
                WireType::Decimal { scale } => {
                    let sign = *slice_index_get(input, 1);
                    proof {
                        assert(pay[0] == sign);
                        assert(pay.subrange(1, 17) =~= input@.subrange(2, 18));
                    }
                    if sign != 0 && sign != 1 {
                        return Err(DecodeError::Malformed);
                    }
                    let mag = read_u128(input, 2);
                    if mag > MAX_DECIMAL_MAGNITUDE as u128 {
                        return Err(DecodeError::Malformed);
                    }
                    let mantissa: i128 = if sign == 1 {
                        mag as i128
                    } else {
                        -(mag as i128)
                    };
                    Ok((Value::Decimal { scale, mantissa }, 18))
                },
                WireType::Date => {
                    let d = read_u32(input, 1);
                    proof {
                        assert(pay =~= input@.subrange(1, 5));
                    }
                    if d > MAX_DATE_DAYS {
                        return Err(DecodeError::Malformed);
                    }
                    Ok((Value::Date(d), 5))
                },
                WireType::Time => {
                    let x = read_u64(input, 1);
                    proof {
                        assert(pay =~= input@.subrange(1, 9));
                    }
                    if x >= TIME_UNITS_PER_DAY {
                        return Err(DecodeError::Malformed);
                    }
                    Ok((Value::Time(x), 9))
                },
                WireType::DateTime => {
                    let db = read_u32(input, 1);
                    let ticks = read_u32(input, 5);
                    proof {
                        assert(pay.subrange(0, 4) =~= input@.subrange(1, 5));
                        assert(pay.subrange(4, 8) =~= input@.subrange(5, 9));
                    }
                    if ticks >= DATETIME_UNITS_PER_DAY {
                        return Err(DecodeError::Malformed);
                    }
                    Ok((Value::DateTime { days: db as i32, ticks }, 9))
                },
                WireType::Guid => {
                    let mut g: Vec<u8> = Vec::new();
                    let mut i: usize = 0;
                    while i < 16
                        invariant
                            17 <= input@.len(),
                            i <= 16,
                            g@ == input@.subrange(1, 1 + i as int),
                        decreases 16 - i,
                    {
                        let b = *slice_index_get(input, 1 + i);
                        proof {
                            assert(input@.subrange(1, 1 + i as int).push(b) =~= input@.subrange(
                                1,
                                1 + i as int + 1,
                            ));
                        }
                        g.push(b);
                        i += 1;
                    }
                    let arr: [u8; 16] = [g[0], g[1], g[2], g[3], g[4], g[5], g[6], g[7], g[8], g[
                        9], g[10], g[11], g[12], g[13], g[14], g[15]];
                    proof {
                        assert(arr@ =~= input@.subrange(1, 17));
                        assert(pay =~= input@.subrange(1, 17));
                    }
                    Ok((Value::Guid(arr), 17))
                },
                _ => {
                    Err(DecodeError::Malformed)
                },
            }
        },
    }
}

/// The typed NULL round-trips distinctly: decoding the encodings of a
/// NULL and of any non-null valid value of the same wire type (a
/// zero-length string, a zero) returns values that differ.
pub proof fn lemma_null_round_trip_distinct(v: ValModel, rest: Seq<u8>)
    requires
        v.valid(),
        (!v.is_null()),
    ensures
        dec_cell(enc_cell(ValModel::Null(v.wire_type())) + rest, v.wire_type()) == Some(
            (ValModel::Null(v.wire_type()), enc_cell(ValModel::Null(v.wire_type())).len() as int),
        ),
        dec_cell(enc_cell(v) + rest, v.wire_type()) == Some(
            (v, enc_cell(v).len() as int),
        ),
        enc_cell(ValModel::Null(v.wire_type())) != enc_cell(v),
{
    let nul = ValModel::Null(v.wire_type());
    assert(nul.valid());
    assert(nul.wire_type() == v.wire_type());
    lemma_cell_round_trip(nul, rest);
    lemma_cell_round_trip(v, rest);
    lemma_null_cell_distinct(v);
}
} // verus!
