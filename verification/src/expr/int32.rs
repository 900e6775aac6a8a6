//! Unary functions on 32-bit integers.
use vstd::prelude::*;
use crate::expr::error::EvalError;

verus! {

/// An object identifier: 32 bits without a sign.
#[derive(Clone, Copy, Debug, PartialEq, Eq, Structural, Hash)]
pub struct Oid(pub u32);

/// A one-byte character.
#[derive(Clone, Copy, Debug, PartialEq, Eq, Structural, Hash)]
pub struct PgLegacyChar(pub u8);

/// What negation gives: the negated value, unless that does not fit.
pub open spec fn spec_neg_int32(a: i32) -> Result<i32, EvalError> {
    if a == i32::MIN {
        Err(EvalError::Int32OutOfRange(a))
    } else {
        Ok((-a) as i32)
    }
}

/// Negates `a`. Fails exactly on the least integer, which has no negation.
pub fn neg_int32(a: i32) -> (r: Result<i32, EvalError>)
    ensures
        r == spec_neg_int32(a),
{
    if a == i32::MIN {
        Err(EvalError::Int32OutOfRange(a))
    } else {
        Ok(-a)
    }
}

/// What bitwise complement gives in two's complement.
pub open spec fn spec_bit_not_int32(a: i32) -> i32 {
    (-a - 1) as i32
}

/// Flips every bit of `a`.
pub fn bit_not_int32(a: i32) -> (r: i32)
    ensures
        r == spec_bit_not_int32(a),
{
    let r = !a;
    assert(r == -a - 1) by (bit_vector)
        requires
            r == !a,
    ;
    r
}

/// What the absolute value gives, unless it does not fit.
pub open spec fn spec_abs_int32(a: i32) -> Result<i32, EvalError> {
    if a == i32::MIN {
        Err(EvalError::Int32OutOfRange(a))
    } else if a < 0 {
        Ok((-a) as i32)
    } else {
        Ok(a)
    }
}

/// The absolute value of `a`. Fails exactly on the least integer.
pub fn abs_int32(a: i32) -> (r: Result<i32, EvalError>)
    ensures
        r == spec_abs_int32(a),
{
    if a == i32::MIN {
        Err(EvalError::Int32OutOfRange(a))
    } else if a < 0 {
        Ok(-a)
    } else {
        Ok(a)
    }
}

/// Casts an integer to a boolean: zero is `false`, all else is `true`.
pub fn cast_int32_to_bool(a: i32) -> (r: bool)
    ensures
        r == (a != 0),
{
    a != 0
}

/// What a cast to 16 bits gives.
pub open spec fn spec_cast_int32_to_int16(a: i32) -> Result<i16, EvalError> {
    if i16::MIN <= a <= i16::MAX {
        Ok(a as i16)
    } else {
        Err(EvalError::Int16OutOfRange(a))
    }
}

/// Casts to a signed 16-bit integer. Fails exactly where `a` does not fit.
pub fn cast_int32_to_int16(a: i32) -> (r: Result<i16, EvalError>)
    ensures
        r == spec_cast_int32_to_int16(a),
{
    if -32768 <= a && a <= 32767 {
        Ok(a as i16)
    } else {
        Err(EvalError::Int16OutOfRange(a))
    }
}

/// Casts to a signed 64-bit integer.
pub fn cast_int32_to_int64(a: i32) -> (r: i64)
    ensures
        r == a,
{
    a as i64
}

/// The character of a decimal digit.
pub open spec fn spec_digit(d: int) -> char {
    if d == 0 {
        '0'
    } else if d == 1 {
        '1'
    } else if d == 2 {
        '2'
    } else if d == 3 {
        '3'
    } else if d == 4 {
        '4'
    } else if d == 5 {
        '5'
    } else if d == 6 {
        '6'
    } else if d == 7 {
        '7'
    } else if d == 8 {
        '8'
    } else {
        '9'
    }
}

/// The decimal digits of a natural number, without leading zeros.
pub open spec fn spec_digits(n: nat) -> Seq<char>
    decreases n,
{
    if n < 10 {
        seq![spec_digit(n as int)]
    } else {
        spec_digits(n / 10).push(spec_digit((n % 10) as int))
    }
}

/// The text of an integer: its decimal digits, after a minus sign where it
/// is negative.
pub open spec fn spec_decimal(a: int) -> Seq<char> {
    if a < 0 {
        seq!['-'] + spec_digits((-a) as nat)
    } else {
        spec_digits(a as nat)
    }
}

/// `to_string` of the standard library on a 32-bit integer. Its
/// documentation says that an integer is written in decimal, with a minus
/// sign where it is negative; the contract says that, and that there are
/// no leading zeros.
#[verifier::external_body]
fn format_int32(a: i32) -> (text: String)
    ensures
        text@ == spec_decimal(a as int),
{
    a.to_string()
}

/// Casts an integer to its text.
pub fn cast_int32_to_string(a: i32) -> (text: String)
    ensures
        text@ == spec_decimal(a as int),
{
    format_int32(a)
}

/// The greatest scale of a numeric: the number of digits after the point.
#[derive(Clone, Copy, Debug, PartialEq, Eq, Structural, Hash)]
pub struct NumericMaxScale(pub u8);

/// The cast of an integer to a numeric, with a greatest scale where one is
/// asked for.
#[derive(Clone, Copy, Debug, PartialEq, Eq, Structural, Hash)]
pub struct CastInt32ToNumeric(pub Option<NumericMaxScale>);

impl CastInt32ToNumeric {
    /// Whether the cast can fail: it can where a scale is asked for, since
    /// the digits of the integer and those of the scale may not fit a
    /// numeric together.
    pub open spec fn spec_could_error(&self) -> bool {
        self.0 is Some
    }

    /// Reports whether the cast can fail.
    #[verifier::when_used_as_spec(spec_could_error)]
    pub fn could_error(&self) -> (b: bool)
        ensures
            b == self.spec_could_error(),
    {
        self.0.is_some()
    }

    /// Reports whether a greater integer is cast to a numeric that is not
    /// less. It always is.
    pub fn is_monotone(&self) -> (b: bool)
        ensures
            b,
    {
        true
    }

    /// The name of the cast.
    pub fn name(&self) -> (name: &'static str)
        ensures
            name@ == "integer_to_numeric"@,
    {
        "integer_to_numeric"
    }
}

/// What a cast to unsigned 16 bits gives.
pub open spec fn spec_cast_int32_to_uint16(a: i32) -> Result<u16, EvalError> {
    if 0 <= a <= u16::MAX {
        Ok(a as u16)
    } else {
        Err(EvalError::UInt16OutOfRange(a))
    }
}

/// Casts to an unsigned 16-bit integer. Fails exactly where `a` does not
/// fit.
pub fn cast_int32_to_uint16(a: i32) -> (r: Result<u16, EvalError>)
    ensures
        r == spec_cast_int32_to_uint16(a),
{
    if 0 <= a && a <= 65535 {
        Ok(a as u16)
    } else {
        Err(EvalError::UInt16OutOfRange(a))
    }
}

/// What a cast to unsigned 32 bits gives.
pub open spec fn spec_cast_int32_to_uint32(a: i32) -> Result<u32, EvalError> {
    if 0 <= a {
        Ok(a as u32)
    } else {
        Err(EvalError::UInt32OutOfRange(a))
    }
}

/// Casts to an unsigned 32-bit integer. Fails exactly on negative values.
pub fn cast_int32_to_uint32(a: i32) -> (r: Result<u32, EvalError>)
    ensures
        r == spec_cast_int32_to_uint32(a),
{
    if 0 <= a {
        Ok(a as u32)
    } else {
        Err(EvalError::UInt32OutOfRange(a))
    }
}

/// What a cast to unsigned 64 bits gives.
pub open spec fn spec_cast_int32_to_uint64(a: i32) -> Result<u64, EvalError> {
    if 0 <= a {
        Ok(a as u64)
    } else {
        Err(EvalError::UInt64OutOfRange(a))
    }
}

/// Casts to an unsigned 64-bit integer. Fails exactly on negative values.
pub fn cast_int32_to_uint64(a: i32) -> (r: Result<u64, EvalError>)
    ensures
        r == spec_cast_int32_to_uint64(a),
{
    if 0 <= a {
        Ok(a as u64)
    } else {
        Err(EvalError::UInt64OutOfRange(a))
    }
}

/// The 32 bits of `a`, read without a sign.
pub open spec fn spec_reinterpret_u32(a: i32) -> u32 {
    if a >= 0 {
        a as u32
    } else {
        (a + 0x1_0000_0000) as u32
    }
}

/// Casts to an object identifier. The bits are kept as they are, so a
/// negative integer becomes a large identifier.
pub fn cast_int32_to_oid(a: i32) -> (r: Oid)
    ensures
        r.0 == spec_reinterpret_u32(a),
{
    let bits = #[verifier::truncate] (a as u32);
    assert(bits == spec_reinterpret_u32(a)) by (bit_vector)
        requires
            bits == a as u32,
    ;
    Oid(bits)
}

/// What a cast to a one-byte character gives: the byte is taken as signed.
pub open spec fn spec_cast_int32_to_pg_legacy_char(a: i32) -> Result<PgLegacyChar, EvalError> {
    if 0 <= a <= i8::MAX {
        Ok(PgLegacyChar(a as u8))
    } else if i8::MIN <= a < 0 {
        Ok(PgLegacyChar((a + 256) as u8))
    } else {
        Err(EvalError::CharOutOfRange)
    }
}

/// Casts to a one-byte character, as if that character were signed. Fails
/// exactly where `a` does not fit a signed byte.
pub fn cast_int32_to_pg_legacy_char(a: i32) -> (r: Result<PgLegacyChar, EvalError>)
    ensures
        r == spec_cast_int32_to_pg_legacy_char(a),
{
    if 0 <= a && a <= 127 {
        Ok(PgLegacyChar(a as u8))
    } else if -128 <= a && a < 0 {
        Ok(PgLegacyChar((a + 256) as u8))
    } else {
        Err(EvalError::CharOutOfRange)
    }
}

/// Which failure, if any, asking for the character of code point `a` ends
/// in.
pub open spec fn spec_chr_error(a: i32) -> Option<EvalError> {
    if a < 0 {
        Some(EvalError::CharacterTooLargeForEncoding(a))
    } else if a == 0 {
        Some(EvalError::NullCharacterNotPermitted)
    } else if 0xd800 <= a < 0xe000 {
        Some(EvalError::CharacterNotValidForEncoding(a))
    } else if a > 0x10ffff {
        Some(EvalError::CharacterTooLargeForEncoding(a))
    } else {
        None
    }
}

/// The text that holds the one character with code point `a`.
///
/// Fails on a negative code point and on one beyond the last character,
/// on zero, and on a surrogate, each with its own error.
pub fn chr(a: i32) -> (r: Result<String, EvalError>)
    ensures
        match spec_chr_error(a) {
            Some(e) => r == Err::<String, EvalError>(e),
            None => r is Ok && r->Ok_0@.len() == 1 && r->Ok_0@[0] as u32 == a,
        },
{
    if a < 0 {
        return Err(EvalError::CharacterTooLargeForEncoding(a));
    }
    let codepoint = a as u32;
    if codepoint == 0 {
        Err(EvalError::NullCharacterNotPermitted)
    } else if 0xd800 <= codepoint && codepoint < 0xe000 {
        Err(EvalError::CharacterNotValidForEncoding(a))
    } else {
        match char_from_u32(codepoint) {
            Some(c) => Ok(char_to_string(c)),
            None => Err(EvalError::CharacterTooLargeForEncoding(a)),
        }
    }
}

/// `to_string` of the standard library on a character. Its documentation
/// says that a character is written as itself; the contract says that the
/// text holds this one character.
#[verifier::external_body]
fn char_to_string(c: char) -> (text: String)
    ensures
        text@ == seq![c],
{
    c.to_string()
}

/// `char::from_u32` of the standard library: the character with the given
/// code point. Its documentation says that it returns `None` exactly where
/// the number is no code point of a character, which is the case for the
/// surrogates and for everything beyond `0x10ffff`; the contract says that,
/// and that the character returned has the code point asked for.
#[verifier::external_body]
fn char_from_u32(codepoint: u32) -> (c: Option<char>)
    ensures
        c is Some <==> (codepoint < 0xd800 || 0xe000 <= codepoint <= 0x10ffff),
        c is Some ==> c->Some_0 as u32 == codepoint,
{
    char::from_u32(codepoint)
}

} // verus!
