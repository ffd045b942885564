//! The text of header values: numbers, names and lists of them.
use vstd::prelude::*;
use vstd::slice::slice_subrange;
use vstd::utf8::{decode_utf8, encode_utf8, valid_utf8};
use crate::frame::{Fault, RawFieldEncoding};
use crate::stream::interval::PInterval;
use crate::stream::predictor::FieldPredictor;

verus! {

/// The byte that ends a header line.
pub const NEWLINE: u8 = 0x0a;

/// The byte that parts the items of a list.
pub const COMMA: u8 = 0x2c;

/// The byte that parts the two numbers of a ratio.
pub const SLASH: u8 = 0x2f;

/// The first position from `pos` on that holds `byte`.
pub open spec fn spec_find_byte(s: Seq<u8>, pos: int, byte: u8) -> Option<int>
    decreases s.len() - pos,
{
    if pos < 0 || pos >= s.len() {
        None
    } else if s[pos] == byte {
        Some(pos)
    } else {
        spec_find_byte(s, pos + 1, byte)
    }
}

/// What `spec_find_byte` finds lies in the input, holds the byte, and is
/// the first such place.
pub proof fn lemma_find_byte(s: Seq<u8>, pos: int, byte: u8)
    requires
        0 <= pos,
    ensures
        spec_find_byte(s, pos, byte) matches Some(at) ==> pos <= at < s.len() && s[at] == byte
            && forall|i: int| pos <= i < at ==> s[i] != byte,
        spec_find_byte(s, pos, byte) is None ==> forall|i: int| pos <= i < s.len() ==> s[i] != byte,
    decreases s.len() - pos,
{
    if pos < s.len() && s[pos] != byte {
        lemma_find_byte(s, pos + 1, byte);
    }
}

/// Looks for `byte` from `pos` on.
pub fn find_byte(input: &[u8], pos: usize, byte: u8) -> (r: Option<usize>)
    ensures
        r matches Some(at) ==> spec_find_byte(input@, pos as int, byte) == Some(at as int) && pos
            <= at < input@.len() && input@[at as int] == byte,
        r is None ==> spec_find_byte(input@, pos as int, byte) is None,
{
    let mut i: usize = pos;
    while i < input.len()
        invariant
            pos <= i,
            spec_find_byte(input@, pos as int, byte) == spec_find_byte(input@, i as int, byte),
        decreases input@.len() - i,
    {
        if input[i] == byte {
            return Some(i);
        }
        i = i + 1;
    }
    None
}

/// The value of a digit in `radix`: `0` to `9`, then the letters in either
/// case.
pub open spec fn spec_digit(b: u8, radix: int) -> Option<int> {
    let v = if 0x30 <= b <= 0x39 {
        b - 0x30
    } else if 0x61 <= b <= 0x7a {
        b - 0x61 + 10
    } else if 0x41 <= b <= 0x5a {
        b - 0x41 + 10
    } else {
        36
    };
    if v < radix {
        Some(v)
    } else {
        None
    }
}

/// The number that a run of at least one digit stands for.
pub open spec fn spec_digits(s: Seq<u8>, radix: int) -> Option<int>
    decreases s.len(),
{
    if s.len() == 0 {
        None
    } else {
        match spec_digit(s.last(), radix) {
            None => None,
            Some(d) => if s.len() == 1 {
                Some(d)
            } else {
                match spec_digits(s.drop_last(), radix) {
                    None => None,
                    Some(v) => Some(v * radix + d),
                }
            },
        }
    }
}

/// A number without a sign of its own: digits, with `+` allowed before
/// them, that stand for no more than `max`.
pub open spec fn spec_unsigned(s: Seq<u8>, radix: int, max: int) -> Option<int> {
    let digits = if s.len() > 0 && s[0] == 0x2b {
        s.subrange(1, s.len() as int)
    } else {
        s
    };
    match spec_digits(digits, radix) {
        Some(v) => if v <= max {
            Some(v)
        } else {
            None
        },
        None => None,
    }
}

/// A decimal number with an optional sign that lies from `min` to `max`.
pub open spec fn spec_signed(s: Seq<u8>, min: int, max: int) -> Option<int> {
    if s.len() > 0 && s[0] == 0x2d {
        match spec_digits(s.subrange(1, s.len() as int), 10) {
            Some(v) => if -v >= min {
                Some(-v)
            } else {
                None
            },
            None => None,
        }
    } else {
        spec_unsigned(s, 10, max)
    }
}

/// A run of digits stands for a number if and only if each shorter run from
/// the same start does, and for no less than those.
pub proof fn lemma_digits_prefix(s: Seq<u8>, radix: int, k: int)
    requires
        1 <= k <= s.len(),
        1 <= radix <= 36,
    ensures
        spec_digits(s.subrange(0, k), radix) is None ==> spec_digits(s, radix) is None,
        spec_digits(s, radix) matches Some(w) ==> spec_digits(s.subrange(0, k), radix) matches Some(
            v,
        ) && 0 <= v <= w,
    decreases s.len() - k,
{
    if k < s.len() {
        lemma_digits_prefix(s.drop_last(), radix, k);
        assert(s.drop_last().subrange(0, k) =~= s.subrange(0, k));
        lemma_digits_nonnegative(s.drop_last(), radix);
        if let Some(v) = spec_digits(s.drop_last(), radix) {
            if let Some(d) = spec_digit(s.last(), radix) {
                assert(v * radix + d >= v) by (nonlinear_arith)
                    requires
                        v >= 0,
                        radix >= 1,
                        d >= 0,
                ;
            }
        }
    } else {
        assert(s.subrange(0, k) =~= s);
        lemma_digits_nonnegative(s, radix);
    }
}

/// A run of digits stands for no negative number.
pub proof fn lemma_digits_nonnegative(s: Seq<u8>, radix: int)
    requires
        1 <= radix <= 36,
    ensures
        spec_digits(s, radix) matches Some(v) ==> v >= 0,
    decreases s.len(),
{
    if s.len() > 1 {
        lemma_digits_nonnegative(s.drop_last(), radix);
        if let Some(v) = spec_digits(s.drop_last(), radix) {
            if let Some(d) = spec_digit(s.last(), radix) {
                assert(v * radix + d >= 0) by (nonlinear_arith)
                    requires
                        v >= 0,
                        radix >= 1,
                        d >= 0,
                ;
            }
        }
    }
}

fn digit_value(b: u8, radix: u8) -> (r: Option<u8>)
    requires
        radix <= 36,
    ensures
        r matches Some(d) ==> spec_digit(b, radix as int) == Some(d as int),
        r is None ==> spec_digit(b, radix as int) is None,
{
    let v: u8 = if 0x30 <= b && b <= 0x39 {
        b - 0x30
    } else if 0x61 <= b && b <= 0x7a {
        b - 0x61 + 10
    } else if 0x41 <= b && b <= 0x5a {
        b - 0x41 + 10
    } else {
        36
    };
    if v < radix {
        Some(v)
    } else {
        None
    }
}

/// Reads the digits of `bytes` from `start` to the end as a number of no
/// more than `limit`.
fn take_digits(bytes: &[u8], start: usize, radix: u8, limit: u64) -> (r: Option<u64>)
    requires
        start <= bytes@.len(),
        2 <= radix <= 36,
    ensures
        r matches Some(v) ==> spec_digits(
            bytes@.subrange(start as int, bytes@.len() as int),
            radix as int,
        ) == Some(v as int) && v <= limit,
        r is None ==> (match spec_digits(
            bytes@.subrange(start as int, bytes@.len() as int),
            radix as int,
        ) {
            Some(v) => v > limit,
            None => true,
        }),
{
    let ghost run = bytes@.subrange(start as int, bytes@.len() as int);
    if start == bytes.len() {
        return None;
    }
    let mut acc: u128 = 0;
    let mut i: usize = start;
    while i < bytes.len()
        invariant
            start <= i <= bytes@.len(),
            2 <= radix <= 36,
            run == bytes@.subrange(start as int, bytes@.len() as int),
            acc <= limit,
            i == start ==> acc == 0,
            i > start ==> spec_digits(run.subrange(0, i - start), radix as int) == Some(acc as int),
        decreases bytes@.len() - i,
    {
        let ghost shorter = run.subrange(0, i - start);
        let ghost longer = run.subrange(0, i + 1 - start);
        proof {
            assert(longer.last() == bytes@[i as int]);
            assert(longer.drop_last() =~= shorter);
            lemma_digits_prefix(run, radix as int, i + 1 - start);
        }
        match digit_value(bytes[i], radix) {
            None => {
                return None;
            },
            Some(d) => {
                assert(acc * (radix as u128) <= 0xffff_ffff_ffff_ffff * 36) by (nonlinear_arith)
                    requires
                        acc <= 0xffff_ffff_ffff_ffff,
                        radix <= 36,
                ;
                let next: u128 = acc * (radix as u128) + d as u128;
                proof {
                    assert(spec_digit(longer.last(), radix as int) == Some(d as int));
                    if i == start {
                        assert(longer.len() == 1);
                        assert(acc * (radix as u128) == 0) by (nonlinear_arith)
                            requires
                                acc == 0,
                        ;
                    } else {
                        assert(spec_digits(longer.drop_last(), radix as int) == Some(acc as int));
                    }
                    assert(spec_digits(longer, radix as int) == Some(next as int));
                }
                if next > limit as u128 {
                    return None;
                }
                acc = next;
            },
        }
        i = i + 1;
    }
    assert(run.subrange(0, i - start) =~= run);
    Some(acc as u64)
}

fn take_unsigned(bytes: &[u8], radix: u8, max: u64) -> (r: Option<u64>)
    requires
        2 <= radix <= 36,
    ensures
        r matches Some(v) ==> spec_unsigned(bytes@, radix as int, max as int) == Some(v as int),
        r is None ==> spec_unsigned(bytes@, radix as int, max as int) is None,
{
    let start: usize = if bytes.len() > 0 && bytes[0] == 0x2b {
        1
    } else {
        0
    };
    assert(bytes@.subrange(0, bytes@.len() as int) =~= bytes@);
    take_digits(bytes, start, radix, max)
}

fn take_signed(bytes: &[u8], min_magnitude: u64, max: u64) -> (r: Option<i64>)
    requires
        min_magnitude <= 0x8000_0000_0000_0000,
        max <= 0x7fff_ffff_ffff_ffff,
    ensures
        r matches Some(v) ==> spec_signed(bytes@, -(min_magnitude as int), max as int) == Some(
            v as int,
        ) && -(min_magnitude as int) <= v <= max,
        r is None ==> spec_signed(bytes@, -(min_magnitude as int), max as int) is None,
{
    if bytes.len() > 0 && bytes[0] == 0x2d {
        match take_digits(bytes, 1, 10, min_magnitude) {
            None => None,
            Some(v) => {
                if v == 0x8000_0000_0000_0000 {
                    Some(i64::MIN)
                } else {
                    Some(-(v as i64))
                }
            },
        }
    } else {
        match take_unsigned(bytes, 10, max) {
            None => None,
            Some(v) => Some(v as i64),
        }
    }
}

/// A decimal `i16` with an optional sign.
pub fn i16_from_dec(bytes: &[u8]) -> (r: Result<i16, ()>)
    ensures
        r matches Ok(v) ==> spec_signed(bytes@, -0x8000, 0x7fff) == Some(v as int),
        r is Err ==> spec_signed(bytes@, -0x8000, 0x7fff) is None,
{
    match take_signed(bytes, 0x8000, 0x7fff) {
        Some(v) => Ok(v as i16),
        None => Err(()),
    }
}

/// A decimal `i64` with an optional sign.
pub fn i64_from_dec(bytes: &[u8]) -> (r: Result<i64, ()>)
    ensures
        r matches Ok(v) ==> spec_signed(
            bytes@,
            -0x8000_0000_0000_0000,
            0x7fff_ffff_ffff_ffff,
        ) == Some(v as int),
        r is Err ==> spec_signed(bytes@, -0x8000_0000_0000_0000, 0x7fff_ffff_ffff_ffff) is None,
{
    match take_signed(bytes, 0x8000_0000_0000_0000, 0x7fff_ffff_ffff_ffff) {
        Some(v) => Ok(v),
        None => Err(()),
    }
}

/// A decimal `u16`.
pub fn u16_from_dec(bytes: &[u8]) -> (r: Result<u16, ()>)
    ensures
        r matches Ok(v) ==> spec_unsigned(bytes@, 10, 0xffff) == Some(v as int),
        r is Err ==> spec_unsigned(bytes@, 10, 0xffff) is None,
{
    match take_unsigned(bytes, 10, 0xffff) {
        Some(v) => Ok(v as u16),
        None => Err(()),
    }
}

/// A decimal `u32`.
pub fn u32_from_dec(bytes: &[u8]) -> (r: Result<u32, ()>)
    ensures
        r matches Ok(v) ==> spec_unsigned(bytes@, 10, 0xffff_ffff) == Some(v as int),
        r is Err ==> spec_unsigned(bytes@, 10, 0xffff_ffff) is None,
{
    match take_unsigned(bytes, 10, 0xffff_ffff) {
        Some(v) => Ok(v as u32),
        None => Err(()),
    }
}

/// A hexadecimal `u32`.
pub fn u32_from_hex(bytes: &[u8]) -> (r: Result<u32, ()>)
    ensures
        r matches Ok(v) ==> spec_unsigned(bytes@, 16, 0xffff_ffff) == Some(v as int),
        r is Err ==> spec_unsigned(bytes@, 16, 0xffff_ffff) is None,
{
    match take_unsigned(bytes, 16, 0xffff_ffff) {
        Some(v) => Ok(v as u32),
        None => Err(()),
    }
}

/// `std::str::from_utf8`: the bytes as a string slice if they are valid
/// UTF-8, and nothing if they are not.
#[verifier::external_body]
fn utf8_checked(bytes: &[u8]) -> (r: Option<&str>)
    ensures
        r is Some <==> valid_utf8(bytes@),
        r matches Some(text) ==> encode_utf8(text@) == bytes@,
{
    match std::str::from_utf8(bytes) {
        Ok(text) => Some(text),
        Err(_) => None,
    }
}

/// The text that the bytes spell in UTF-8.
pub open spec fn spec_str_from_bytes(bytes: Seq<u8>) -> Option<Seq<char>> {
    if valid_utf8(bytes) {
        Some(decode_utf8(bytes))
    } else {
        None
    }
}

/// The bytes as text, where they are valid UTF-8.
pub fn str_from_bytes(bytes: &[u8]) -> (r: Result<&str, ()>)
    ensures
        r matches Ok(text) ==> spec_str_from_bytes(bytes@) == Some(text@) && encode_utf8(text@)
            == bytes@,
        r is Err ==> spec_str_from_bytes(bytes@) is None,
{
    match utf8_checked(bytes) {
        Some(text) => {
            proof {
                vstd::utf8::encode_utf8_decode_utf8(text@);
            }
            Ok(text)
        },
        None => Err(()),
    }
}

/// A flag: a decimal `u16` that is not zero.
pub open spec fn spec_bool_from_dec(bytes: Seq<u8>) -> Option<bool> {
    match spec_unsigned(bytes, 10, 0xffff) {
        Some(v) => Some(v != 0),
        None => None,
    }
}

/// Reads a flag.
pub fn bool_from_dec(bytes: &[u8]) -> (r: Result<bool, ()>)
    ensures
        r matches Ok(v) ==> spec_bool_from_dec(bytes@) == Some(v),
        r is Err ==> spec_bool_from_dec(bytes@) is None,
{
    match u16_from_dec(bytes) {
        Ok(v) => Ok(v != 0),
        Err(e) => Err(e),
    }
}

/// The encoding that a code stands for.
pub open spec fn spec_encoding_of_code(code: int) -> Option<RawFieldEncoding> {
    if code == 0 {
        Some(RawFieldEncoding::SignedVB)
    } else if code == 1 {
        Some(RawFieldEncoding::UnsignedVB)
    } else if code == 3 {
        Some(RawFieldEncoding::Negative14BitVB)
    } else if code == 6 {
        Some(RawFieldEncoding::Tag8_8SVB)
    } else if code == 7 {
        Some(RawFieldEncoding::Tag2_3S32)
    } else if code == 8 {
        Some(RawFieldEncoding::Tag8_4S16)
    } else if code == 9 {
        Some(RawFieldEncoding::Null)
    } else if code == 10 {
        Some(RawFieldEncoding::Tag2_3SVariable)
    } else {
        None
    }
}

/// An encoding, written as its decimal code.
pub open spec fn spec_field_encoding_from_dec(bytes: Seq<u8>) -> Option<RawFieldEncoding> {
    match spec_unsigned(bytes, 10, 0xffff) {
        Some(code) => spec_encoding_of_code(code),
        None => None,
    }
}

/// Reads the code of an encoding.
pub fn field_encoding_from_dec(bytes: &[u8]) -> (r: Result<RawFieldEncoding, ()>)
    ensures
        r matches Ok(v) ==> spec_field_encoding_from_dec(bytes@) == Some(v),
        r is Err ==> spec_field_encoding_from_dec(bytes@) is None,
{
    let code: u16 = match u16_from_dec(bytes) {
        Ok(v) => v,
        Err(e) => {
            return Err(e);
        },
    };
    if code == 0 {
        Ok(RawFieldEncoding::SignedVB)
    } else if code == 1 {
        Ok(RawFieldEncoding::UnsignedVB)
    } else if code == 3 {
        Ok(RawFieldEncoding::Negative14BitVB)
    } else if code == 6 {
        Ok(RawFieldEncoding::Tag8_8SVB)
    } else if code == 7 {
        Ok(RawFieldEncoding::Tag2_3S32)
    } else if code == 8 {
        Ok(RawFieldEncoding::Tag8_4S16)
    } else if code == 9 {
        Ok(RawFieldEncoding::Null)
    } else if code == 10 {
        Ok(RawFieldEncoding::Tag2_3SVariable)
    } else {
        Err(())
    }
}

/// The predictor that a code stands for.
pub open spec fn spec_predictor_of_code(code: int) -> Option<FieldPredictor> {
    if code == 0 {
        Some(FieldPredictor::Zero)
    } else if code == 1 {
        Some(FieldPredictor::Previous)
    } else if code == 2 {
        Some(FieldPredictor::StraightLine)
    } else if code == 3 {
        Some(FieldPredictor::Average2)
    } else if code == 4 {
        Some(FieldPredictor::MinThrottle)
    } else if code == 5 {
        Some(FieldPredictor::Motor0)
    } else if code == 6 {
        Some(FieldPredictor::Increment)
    } else if code == 7 {
        Some(FieldPredictor::HomeCoordinates)
    } else if code == 8 {
        Some(FieldPredictor::Around1500)
    } else if code == 9 {
        Some(FieldPredictor::VBatRef)
    } else if code == 10 {
        Some(FieldPredictor::LastMainFrameTime)
    } else if code == 11 {
        Some(FieldPredictor::MinMotor)
    } else {
        None
    }
}

/// A predictor, written as its decimal code.
pub open spec fn spec_field_predictor_from_dec(bytes: Seq<u8>) -> Option<FieldPredictor> {
    match spec_unsigned(bytes, 10, 0xffff) {
        Some(code) => spec_predictor_of_code(code),
        None => None,
    }
}

/// Reads the code of a predictor.
pub fn field_predictor_from_dec(bytes: &[u8]) -> (r: Result<FieldPredictor, ()>)
    ensures
        r matches Ok(v) ==> spec_field_predictor_from_dec(bytes@) == Some(v),
        r is Err ==> spec_field_predictor_from_dec(bytes@) is None,
{
    let code: u16 = match u16_from_dec(bytes) {
        Ok(v) => v,
        Err(e) => {
            return Err(e);
        },
    };
    if code == 0 {
        Ok(FieldPredictor::Zero)
    } else if code == 1 {
        Ok(FieldPredictor::Previous)
    } else if code == 2 {
        Ok(FieldPredictor::StraightLine)
    } else if code == 3 {
        Ok(FieldPredictor::Average2)
    } else if code == 4 {
        Ok(FieldPredictor::MinThrottle)
    } else if code == 5 {
        Ok(FieldPredictor::Motor0)
    } else if code == 6 {
        Ok(FieldPredictor::Increment)
    } else if code == 7 {
        Ok(FieldPredictor::HomeCoordinates)
    } else if code == 8 {
        Ok(FieldPredictor::Around1500)
    } else if code == 9 {
        Ok(FieldPredictor::VBatRef)
    } else if code == 10 {
        Ok(FieldPredictor::LastMainFrameTime)
    } else if code == 11 {
        Ok(FieldPredictor::MinMotor)
    } else {
        Err(())
    }
}

/// The value of a header line that starts at `pos`: the bytes up to the
/// next newline, or nothing where the input ends before one.
pub open spec fn spec_line_value(s: Seq<u8>, pos: int) -> Option<(int, Seq<u8>)> {
    match spec_find_byte(s, pos, NEWLINE) {
        None => None,
        Some(end) => Some((end, s.subrange(pos, end))),
    }
}

/// What a parser of line values gives: the place of the newline and the
/// value as `convert` reads it; incomplete without a newline, a soft fault
/// where `convert` rejects the value.
pub open spec fn spec_parse_value<T>(
    s: Seq<u8>,
    pos: int,
    convert: spec_fn(Seq<u8>) -> Option<T>,
) -> Result<(int, T), Fault> {
    match spec_line_value(s, pos) {
        None => Err(Fault::Incomplete),
        Some((end, value)) => match convert(value) {
            None => Err(Fault::Soft),
            Some(v) => Ok((end, v)),
        },
    }
}

/// Finds the end of the line that holds `pos` and hands out its bytes from
/// `pos` on.
pub fn line_value(input: &[u8], pos: usize) -> (r: Option<(usize, &[u8])>)
    ensures
        r matches Some((end, value)) ==> spec_line_value(input@, pos as int) == Some(
            (end as int, value@),
        ) && pos <= end < input@.len(),
        r is None ==> spec_line_value(input@, pos as int) is None,
{
    match find_byte(input, pos, NEWLINE) {
        None => None,
        Some(end) => Some((end, slice_subrange(input, pos, end))),
    }
}

/// Reads a line value as text.
pub fn parse_str(input: &[u8], pos: usize) -> (r: Result<(usize, &str), Fault>)
    ensures
        r matches Ok((end, text)) ==> spec_parse_value(
            input@,
            pos as int,
            |v: Seq<u8>| spec_str_from_bytes(v),
        ) == Ok::<(int, Seq<char>), Fault>((end as int, text@)) && pos <= end < input@.len(),
        r matches Err(e) ==> spec_parse_value(
            input@,
            pos as int,
            |v: Seq<u8>| spec_str_from_bytes(v),
        ) == Err::<(int, Seq<char>), Fault>(e),
{
    match line_value(input, pos) {
        None => Err(Fault::Incomplete),
        Some((end, value)) => match str_from_bytes(value) {
            Ok(text) => Ok((end, text)),
            Err(_) => Err(Fault::Soft),
        },
    }
}

/// A decimal `i16` as a plain number.
pub open spec fn spec_i16_from_dec(bytes: Seq<u8>) -> Option<i16> {
    match spec_signed(bytes, -0x8000, 0x7fff) {
        Some(v) => Some(v as i16),
        None => None,
    }
}

/// A decimal `u16` as a plain number.
pub open spec fn spec_u16_from_dec(bytes: Seq<u8>) -> Option<u16> {
    match spec_unsigned(bytes, 10, 0xffff) {
        Some(v) => Some(v as u16),
        None => None,
    }
}

/// A decimal `u32` as a plain number.
pub open spec fn spec_u32_from_dec(bytes: Seq<u8>) -> Option<u32> {
    match spec_unsigned(bytes, 10, 0xffff_ffff) {
        Some(v) => Some(v as u32),
        None => None,
    }
}

/// A hexadecimal `u32` behind the prefix `0x`.
pub open spec fn spec_u32_from_prefixed_hex(bytes: Seq<u8>) -> Option<u32> {
    if bytes.len() >= 2 && bytes[0] == 0x30 && bytes[1] == 0x78 {
        match spec_unsigned(bytes.subrange(2, bytes.len() as int), 16, 0xffff_ffff) {
            Some(v) => Some(v as u32),
            None => None,
        }
    } else {
        None
    }
}

/// Reads a line value as a decimal `i16`.
pub fn parse_i16_dec(input: &[u8], pos: usize) -> (r: Result<(usize, i16), Fault>)
    ensures
        r matches Ok((end, value)) ==> spec_parse_value(
            input@,
            pos as int,
            |v: Seq<u8>| spec_i16_from_dec(v),
        ) == Ok::<(int, i16), Fault>((end as int, value)) && pos <= end < input@.len(),
        r matches Err(e) ==> spec_parse_value(input@, pos as int, |v: Seq<u8>| spec_i16_from_dec(v))
            == Err::<(int, i16), Fault>(e),
{
    match line_value(input, pos) {
        None => Err(Fault::Incomplete),
        Some((end, value)) => match i16_from_dec(value) {
            Ok(v) => Ok((end, v)),
            Err(_) => Err(Fault::Soft),
        },
    }
}

/// Reads a line value as a decimal `u16`.
pub fn parse_u16_dec(input: &[u8], pos: usize) -> (r: Result<(usize, u16), Fault>)
    ensures
        r matches Ok((end, value)) ==> spec_parse_value(
            input@,
            pos as int,
            |v: Seq<u8>| spec_u16_from_dec(v),
        ) == Ok::<(int, u16), Fault>((end as int, value)) && pos <= end < input@.len(),
        r matches Err(e) ==> spec_parse_value(input@, pos as int, |v: Seq<u8>| spec_u16_from_dec(v))
            == Err::<(int, u16), Fault>(e),
{
    match line_value(input, pos) {
        None => Err(Fault::Incomplete),
        Some((end, value)) => match u16_from_dec(value) {
            Ok(v) => Ok((end, v)),
            Err(_) => Err(Fault::Soft),
        },
    }
}

/// Reads a line value as a decimal `u32`.
pub fn parse_u32_dec(input: &[u8], pos: usize) -> (r: Result<(usize, u32), Fault>)
    ensures
        r matches Ok((end, value)) ==> spec_parse_value(
            input@,
            pos as int,
            |v: Seq<u8>| spec_u32_from_dec(v),
        ) == Ok::<(int, u32), Fault>((end as int, value)) && pos <= end < input@.len(),
        r matches Err(e) ==> spec_parse_value(input@, pos as int, |v: Seq<u8>| spec_u32_from_dec(v))
            == Err::<(int, u32), Fault>(e),
{
    match line_value(input, pos) {
        None => Err(Fault::Incomplete),
        Some((end, value)) => match u32_from_dec(value) {
            Ok(v) => Ok((end, v)),
            Err(_) => Err(Fault::Soft),
        },
    }
}

/// Reads a line value as a hexadecimal `u32` behind `0x`.
pub fn parse_u32_hex(input: &[u8], pos: usize) -> (r: Result<(usize, u32), Fault>)
    ensures
        r matches Ok((end, value)) ==> spec_parse_value(
            input@,
            pos as int,
            |v: Seq<u8>| spec_u32_from_prefixed_hex(v),
        ) == Ok::<(int, u32), Fault>(
            (end as int, value),
        ) && pos <= end < input@.len(),
        r matches Err(e) ==> spec_parse_value(
            input@,
            pos as int,
            |v: Seq<u8>| spec_u32_from_prefixed_hex(v),
        ) == Err::<(int, u32), Fault>(e),
{
    match line_value(input, pos) {
        None => Err(Fault::Incomplete),
        Some((end, value)) => {
            if value.len() < 2 || value[0] != 0x30 || value[1] != 0x78 {
                return Err(Fault::Soft);
            }
            match u32_from_hex(slice_subrange(value, 2, value.len())) {
                Ok(v) => Ok((end, v)),
                Err(_) => Err(Fault::Soft),
            }
        },
    }
}

/// A ratio written as two decimal `u16` with a slash between them, in
/// lowest terms. A zero denominator is no ratio.
pub open spec fn spec_u16_ratio_dec(bytes: Seq<u8>) -> Option<PInterval> {
    match spec_find_byte(bytes, 0, SLASH) {
        None => None,
        Some(slash) => match (
            spec_u16_from_dec(bytes.subrange(0, slash)),
            spec_u16_from_dec(bytes.subrange(slash + 1, bytes.len() as int)),
        ) {
            (Some(numer), Some(denom)) => PInterval::spec_new(numer, denom),
            _ => None,
        },
    }
}

/// A ratio, or a lone denominator that stands for one over it.
pub open spec fn spec_u16_ratio_dec_or_inverse_dec(bytes: Seq<u8>) -> Option<PInterval> {
    match spec_u16_ratio_dec(bytes) {
        Some(ratio) => Some(ratio),
        None => match spec_u16_from_dec(bytes) {
            Some(denom) => PInterval::spec_new(1, denom),
            None => None,
        },
    }
}

fn u16_ratio_from_dec(value: &[u8]) -> (r: Option<PInterval>)
    ensures
        r == spec_u16_ratio_dec(value@),
        r matches Some(p) ==> p.wf(),
{
    let len: usize = value.len();
    match find_byte(value, 0, SLASH) {
        None => None,
        Some(slash) => {
            let numer: u16 = match u16_from_dec(slice_subrange(value, 0, slash)) {
                Ok(v) => v,
                Err(_) => {
                    return None;
                },
            };
            let denom: u16 = match u16_from_dec(slice_subrange(value, slash + 1, len)) {
                Ok(v) => v,
                Err(_) => {
                    return None;
                },
            };
            PInterval::new(numer, denom)
        },
    }
}

/// Reads a line value as a ratio of two decimal `u16`.
pub fn parse_u16_ratio_dec(input: &[u8], pos: usize) -> (r: Result<(usize, PInterval), Fault>)
    ensures
        r matches Ok((end, value)) ==> spec_parse_value(
            input@,
            pos as int,
            |v: Seq<u8>| spec_u16_ratio_dec(v),
        ) == Ok::<(int, PInterval), Fault>((end as int, value)) && pos <= end < input@.len() && value.wf(),
        r matches Err(e) ==> spec_parse_value(input@, pos as int, |v: Seq<u8>| spec_u16_ratio_dec(v))
            == Err::<(int, PInterval), Fault>(e),
{
    match line_value(input, pos) {
        None => Err(Fault::Incomplete),
        Some((end, value)) => match u16_ratio_from_dec(value) {
            Some(v) => Ok((end, v)),
            None => Err(Fault::Soft),
        },
    }
}

/// Reads a line value as a ratio, or as a lone denominator.
pub fn parse_u16_ratio_dec_or_inverse_dec(input: &[u8], pos: usize) -> (r: Result<
    (usize, PInterval),
    Fault,
>)
    ensures
        r matches Ok((end, value)) ==> spec_parse_value(
            input@,
            pos as int,
            |v: Seq<u8>| spec_u16_ratio_dec_or_inverse_dec(v),
        ) == Ok::<(int, PInterval), Fault>(
            (end as int, value),
        ) && pos <= end < input@.len() && value.wf(),
        r matches Err(e) ==> spec_parse_value(
            input@,
            pos as int,
            |v: Seq<u8>| spec_u16_ratio_dec_or_inverse_dec(v),
        ) == Err::<(int, PInterval), Fault>(e),
{
    match line_value(input, pos) {
        None => Err(Fault::Incomplete),
        Some((end, value)) => match u16_ratio_from_dec(value) {
            Some(v) => Ok((end, v)),
            None => match u16_from_dec(value) {
                Err(_) => Err(Fault::Soft),
                Ok(denom) => match PInterval::new(1, denom) {
                    Some(v) => Ok((end, v)),
                    None => Err(Fault::Soft),
                },
            },
        },
    }
}

/// The places of the items of a list from `start` on: each runs up to the
/// next comma, the last to the end.
pub open spec fn spec_item_ranges(value: Seq<u8>, start: int) -> Seq<(int, int)>
    decreases value.len() - start,
{
    match spec_find_byte(value, start, COMMA) {
        Some(comma) if start <= comma < value.len() => seq![(start, comma)] + spec_item_ranges(
            value,
            comma + 1,
        ),
        _ => seq![(start, value.len() as int)],
    }
}

/// The items of a list that is not empty: the bytes between its commas.
pub open spec fn spec_items(value: Seq<u8>) -> Seq<Seq<u8>> {
    Seq::new(
        spec_item_ranges(value, 0).len(),
        |i: int| value.subrange(spec_item_ranges(value, 0)[i].0, spec_item_ranges(value, 0)[i].1),
    )
}

/// A list of names. The empty value is the empty list; an empty item, or
/// one that is not valid UTF-8, makes the whole value no list.
pub open spec fn spec_str_list(value: Seq<u8>) -> Option<Seq<Seq<char>>> {
    if value.len() == 0 {
        Some(Seq::empty())
    } else if forall|i: int|
        0 <= i < spec_items(value).len() ==> (#[trigger] spec_items(value)[i]).len() > 0
            && spec_str_from_bytes(spec_items(value)[i]) is Some {
        Some(
            Seq::new(
                spec_items(value).len(),
                |i: int| spec_str_from_bytes(spec_items(value)[i])->0,
            ),
        )
    } else {
        None
    }
}

/// A list of flags, each a decimal number.
pub open spec fn spec_bool_list(value: Seq<u8>) -> Option<Seq<bool>> {
    if value.len() == 0 {
        Some(Seq::empty())
    } else if forall|i: int|
        0 <= i < spec_items(value).len() ==> (#[trigger] spec_items(value)[i]).len() > 0
            && spec_bool_from_dec(spec_items(value)[i]) is Some {
        Some(
            Seq::new(
                spec_items(value).len(),
                |i: int| spec_bool_from_dec(spec_items(value)[i])->0,
            ),
        )
    } else {
        None
    }
}

/// A list of encodings, each a decimal code.
pub open spec fn spec_encoding_list(value: Seq<u8>) -> Option<Seq<RawFieldEncoding>> {
    if value.len() == 0 {
        Some(Seq::empty())
    } else if forall|i: int|
        0 <= i < spec_items(value).len() ==> (#[trigger] spec_items(value)[i]).len() > 0
            && spec_field_encoding_from_dec(spec_items(value)[i]) is Some {
        Some(
            Seq::new(
                spec_items(value).len(),
                |i: int| spec_field_encoding_from_dec(spec_items(value)[i])->0,
            ),
        )
    } else {
        None
    }
}

/// A list of predictors, each a decimal code.
pub open spec fn spec_predictor_list(value: Seq<u8>) -> Option<Seq<FieldPredictor>> {
    if value.len() == 0 {
        Some(Seq::empty())
    } else if forall|i: int|
        0 <= i < spec_items(value).len() ==> (#[trigger] spec_items(value)[i]).len() > 0
            && spec_field_predictor_from_dec(spec_items(value)[i]) is Some {
        Some(
            Seq::new(
                spec_items(value).len(),
                |i: int| spec_field_predictor_from_dec(spec_items(value)[i])->0,
            ),
        )
    } else {
        None
    }
}

/// The texts of a list of strings.
pub open spec fn spec_texts(strings: Seq<String>) -> Seq<Seq<char>> {
    Seq::new(strings.len(), |i: int| strings[i]@)
}

/// Every range that `spec_item_ranges` gives lies in the value.
pub proof fn lemma_item_ranges(value: Seq<u8>, start: int)
    requires
        0 <= start <= value.len(),
    ensures
        forall|i: int|
            0 <= i < spec_item_ranges(value, start).len() ==> start <= (
            #[trigger] spec_item_ranges(value, start)[i]).0 <= spec_item_ranges(value, start)[i].1
                <= value.len(),
        spec_item_ranges(value, start).len() >= 1,
    decreases value.len() - start,
{
    lemma_find_byte(value, start, COMMA);
    if let Some(comma) = spec_find_byte(value, start, COMMA) {
        lemma_item_ranges(value, comma + 1);
    }
}

/// Splits a list at its commas.
pub fn split_items(value: &[u8]) -> (r: Vec<(usize, usize)>)
    ensures
        r@.len() == spec_item_ranges(value@, 0).len(),
        forall|i: int|
            0 <= i < r@.len() ==> (#[trigger] r@[i]).0 == spec_item_ranges(value@, 0)[i].0 && r@[i].1
                == spec_item_ranges(value@, 0)[i].1 && r@[i].0 <= r@[i].1 <= value@.len(),
{
    let mut ranges: Vec<(usize, usize)> = Vec::new();
    let mut start: usize = 0;
    let ghost whole = spec_item_ranges(value@, 0);
    proof {
        lemma_item_ranges(value@, 0);
    }
    let len: usize = value.len();
    loop
        invariant_except_break
            whole == Seq::new(ranges@.len(), |i: int| (ranges@[i].0 as int, ranges@[i].1 as int))
                + spec_item_ranges(value@, start as int),
        invariant
            len == value@.len(),
            start <= value@.len(),
            whole == spec_item_ranges(value@, 0),
            forall|i: int| 0 <= i < ranges@.len() ==> (#[trigger] ranges@[i]).0 <= ranges@[i].1
                <= value@.len(),
        ensures
            ranges@.len() == whole.len(),
            forall|i: int|
                0 <= i < ranges@.len() ==> (#[trigger] ranges@[i]).0 == whole[i].0 && ranges@[i].1
                    == whole[i].1 && ranges@[i].0 <= ranges@[i].1 <= value@.len(),
        decreases value@.len() - start,
    {
        let ghost done = Seq::new(
            ranges@.len(),
            |i: int| (ranges@[i].0 as int, ranges@[i].1 as int),
        );
        match find_byte(value, start, COMMA) {
            None => {
                ranges.push((start, len));
                assert(whole =~= Seq::new(
                    ranges@.len(),
                    |i: int| (ranges@[i].0 as int, ranges@[i].1 as int),
                ));
                break ;
            },
            Some(comma) => {
                ranges.push((start, comma));
                assert(done + (seq![(start as int, comma as int)] + spec_item_ranges(
                    value@,
                    comma + 1,
                )) =~= Seq::new(
                    ranges@.len(),
                    |i: int| (ranges@[i].0 as int, ranges@[i].1 as int),
                ) + spec_item_ranges(value@, comma + 1));
                start = comma + 1;
            },
        }
    }
    ranges
}

/// Reads a list of names.
pub fn str_list(value: &[u8]) -> (r: Option<Vec<String>>)
    ensures
        r matches Some(v) ==> spec_str_list(value@) == Some(spec_texts(v@)),
        r is None ==> spec_str_list(value@) is None,
{
    let mut out: Vec<String> = Vec::new();
    if value.len() == 0 {
        assert(spec_texts(out@) =~= Seq::<Seq<char>>::empty());
        return Some(out);
    }
    let ranges = split_items(value);
    let ghost items = spec_items(value@);
    let mut i: usize = 0;
    while i < ranges.len()
        invariant
            value@.len() > 0,
            items == spec_items(value@),
            ranges@.len() == items.len(),
            forall|k: int|
                0 <= k < ranges@.len() ==> (#[trigger] ranges@[k]).0 <= ranges@[k].1
                    <= value@.len() && items[k] == value@.subrange(
                    ranges@[k].0 as int,
                    ranges@[k].1 as int,
                ),
            i <= ranges@.len(),
            out@.len() == i,
            forall|k: int|
                0 <= k < i ==> (#[trigger] items[k]).len() > 0 && spec_str_from_bytes(items[k])
                    == Some(out@[k]@),
        decreases ranges@.len() - i,
    {
        let (from, to) = ranges[i];
        if from == to {
            assert(items[i as int].len() == 0);
            return None;
        }
        match str_from_bytes(slice_subrange(value, from, to)) {
            Err(_) => {
                assert(spec_str_from_bytes(items[i as int]) is None);
                return None;
            },
            Ok(text) => {
                out.push(text.to_owned());
            },
        }
        i = i + 1;
    }
    assert(spec_texts(out@) =~= spec_str_list(value@)->0);
    Some(out)
}

/// Reads a list of flags.
pub fn bool_list(value: &[u8]) -> (r: Option<Vec<bool>>)
    ensures
        r matches Some(v) ==> spec_bool_list(value@) == Some(v@),
        r is None ==> spec_bool_list(value@) is None,
{
    let mut out: Vec<bool> = Vec::new();
    if value.len() == 0 {
        assert(out@ =~= Seq::<bool>::empty());
        return Some(out);
    }
    let ranges = split_items(value);
    let ghost items = spec_items(value@);
    let mut i: usize = 0;
    while i < ranges.len()
        invariant
            value@.len() > 0,
            items == spec_items(value@),
            ranges@.len() == items.len(),
            forall|k: int|
                0 <= k < ranges@.len() ==> (#[trigger] ranges@[k]).0 <= ranges@[k].1
                    <= value@.len() && items[k] == value@.subrange(
                    ranges@[k].0 as int,
                    ranges@[k].1 as int,
                ),
            i <= ranges@.len(),
            out@.len() == i,
            forall|k: int|
                0 <= k < i ==> (#[trigger] items[k]).len() > 0 && spec_bool_from_dec(items[k])
                    == Some(out@[k]),
        decreases ranges@.len() - i,
    {
        let (from, to) = ranges[i];
        if from == to {
            assert(items[i as int].len() == 0);
            return None;
        }
        match bool_from_dec(slice_subrange(value, from, to)) {
            Err(_) => {
                assert(spec_bool_from_dec(items[i as int]) is None);
                return None;
            },
            Ok(v) => {
                out.push(v);
            },
        }
        i = i + 1;
    }
    assert(out@ =~= spec_bool_list(value@)->0);
    Some(out)
}

/// Reads a list of encodings.
pub fn encoding_list(value: &[u8]) -> (r: Option<Vec<RawFieldEncoding>>)
    ensures
        r matches Some(v) ==> spec_encoding_list(value@) == Some(v@),
        r is None ==> spec_encoding_list(value@) is None,
{
    let mut out: Vec<RawFieldEncoding> = Vec::new();
    if value.len() == 0 {
        assert(out@ =~= Seq::<RawFieldEncoding>::empty());
        return Some(out);
    }
    let ranges = split_items(value);
    let ghost items = spec_items(value@);
    let mut i: usize = 0;
    while i < ranges.len()
        invariant
            value@.len() > 0,
            items == spec_items(value@),
            ranges@.len() == items.len(),
            forall|k: int|
                0 <= k < ranges@.len() ==> (#[trigger] ranges@[k]).0 <= ranges@[k].1
                    <= value@.len() && items[k] == value@.subrange(
                    ranges@[k].0 as int,
                    ranges@[k].1 as int,
                ),
            i <= ranges@.len(),
            out@.len() == i,
            forall|k: int|
                0 <= k < i ==> (#[trigger] items[k]).len() > 0 && spec_field_encoding_from_dec(
                    items[k],
                ) == Some(out@[k]),
        decreases ranges@.len() - i,
    {
        let (from, to) = ranges[i];
        if from == to {
            assert(items[i as int].len() == 0);
            return None;
        }
        match field_encoding_from_dec(slice_subrange(value, from, to)) {
            Err(_) => {
                assert(spec_field_encoding_from_dec(items[i as int]) is None);
                return None;
            },
            Ok(v) => {
                out.push(v);
            },
        }
        i = i + 1;
    }
    assert(out@ =~= spec_encoding_list(value@)->0);
    Some(out)
}

/// Reads a list of predictors.
pub fn predictor_list(value: &[u8]) -> (r: Option<Vec<FieldPredictor>>)
    ensures
        r matches Some(v) ==> spec_predictor_list(value@) == Some(v@),
        r is None ==> spec_predictor_list(value@) is None,
{
    let mut out: Vec<FieldPredictor> = Vec::new();
    if value.len() == 0 {
        assert(out@ =~= Seq::<FieldPredictor>::empty());
        return Some(out);
    }
    let ranges = split_items(value);
    let ghost items = spec_items(value@);
    let mut i: usize = 0;
    while i < ranges.len()
        invariant
            value@.len() > 0,
            items == spec_items(value@),
            ranges@.len() == items.len(),
            forall|k: int|
                0 <= k < ranges@.len() ==> (#[trigger] ranges@[k]).0 <= ranges@[k].1
                    <= value@.len() && items[k] == value@.subrange(
                    ranges@[k].0 as int,
                    ranges@[k].1 as int,
                ),
            i <= ranges@.len(),
            out@.len() == i,
            forall|k: int|
                0 <= k < i ==> (#[trigger] items[k]).len() > 0 && spec_field_predictor_from_dec(
                    items[k],
                ) == Some(out@[k]),
        decreases ranges@.len() - i,
    {
        let (from, to) = ranges[i];
        if from == to {
            assert(items[i as int].len() == 0);
            return None;
        }
        match field_predictor_from_dec(slice_subrange(value, from, to)) {
            Err(_) => {
                assert(spec_field_predictor_from_dec(items[i as int]) is None);
                return None;
            },
            Ok(v) => {
                out.push(v);
            },
        }
        i = i + 1;
    }
    assert(out@ =~= spec_predictor_list(value@)->0);
    Some(out)
}

/// Reads a line value as a list of names.
pub fn parse_str_list(input: &[u8], pos: usize) -> (r: Result<(usize, Vec<String>), Fault>)
    ensures
        r matches Ok((end, names)) ==> spec_parse_value(
            input@,
            pos as int,
            |v: Seq<u8>| spec_str_list(v),
        ) == Ok::<(int, Seq<Seq<char>>), Fault>((end as int, spec_texts(names@))) && pos <= end
            < input@.len(),
        r matches Err(e) ==> spec_parse_value(input@, pos as int, |v: Seq<u8>| spec_str_list(v))
            == Err::<(int, Seq<Seq<char>>), Fault>(e),
{
    match line_value(input, pos) {
        None => Err(Fault::Incomplete),
        Some((end, value)) => match str_list(value) {
            Some(v) => Ok((end, v)),
            None => Err(Fault::Soft),
        },
    }
}

/// Reads a line value as a list of flags.
pub fn parse_dec_as_bool_list(input: &[u8], pos: usize) -> (r: Result<(usize, Vec<bool>), Fault>)
    ensures
        r matches Ok((end, flags)) ==> spec_parse_value(
            input@,
            pos as int,
            |v: Seq<u8>| spec_bool_list(v),
        ) == Ok::<(int, Seq<bool>), Fault>((end as int, flags@)) && pos <= end < input@.len(),
        r matches Err(e) ==> spec_parse_value(input@, pos as int, |v: Seq<u8>| spec_bool_list(v))
            == Err::<(int, Seq<bool>), Fault>(e),
{
    match line_value(input, pos) {
        None => Err(Fault::Incomplete),
        Some((end, value)) => match bool_list(value) {
            Some(v) => Ok((end, v)),
            None => Err(Fault::Soft),
        },
    }
}

/// Reads a line value as a list of encodings.
pub fn parse_dec_as_encoding_list(input: &[u8], pos: usize) -> (r: Result<
    (usize, Vec<RawFieldEncoding>),
    Fault,
>)
    ensures
        r matches Ok((end, encodings)) ==> spec_parse_value(
            input@,
            pos as int,
            |v: Seq<u8>| spec_encoding_list(v),
        ) == Ok::<(int, Seq<RawFieldEncoding>), Fault>((end as int, encodings@)) && pos <= end
            < input@.len(),
        r matches Err(e) ==> spec_parse_value(
            input@,
            pos as int,
            |v: Seq<u8>| spec_encoding_list(v),
        ) == Err::<(int, Seq<RawFieldEncoding>), Fault>(e),
{
    match line_value(input, pos) {
        None => Err(Fault::Incomplete),
        Some((end, value)) => match encoding_list(value) {
            Some(v) => Ok((end, v)),
            None => Err(Fault::Soft),
        },
    }
}

/// Reads a line value as a list of predictors.
pub fn parse_dec_as_predictor_list(input: &[u8], pos: usize) -> (r: Result<
    (usize, Vec<FieldPredictor>),
    Fault,
>)
    ensures
        r matches Ok((end, predictors)) ==> spec_parse_value(
            input@,
            pos as int,
            |v: Seq<u8>| spec_predictor_list(v),
        ) == Ok::<(int, Seq<FieldPredictor>), Fault>((end as int, predictors@)) && pos <= end
            < input@.len(),
        r matches Err(e) ==> spec_parse_value(
            input@,
            pos as int,
            |v: Seq<u8>| spec_predictor_list(v),
        ) == Err::<(int, Seq<FieldPredictor>), Fault>(e),
{
    match line_value(input, pos) {
        None => Err(Fault::Incomplete),
        Some((end, value)) => match predictor_list(value) {
            Some(v) => Ok((end, v)),
            None => Err(Fault::Soft),
        },
    }
}

} // verus!
