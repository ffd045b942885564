//! Header lines: `H`, a space, a key, a colon, a value and a newline.
use vstd::prelude::*;
use vstd::slice::slice_subrange;
use vstd::utf8::encode_utf8;
use crate::frame::text::{
    find_byte, parse_dec_as_bool_list, parse_dec_as_encoding_list, parse_dec_as_predictor_list,
    parse_i16_dec, parse_str, parse_str_list, parse_u16_dec, parse_u16_ratio_dec_or_inverse_dec,
    parse_u32_dec, parse_u32_hex, spec_bool_list, spec_encoding_list, spec_find_byte,
    spec_i16_from_dec, spec_parse_value, spec_predictor_list, spec_str_from_bytes, spec_str_list,
    spec_texts, spec_u16_from_dec, spec_u16_ratio_dec_or_inverse_dec, spec_u32_from_dec,
    spec_u32_from_prefixed_hex, str_from_bytes,
};
use crate::frame::{Fault, RawFieldEncoding};
use crate::stream::interval::PInterval;
use crate::stream::predictor::FieldPredictor;

verus! {

/// The byte `H` that starts a header line.
pub const LINE_START: u8 = 0x48;

/// The space behind it.
pub const LINE_SPACE: u8 = 0x20;

/// The colon between key and value.
pub const COLON: u8 = 0x3a;

/// The classes of records whose fields a header declares.
#[derive(Clone, Copy, Debug, PartialEq, Eq, Structural)]
pub enum RecordClass {
    Intra,
    Predicted,
    Slow,
    Gnss,
    Home,
}

/// One header line.
#[derive(Debug)]
pub enum Frame {
    Product(String),
    DataVersion(String),
    FieldName(RecordClass, Vec<String>),
    FieldSignedness(RecordClass, Vec<bool>),
    FieldEncoding(RecordClass, Vec<RawFieldEncoding>),
    FieldPredictor(RecordClass, Vec<FieldPredictor>),
    IInterval(i16),
    PInterval(PInterval),
    PRatio(u16),
    /// The bit pattern of an IEEE-754 single.
    GyroScale(u32),
    LoopTime(u32),
    UnknownHeader(String, String),
}

/// A header line as a plain value.
pub enum LineModel {
    Product(Seq<char>),
    DataVersion(Seq<char>),
    FieldName(RecordClass, Seq<Seq<char>>),
    FieldSignedness(RecordClass, Seq<bool>),
    FieldEncoding(RecordClass, Seq<RawFieldEncoding>),
    FieldPredictor(RecordClass, Seq<FieldPredictor>),
    IInterval(i16),
    PInterval(PInterval),
    PRatio(u16),
    GyroScale(u32),
    LoopTime(u32),
    UnknownHeader(Seq<char>, Seq<char>),
}

impl View for Frame {
    type V = LineModel;

    open spec fn view(&self) -> LineModel {
        match *self {
            Frame::Product(v) => LineModel::Product(v@),
            Frame::DataVersion(v) => LineModel::DataVersion(v@),
            Frame::FieldName(class, v) => LineModel::FieldName(class, spec_texts(v@)),
            Frame::FieldSignedness(class, v) => LineModel::FieldSignedness(class, v@),
            Frame::FieldEncoding(class, v) => LineModel::FieldEncoding(class, v@),
            Frame::FieldPredictor(class, v) => LineModel::FieldPredictor(class, v@),
            Frame::IInterval(v) => LineModel::IInterval(v),
            Frame::PInterval(v) => LineModel::PInterval(v),
            Frame::PRatio(v) => LineModel::PRatio(v),
            Frame::GyroScale(v) => LineModel::GyroScale(v),
            Frame::LoopTime(v) => LineModel::LoopTime(v),
            Frame::UnknownHeader(k, v) => LineModel::UnknownHeader(k@, v@),
        }
    }
}

/// The bytes of a key.
pub open spec fn spec_key(text: &str) -> Seq<u8> {
    encode_utf8(text@)
}

/// The class that a key of the form `Field X ...` names, and which of the
/// four lists of the class it is: 0 for names, 1 for signedness, 2 for
/// encodings, 3 for predictors.
pub open spec fn spec_field_key(key: Seq<u8>) -> Option<(RecordClass, int)> {
    if key == spec_key("Field I name") {
        Some((RecordClass::Intra, 0))
    } else if key == spec_key("Field I signed") {
        Some((RecordClass::Intra, 1))
    } else if key == spec_key("Field I encoding") {
        Some((RecordClass::Intra, 2))
    } else if key == spec_key("Field I predictor") {
        Some((RecordClass::Intra, 3))
    } else if key == spec_key("Field P name") {
        Some((RecordClass::Predicted, 0))
    } else if key == spec_key("Field P signed") {
        Some((RecordClass::Predicted, 1))
    } else if key == spec_key("Field P encoding") {
        Some((RecordClass::Predicted, 2))
    } else if key == spec_key("Field P predictor") {
        Some((RecordClass::Predicted, 3))
    } else if key == spec_key("Field S name") {
        Some((RecordClass::Slow, 0))
    } else if key == spec_key("Field S signed") {
        Some((RecordClass::Slow, 1))
    } else if key == spec_key("Field S encoding") {
        Some((RecordClass::Slow, 2))
    } else if key == spec_key("Field S predictor") {
        Some((RecordClass::Slow, 3))
    } else if key == spec_key("Field G name") {
        Some((RecordClass::Gnss, 0))
    } else if key == spec_key("Field G signed") {
        Some((RecordClass::Gnss, 1))
    } else if key == spec_key("Field G encoding") {
        Some((RecordClass::Gnss, 2))
    } else if key == spec_key("Field G predictor") {
        Some((RecordClass::Gnss, 3))
    } else if key == spec_key("Field H name") {
        Some((RecordClass::Home, 0))
    } else if key == spec_key("Field H signed") {
        Some((RecordClass::Home, 1))
    } else if key == spec_key("Field H encoding") {
        Some((RecordClass::Home, 2))
    } else if key == spec_key("Field H predictor") {
        Some((RecordClass::Home, 3))
    } else {
        None
    }
}

/// A line whose key asks for one value, if `key` is such a key: the place
/// of the newline and what the line says.
pub open spec fn spec_scalar_line(key: Seq<u8>, s: Seq<u8>, pos: int) -> Option<
    Result<(int, LineModel), Fault>,
> {
    if key == spec_key("Product") {
        Some(
            match spec_parse_value(s, pos, |v: Seq<u8>| spec_str_from_bytes(v)) {
                Ok((end, v)) => Ok((end, LineModel::Product(v))),
                Err(e) => Err(e),
            },
        )
    } else if key == spec_key("Data version") {
        Some(
            match spec_parse_value(s, pos, |v: Seq<u8>| spec_str_from_bytes(v)) {
                Ok((end, v)) => Ok((end, LineModel::DataVersion(v))),
                Err(e) => Err(e),
            },
        )
    } else if key == spec_key("I interval") {
        Some(
            match spec_parse_value(s, pos, |v: Seq<u8>| spec_i16_from_dec(v)) {
                Ok((end, v)) => Ok((end, LineModel::IInterval(v))),
                Err(e) => Err(e),
            },
        )
    } else if key == spec_key("P interval") {
        Some(
            match spec_parse_value(s, pos, |v: Seq<u8>| spec_u16_ratio_dec_or_inverse_dec(v)) {
                Ok((end, v)) => Ok((end, LineModel::PInterval(v))),
                Err(e) => Err(e),
            },
        )
    } else if key == spec_key("P ratio") {
        Some(
            match spec_parse_value(s, pos, |v: Seq<u8>| spec_u16_from_dec(v)) {
                Ok((end, v)) => Ok((end, LineModel::PRatio(v))),
                Err(e) => Err(e),
            },
        )
    } else if key == spec_key("gyro_scale") {
        Some(
            match spec_parse_value(s, pos, |v: Seq<u8>| spec_u32_from_prefixed_hex(v)) {
                Ok((end, v)) => Ok((end, LineModel::GyroScale(v))),
                Err(e) => Err(e),
            },
        )
    } else if key == spec_key("looptime") {
        Some(
            match spec_parse_value(s, pos, |v: Seq<u8>| spec_u32_from_dec(v)) {
                Ok((end, v)) => Ok((end, LineModel::LoopTime(v))),
                Err(e) => Err(e),
            },
        )
    } else {
        None
    }
}

/// A line that holds list `kind` of the fields of `class`.
pub open spec fn spec_field_line(class: RecordClass, kind: int, s: Seq<u8>, pos: int) -> Result<
    (int, LineModel),
    Fault,
> {
    if kind == 0 {
        match spec_parse_value(s, pos, |v: Seq<u8>| spec_str_list(v)) {
            Ok((end, v)) => Ok((end, LineModel::FieldName(class, v))),
            Err(e) => Err(e),
        }
    } else if kind == 1 {
        match spec_parse_value(s, pos, |v: Seq<u8>| spec_bool_list(v)) {
            Ok((end, v)) => Ok((end, LineModel::FieldSignedness(class, v))),
            Err(e) => Err(e),
        }
    } else if kind == 2 {
        match spec_parse_value(s, pos, |v: Seq<u8>| spec_encoding_list(v)) {
            Ok((end, v)) => Ok((end, LineModel::FieldEncoding(class, v))),
            Err(e) => Err(e),
        }
    } else {
        match spec_parse_value(s, pos, |v: Seq<u8>| spec_predictor_list(v)) {
            Ok((end, v)) => Ok((end, LineModel::FieldPredictor(class, v))),
            Err(e) => Err(e),
        }
    }
}

/// A line with a key that is not known: it keeps key and value as text.
pub open spec fn spec_unknown_line(name: Seq<char>, s: Seq<u8>, pos: int) -> Result<
    (int, LineModel),
    Fault,
> {
    match spec_parse_value(s, pos, |v: Seq<u8>| spec_str_from_bytes(v)) {
        Ok((end, v)) => Ok((end, LineModel::UnknownHeader(name, v))),
        Err(e) => Err(e),
    }
}

/// The line with key `key` whose value starts at `pos`: the place of its
/// newline and what it says.
pub open spec fn spec_line(key: Seq<u8>, name: Seq<char>, s: Seq<u8>, pos: int) -> Result<
    (int, LineModel),
    Fault,
> {
    match spec_scalar_line(key, s, pos) {
        Some(r) => r,
        None => match spec_field_key(key) {
            Some((class, kind)) => spec_field_line(class, kind, s, pos),
            None => spec_unknown_line(name, s, pos),
        },
    }
}

/// The header line at `pos`. Bytes that do not start with `H` and a space
/// are a soft fault, and so is a line whose key is not valid text or whose
/// value is not what the key calls for; a line without its colon or its
/// newline is incomplete.
pub open spec fn spec_parse_header(s: Seq<u8>, pos: int) -> Result<(int, LineModel), Fault> {
    if pos < 0 || pos >= s.len() {
        Err(Fault::Incomplete)
    } else if s[pos] != LINE_START {
        Err(Fault::Soft)
    } else if pos + 1 >= s.len() {
        Err(Fault::Incomplete)
    } else if s[pos + 1] != LINE_SPACE {
        Err(Fault::Soft)
    } else {
        match spec_find_byte(s, pos + 2, COLON) {
            None => Err(Fault::Incomplete),
            Some(colon) => match spec_str_from_bytes(s.subrange(pos + 2, colon)) {
                None => Err(Fault::Soft),
                Some(name) => match spec_line(s.subrange(pos + 2, colon), name, s, colon + 1) {
                    Err(e) => Err(e),
                    Ok((end, line)) => Ok((end + 1, line)),
                },
            },
        }
    }
}

/// Whether the input at `pos` starts a header line.
pub open spec fn spec_starts_line(s: Seq<u8>, pos: int) -> bool {
    0 <= pos && pos + 1 < s.len() && s[pos] == LINE_START && s[pos + 1] == LINE_SPACE
}

fn key_is(key: &[u8], text: &str) -> (r: bool)
    ensures
        r == (key@ == spec_key(text)),
{
    let expected = text.as_bytes();
    if key.len() != expected.len() {
        return false;
    }
    let mut i: usize = 0;
    while i < key.len()
        invariant
            expected@ == spec_key(text),
            key@.len() == expected@.len(),
            i <= key@.len(),
            forall|j: int| 0 <= j < i ==> key@[j] == expected@[j],
        decreases key@.len() - i,
    {
        if key[i] != expected[i] {
            return false;
        }
        i = i + 1;
    }
    assert(key@ =~= expected@);
    true
}

fn field_key(key: &[u8]) -> (r: Option<(RecordClass, u8)>)
    ensures
        r matches Some((class, kind)) ==> spec_field_key(key@) == Some((class, kind as int)),
        r is None ==> spec_field_key(key@) is None,
{
    if key_is(key, "Field I name") {
        Some((RecordClass::Intra, 0))
    } else if key_is(key, "Field I signed") {
        Some((RecordClass::Intra, 1))
    } else if key_is(key, "Field I encoding") {
        Some((RecordClass::Intra, 2))
    } else if key_is(key, "Field I predictor") {
        Some((RecordClass::Intra, 3))
    } else if key_is(key, "Field P name") {
        Some((RecordClass::Predicted, 0))
    } else if key_is(key, "Field P signed") {
        Some((RecordClass::Predicted, 1))
    } else if key_is(key, "Field P encoding") {
        Some((RecordClass::Predicted, 2))
    } else if key_is(key, "Field P predictor") {
        Some((RecordClass::Predicted, 3))
    } else if key_is(key, "Field S name") {
        Some((RecordClass::Slow, 0))
    } else if key_is(key, "Field S signed") {
        Some((RecordClass::Slow, 1))
    } else if key_is(key, "Field S encoding") {
        Some((RecordClass::Slow, 2))
    } else if key_is(key, "Field S predictor") {
        Some((RecordClass::Slow, 3))
    } else if key_is(key, "Field G name") {
        Some((RecordClass::Gnss, 0))
    } else if key_is(key, "Field G signed") {
        Some((RecordClass::Gnss, 1))
    } else if key_is(key, "Field G encoding") {
        Some((RecordClass::Gnss, 2))
    } else if key_is(key, "Field G predictor") {
        Some((RecordClass::Gnss, 3))
    } else if key_is(key, "Field H name") {
        Some((RecordClass::Home, 0))
    } else if key_is(key, "Field H signed") {
        Some((RecordClass::Home, 1))
    } else if key_is(key, "Field H encoding") {
        Some((RecordClass::Home, 2))
    } else if key_is(key, "Field H predictor") {
        Some((RecordClass::Home, 3))
    } else {
        None
    }
}

/// Holds of an exec line result and the spec result that it must be equal
/// to.
pub open spec fn line_parsed(
    r: Result<(usize, Frame), Fault>,
    expected: Result<(int, LineModel), Fault>,
) -> bool {
    match r {
        Ok((end, line)) => expected == Ok::<(int, LineModel), Fault>((end as int, line@)),
        Err(e) => expected == Err::<(int, LineModel), Fault>(e),
    }
}

fn parse_text_line(key: &[u8], input: &[u8], pos: usize) -> (r: Option<
    Result<(usize, Frame), Fault>,
>)
    ensures
        r is Some <==> key@ == spec_key("Product") || key@ == spec_key("Data version"),
        r matches Some(line) ==> spec_scalar_line(key@, input@, pos as int) matches Some(expected)
            && line_parsed(line, expected),
        r matches Some(Ok((end, _))) ==> pos <= end < input@.len(),
{
    if key_is(key, "Product") {
        Some(
            match parse_str(input, pos) {
                Ok((end, v)) => Ok((end, Frame::Product(v.to_owned()))),
                Err(e) => Err(e),
            },
        )
    } else if key_is(key, "Data version") {
        Some(
            match parse_str(input, pos) {
                Ok((end, v)) => Ok((end, Frame::DataVersion(v.to_owned()))),
                Err(e) => Err(e),
            },
        )
    } else {
        None
    }
}

fn parse_number_line(key: &[u8], input: &[u8], pos: usize) -> (r: Option<
    Result<(usize, Frame), Fault>,
>)
    requires
        key@ != spec_key("Product"),
        key@ != spec_key("Data version"),
    ensures
        r is Some <==> spec_scalar_line(key@, input@, pos as int) is Some,
        r matches Some(line) ==> spec_scalar_line(key@, input@, pos as int) matches Some(expected)
            && line_parsed(line, expected),
        r matches Some(Ok((end, _))) ==> pos <= end < input@.len(),
{
    if key_is(key, "I interval") {
        Some(
            match parse_i16_dec(input, pos) {
                Ok((end, v)) => Ok((end, Frame::IInterval(v))),
                Err(e) => Err(e),
            },
        )
    } else if key_is(key, "P interval") {
        Some(
            match parse_u16_ratio_dec_or_inverse_dec(input, pos) {
                Ok((end, v)) => Ok((end, Frame::PInterval(v))),
                Err(e) => Err(e),
            },
        )
    } else if key_is(key, "P ratio") {
        Some(
            match parse_u16_dec(input, pos) {
                Ok((end, v)) => Ok((end, Frame::PRatio(v))),
                Err(e) => Err(e),
            },
        )
    } else if key_is(key, "gyro_scale") {
        Some(
            match parse_u32_hex(input, pos) {
                Ok((end, v)) => Ok((end, Frame::GyroScale(v))),
                Err(e) => Err(e),
            },
        )
    } else if key_is(key, "looptime") {
        Some(
            match parse_u32_dec(input, pos) {
                Ok((end, v)) => Ok((end, Frame::LoopTime(v))),
                Err(e) => Err(e),
            },
        )
    } else {
        None
    }
}

fn parse_field_line(class: RecordClass, kind: u8, input: &[u8], pos: usize) -> (r: Result<
    (usize, Frame),
    Fault,
>)
    ensures
        line_parsed(r, spec_field_line(class, kind as int, input@, pos as int)),
        r matches Ok((end, _)) ==> pos <= end < input@.len(),
{
    if kind == 0 {
        match parse_str_list(input, pos) {
            Ok((end, v)) => Ok((end, Frame::FieldName(class, v))),
            Err(e) => Err(e),
        }
    } else if kind == 1 {
        match parse_dec_as_bool_list(input, pos) {
            Ok((end, v)) => Ok((end, Frame::FieldSignedness(class, v))),
            Err(e) => Err(e),
        }
    } else if kind == 2 {
        match parse_dec_as_encoding_list(input, pos) {
            Ok((end, v)) => Ok((end, Frame::FieldEncoding(class, v))),
            Err(e) => Err(e),
        }
    } else {
        match parse_dec_as_predictor_list(input, pos) {
            Ok((end, v)) => Ok((end, Frame::FieldPredictor(class, v))),
            Err(e) => Err(e),
        }
    }
}

fn parse_unknown_line(name: &str, input: &[u8], pos: usize) -> (r: Result<(usize, Frame), Fault>)
    ensures
        line_parsed(r, spec_unknown_line(name@, input@, pos as int)),
        r matches Ok((end, _)) ==> pos <= end < input@.len(),
{
    match parse_str(input, pos) {
        Ok((end, v)) => Ok((end, Frame::UnknownHeader(name.to_owned(), v.to_owned()))),
        Err(e) => Err(e),
    }
}

fn parse_line(key: &[u8], name: &str, input: &[u8], pos: usize) -> (r: Result<(usize, Frame), Fault>)
    ensures
        line_parsed(r, spec_line(key@, name@, input@, pos as int)),
        r matches Ok((end, _)) ==> pos <= end < input@.len(),
{
    if let Some(line) = parse_text_line(key, input, pos) {
        return line;
    }
    if let Some(line) = parse_number_line(key, input, pos) {
        return line;
    }
    match field_key(key) {
        Some((class, kind)) => parse_field_line(class, kind, input, pos),
        None => parse_unknown_line(name, input, pos),
    }
}

/// Reads one header line.
pub fn parse_header(input: &[u8], pos: usize) -> (r: Result<(usize, Frame), Fault>)
    ensures
        r matches Ok((next, line)) ==> spec_parse_header(input@, pos as int) == Ok::<
            (int, LineModel),
            Fault,
        >((next as int, line@)) && pos < next <= input@.len(),
        r matches Err(e) ==> spec_parse_header(input@, pos as int) == Err::<
            (int, LineModel),
            Fault,
        >(e),
{
    let len: usize = input.len();
    if pos >= len {
        return Err(Fault::Incomplete);
    }
    if input[pos] != LINE_START {
        return Err(Fault::Soft);
    }
    if len - pos < 2 {
        return Err(Fault::Incomplete);
    }
    if input[pos + 1] != LINE_SPACE {
        return Err(Fault::Soft);
    }
    let colon: usize = match find_byte(input, pos + 2, COLON) {
        None => {
            return Err(Fault::Incomplete);
        },
        Some(at) => at,
    };
    let key = slice_subrange(input, pos + 2, colon);
    let name: &str = match str_from_bytes(key) {
        Err(_) => {
            return Err(Fault::Soft);
        },
        Ok(text) => text,
    };
    match parse_line(key, name, input, colon + 1) {
        Err(e) => Err(e),
        Ok((end, line)) => Ok((end + 1, line)),
    }
}

} // verus!
