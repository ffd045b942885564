//! Data frames: a tag byte and one value per field of the frame's class.
use vstd::prelude::*;
use crate::frame::{
    lemma_field_cut, lemma_field_extent, lemma_field_width, lemma_prepend_twice, spec_cut,
    spec_prepend, Fault, Field, FieldEncoding,
};

verus! {

/// The tag byte of an intra frame, `I`.
pub const TAG_I: u8 = 0x49;

/// The tag byte of a predicted frame, `P`.
pub const TAG_P: u8 = 0x50;

/// The tag byte of a slow frame, `S`.
pub const TAG_S: u8 = 0x53;

/// The tag byte of a GNSS frame, `G`.
pub const TAG_G: u8 = 0x47;

/// The tag byte of a GNSS home frame, `H`.
pub const TAG_H: u8 = 0x48;

/// The residuals of an intra frame.
#[derive(Debug)]
pub struct OwnedIFrame {
    pub buf: Vec<i64>,
}

/// The residuals of a predicted frame.
#[derive(Debug)]
pub struct OwnedPFrame {
    pub buf: Vec<i64>,
}

/// The values of a slow frame.
#[derive(Debug)]
pub struct OwnedSFrame {
    pub buf: Vec<i64>,
}

/// The residuals of a GNSS frame.
#[derive(Debug)]
pub struct OwnedGFrame {
    pub buf: Vec<i64>,
}

/// The values of a GNSS home frame.
#[derive(Debug)]
pub struct OwnedHFrame {
    pub buf: Vec<i64>,
}

/// Every codec of the list is well formed.
pub open spec fn spec_encodings_wf(encodings: Seq<FieldEncoding>) -> bool {
    forall|i: int| 0 <= i < encodings.len() ==> (#[trigger] encodings[i]).wf()
}

/// How many values the codecs from the `i`-th on yield together.
pub open spec fn spec_payload_width_from(encodings: Seq<FieldEncoding>, i: nat) -> nat
    decreases encodings.len() - i,
{
    if i >= encodings.len() {
        0
    } else {
        encodings[i as int].spec_width() + spec_payload_width_from(encodings, i + 1)
    }
}

/// How many values a frame of these codecs holds.
pub open spec fn spec_payload_width(encodings: Seq<FieldEncoding>) -> nat {
    spec_payload_width_from(encodings, 0)
}

/// The codecs from the `i`-th on, applied one after the other from `pos`.
pub open spec fn spec_payload_from(encodings: Seq<FieldEncoding>, i: nat, s: Seq<u8>, pos: int) -> Result<
    (int, Seq<i64>),
    Fault,
>
    decreases encodings.len() - i,
{
    if i >= encodings.len() {
        Ok((pos, Seq::empty()))
    } else {
        match encodings[i as int].spec_parse(s, pos) {
            Err(e) => Err(e),
            Ok((next, values)) => spec_prepend(values, spec_payload_from(encodings, i + 1, s, next)),
        }
    }
}

/// The payload of a frame: the values of all its codecs in order. A
/// position outside the input has no payload.
pub open spec fn spec_payload(encodings: Seq<FieldEncoding>, s: Seq<u8>, pos: int) -> Result<
    (int, Seq<i64>),
    Fault,
> {
    if 0 <= pos <= s.len() {
        spec_payload_from(encodings, 0, s, pos)
    } else {
        Err(Fault::Incomplete)
    }
}

/// A data frame with tag byte `tag`: the tag, then the payload. A first
/// byte other than the tag is a soft fault. The frame of a class without
/// fields is the tag alone.
pub open spec fn spec_parse_tagged(tag: u8, encodings: Seq<FieldEncoding>, s: Seq<u8>, pos: int) -> Result<
    (int, Seq<i64>),
    Fault,
> {
    if pos < 0 || pos >= s.len() {
        Err(Fault::Incomplete)
    } else if s[pos] != tag {
        Err(Fault::Soft)
    } else {
        spec_payload(encodings, s, pos + 1)
    }
}

/// Holds of an exec result and the spec result that it must be equal to.
pub open spec fn payload_parsed(
    r: Result<(usize, Vec<i64>), Fault>,
    expected: Result<(int, Seq<i64>), Fault>,
) -> bool {
    match r {
        Ok((next, values)) => expected == Ok::<(int, Seq<i64>), Fault>((next as int, values@)),
        Err(e) => expected == Err::<(int, Seq<i64>), Fault>(e),
    }
}

fn push_field(ret: &mut Vec<i64>, field: Field)
    requires
        field matches Field::SignedOctuple(_, n) ==> n <= 8,
    ensures
        final(ret)@ == old(ret)@ + field.values(),
{
    match field {
        Field::Signed(v) => {
            ret.push(v as i64);
            assert(ret@ =~= old(ret)@ + field.values());
        },
        Field::Unsigned(v) => {
            ret.push(v as i64);
            assert(ret@ =~= old(ret)@ + field.values());
        },
        Field::SignedTriple(values) => {
            let mut j: usize = 0;
            while j < 3
                invariant
                    j <= 3,
                    ret@ == old(ret)@ + Seq::new(j as nat, |k: int| values@[k] as i64),
                decreases 3 - j,
            {
                ret.push(values[j] as i64);
                j = j + 1;
                assert(ret@ =~= old(ret)@ + Seq::new(j as nat, |k: int| values@[k] as i64));
            }
        },
        Field::SignedQuadruple(values) => {
            let mut j: usize = 0;
            while j < 4
                invariant
                    j <= 4,
                    ret@ == old(ret)@ + Seq::new(j as nat, |k: int| values@[k] as i64),
                decreases 4 - j,
            {
                ret.push(values[j] as i64);
                j = j + 1;
                assert(ret@ =~= old(ret)@ + Seq::new(j as nat, |k: int| values@[k] as i64));
            }
        },
        Field::SignedOctuple(values, values_n) => {
            let mut j: usize = 0;
            while j < values_n
                invariant
                    j <= values_n <= 8,
                    ret@ == old(ret)@ + Seq::new(j as nat, |k: int| values@[k] as i64),
                decreases values_n - j,
            {
                ret.push(values[j] as i64);
                j = j + 1;
                assert(ret@ =~= old(ret)@ + Seq::new(j as nat, |k: int| values@[k] as i64));
            }
        },
    }
}

/// Decodes the payload of a frame: every codec in order, the values of all
/// of them in one list.
pub fn parse_owned_frame_payload(field_encodings: &[FieldEncoding], input: &[u8], pos: usize) -> (r:
    Result<(usize, Vec<i64>), Fault>)
    requires
        spec_encodings_wf(field_encodings@),
    ensures
        payload_parsed(r, spec_payload(field_encodings@, input@, pos as int)),
        r matches Ok((next, values)) ==> pos <= next <= input@.len() && values@.len()
            == spec_payload_width(field_encodings@),
{
    let mut ret: Vec<i64> = Vec::new();
    if pos > input.len() {
        return Err(Fault::Incomplete);
    }
    let mut cur: usize = pos;
    let mut i: usize = 0;
    while i < field_encodings.len()
        invariant
            spec_encodings_wf(field_encodings@),
            i <= field_encodings@.len(),
            pos <= cur <= input@.len(),
            spec_payload(field_encodings@, input@, pos as int) == spec_prepend(
                ret@,
                spec_payload_from(field_encodings@, i as nat, input@, cur as int),
            ),
            ret@.len() + spec_payload_width_from(field_encodings@, i as nat) == spec_payload_width(
                field_encodings@,
            ),
        decreases field_encodings@.len() - i,
    {
        let encoding: FieldEncoding = field_encodings[i];
        match encoding.parse(input, cur) {
            Err(e) => {
                return Err(e);
            },
            Ok((next, value)) => {
                proof {
                    lemma_prepend_twice(
                        ret@,
                        value.values(),
                        spec_payload_from(field_encodings@, (i + 1) as nat, input@, next as int),
                    );
                }
                push_field(&mut ret, value);
                cur = next;
            },
        }
        i = i + 1;
    }
    assert(ret@ + Seq::<i64>::empty() =~= ret@);
    Ok((cur, ret))
}

fn parse_tagged(tag: u8, field_encodings: &[FieldEncoding], input: &[u8], pos: usize) -> (r: Result<
    (usize, Vec<i64>),
    Fault,
>)
    requires
        spec_encodings_wf(field_encodings@),
    ensures
        payload_parsed(r, spec_parse_tagged(tag, field_encodings@, input@, pos as int)),
        r matches Ok((next, values)) ==> pos < next <= input@.len() && values@.len()
            == spec_payload_width(field_encodings@),
{
    if pos >= input.len() {
        return Err(Fault::Incomplete);
    }
    if input[pos] != tag {
        return Err(Fault::Soft);
    }
    parse_owned_frame_payload(field_encodings, input, pos + 1)
}

/// Reads an intra frame: the byte `I` and the payload of the I codecs.
pub fn parse_owned_iframe(field_encodings: &[FieldEncoding], input: &[u8], pos: usize) -> (r: Result<
    (usize, OwnedIFrame),
    Fault,
>)
    requires
        spec_encodings_wf(field_encodings@),
    ensures
        r matches Ok((next, frame)) ==> spec_parse_tagged(
            TAG_I,
            field_encodings@,
            input@,
            pos as int,
        ) == Ok::<(int, Seq<i64>), Fault>((next as int, frame.buf@)) && pos < next <= input@.len()
            && frame.buf@.len() == spec_payload_width(field_encodings@),
        r matches Err(e) ==> spec_parse_tagged(TAG_I, field_encodings@, input@, pos as int) == Err::<
            (int, Seq<i64>),
            Fault,
        >(e),
{
    match parse_tagged(TAG_I, field_encodings, input, pos) {
        Err(e) => Err(e),
        Ok((next, buf)) => Ok((next, OwnedIFrame { buf })),
    }
}

/// Reads a predicted frame: the byte `P` and the payload of the P codecs.
pub fn parse_owned_pframe(field_encodings: &[FieldEncoding], input: &[u8], pos: usize) -> (r: Result<
    (usize, OwnedPFrame),
    Fault,
>)
    requires
        spec_encodings_wf(field_encodings@),
    ensures
        r matches Ok((next, frame)) ==> spec_parse_tagged(
            TAG_P,
            field_encodings@,
            input@,
            pos as int,
        ) == Ok::<(int, Seq<i64>), Fault>((next as int, frame.buf@)) && pos < next <= input@.len()
            && frame.buf@.len() == spec_payload_width(field_encodings@),
        r matches Err(e) ==> spec_parse_tagged(TAG_P, field_encodings@, input@, pos as int) == Err::<
            (int, Seq<i64>),
            Fault,
        >(e),
{
    match parse_tagged(TAG_P, field_encodings, input, pos) {
        Err(e) => Err(e),
        Ok((next, buf)) => Ok((next, OwnedPFrame { buf })),
    }
}

/// Reads a slow frame: the byte `S` and the payload of the S codecs.
pub fn parse_owned_sframe(field_encodings: &[FieldEncoding], input: &[u8], pos: usize) -> (r: Result<
    (usize, OwnedSFrame),
    Fault,
>)
    requires
        spec_encodings_wf(field_encodings@),
    ensures
        r matches Ok((next, frame)) ==> spec_parse_tagged(
            TAG_S,
            field_encodings@,
            input@,
            pos as int,
        ) == Ok::<(int, Seq<i64>), Fault>((next as int, frame.buf@)) && pos < next <= input@.len()
            && frame.buf@.len() == spec_payload_width(field_encodings@),
        r matches Err(e) ==> spec_parse_tagged(TAG_S, field_encodings@, input@, pos as int) == Err::<
            (int, Seq<i64>),
            Fault,
        >(e),
{
    match parse_tagged(TAG_S, field_encodings, input, pos) {
        Err(e) => Err(e),
        Ok((next, buf)) => Ok((next, OwnedSFrame { buf })),
    }
}

/// Reads a GNSS frame: the byte `G` and the payload of the G codecs.
pub fn parse_owned_gframe(field_encodings: &[FieldEncoding], input: &[u8], pos: usize) -> (r: Result<
    (usize, OwnedGFrame),
    Fault,
>)
    requires
        spec_encodings_wf(field_encodings@),
    ensures
        r matches Ok((next, frame)) ==> spec_parse_tagged(
            TAG_G,
            field_encodings@,
            input@,
            pos as int,
        ) == Ok::<(int, Seq<i64>), Fault>((next as int, frame.buf@)) && pos < next <= input@.len()
            && frame.buf@.len() == spec_payload_width(field_encodings@),
        r matches Err(e) ==> spec_parse_tagged(TAG_G, field_encodings@, input@, pos as int) == Err::<
            (int, Seq<i64>),
            Fault,
        >(e),
{
    match parse_tagged(TAG_G, field_encodings, input, pos) {
        Err(e) => Err(e),
        Ok((next, buf)) => Ok((next, OwnedGFrame { buf })),
    }
}

/// Reads a GNSS home frame: the byte `H` and the payload of the H codecs.
pub fn parse_owned_hframe(field_encodings: &[FieldEncoding], input: &[u8], pos: usize) -> (r: Result<
    (usize, OwnedHFrame),
    Fault,
>)
    requires
        spec_encodings_wf(field_encodings@),
    ensures
        r matches Ok((next, frame)) ==> spec_parse_tagged(
            TAG_H,
            field_encodings@,
            input@,
            pos as int,
        ) == Ok::<(int, Seq<i64>), Fault>((next as int, frame.buf@)) && pos < next <= input@.len()
            && frame.buf@.len() == spec_payload_width(field_encodings@),
        r matches Err(e) ==> spec_parse_tagged(TAG_H, field_encodings@, input@, pos as int) == Err::<
            (int, Seq<i64>),
            Fault,
        >(e),
{
    match parse_tagged(TAG_H, field_encodings, input, pos) {
        Err(e) => Err(e),
        Ok((next, buf)) => Ok((next, OwnedHFrame { buf })),
    }
}

proof fn lemma_payload_extent(encodings: Seq<FieldEncoding>, i: nat, s: Seq<u8>, pos: int)
    requires
        0 <= pos <= s.len(),
    ensures
        spec_payload_from(encodings, i, s, pos) matches Ok((next, _)) ==> pos <= next <= s.len(),
    decreases encodings.len() - i,
{
    if i < encodings.len() {
        lemma_field_extent(encodings[i as int], s, pos);
        if let Ok((next, _)) = encodings[i as int].spec_parse(s, pos) {
            lemma_payload_extent(encodings, i + 1, s, next);
        }
    }
}

/// A data frame that decodes is not empty and ends in the input.
pub proof fn lemma_tagged_extent(tag: u8, encodings: Seq<FieldEncoding>, s: Seq<u8>, pos: int)
    requires
        0 <= pos,
    ensures
        spec_parse_tagged(tag, encodings, s, pos) matches Ok((next, _)) ==> pos < next <= s.len(),
{
    if pos < s.len() {
        lemma_payload_extent(encodings, 0, s, pos + 1);
    }
}

proof fn lemma_payload_width(encodings: Seq<FieldEncoding>, i: nat, s: Seq<u8>, pos: int)
    requires
        spec_encodings_wf(encodings),
    ensures
        spec_payload_from(encodings, i, s, pos) matches Ok((_, values)) ==> values.len()
            == spec_payload_width_from(encodings, i),
    decreases encodings.len() - i,
{
    if i < encodings.len() {
        lemma_field_width(encodings[i as int], s, pos);
        if let Ok((next, _)) = encodings[i as int].spec_parse(s, pos) {
            lemma_payload_width(encodings, i + 1, s, next);
        }
    }
}

/// A data frame that decodes holds as many values as its codecs yield
/// together.
pub proof fn lemma_tagged_width(tag: u8, encodings: Seq<FieldEncoding>, s: Seq<u8>, pos: int)
    requires
        spec_encodings_wf(encodings),
    ensures
        spec_parse_tagged(tag, encodings, s, pos) matches Ok((_, values)) ==> values.len()
            == spec_payload_width(encodings),
{
    lemma_payload_width(encodings, 0, s, pos + 1);
}

proof fn lemma_payload_cut(encodings: Seq<FieldEncoding>, i: nat, t: Seq<u8>, cut: int, pos: int)
    requires
        0 <= pos <= cut <= t.len(),
    ensures
        spec_cut(
            spec_payload_from(encodings, i, t, pos),
            spec_payload_from(encodings, i, t.take(cut), pos),
            cut,
        ),
    decreases encodings.len() - i,
{
    if i < encodings.len() {
        lemma_field_cut(encodings[i as int], t, cut, pos);
        lemma_field_extent(encodings[i as int], t, pos);
        if let Ok((next, _)) = encodings[i as int].spec_parse(t, pos) {
            lemma_payload_extent(encodings, i + 1, t, next);
            if next <= cut {
                lemma_payload_cut(encodings, i + 1, t, cut, next);
            }
        }
    }
}

/// A data frame on an input that is cut off.
pub proof fn lemma_tagged_cut(tag: u8, encodings: Seq<FieldEncoding>, t: Seq<u8>, cut: int, pos: int)
    requires
        0 <= pos,
        0 <= cut <= t.len(),
    ensures
        spec_cut(
            spec_parse_tagged(tag, encodings, t, pos),
            spec_parse_tagged(tag, encodings, t.take(cut), pos),
            cut,
        ),
{
    lemma_tagged_extent(tag, encodings, t, pos);
    if pos < cut {
        lemma_payload_cut(encodings, 0, t, cut, pos + 1);
    }
}

} // verus!
