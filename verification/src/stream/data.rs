//! The router of body frames: the first byte of a frame names its kind.
use vstd::prelude::*;
use crate::frame::data::{
    parse_owned_gframe, parse_owned_hframe, parse_owned_iframe, parse_owned_pframe,
    parse_owned_sframe, spec_parse_tagged, TAG_G, TAG_H, TAG_I, TAG_P, TAG_S,
};
use crate::frame::event::{spec_parse_event, TAG_E};
use crate::frame::{parse_body_frame, BodyFrame, Fault, FrameModel};
use crate::stream::header::{Header, HeaderModel};

verus! {

/// The body frame at `pos`. The first byte decides what is read: `E` an
/// event, `I`, `P`, `S`, `G` or `H` a data frame with the codecs of its
/// class. Any other byte is a soft fault, and so is padding.
pub open spec fn spec_parse_next_frame(header: HeaderModel, s: Seq<u8>, pos: int) -> Result<
    (int, FrameModel),
    Fault,
> {
    if pos < 0 || pos >= s.len() {
        Err(Fault::Incomplete)
    } else if s[pos] == TAG_E {
        match spec_parse_event(s, pos) {
            Ok((next, ev)) => Ok((next, FrameModel::Event(ev))),
            Err(e) => Err(e),
        }
    } else if s[pos] == TAG_I {
        match spec_parse_tagged(TAG_I, header.i_field_encodings, s, pos) {
            Ok((next, buf)) => Ok((next, FrameModel::Intra(buf))),
            Err(e) => Err(e),
        }
    } else if s[pos] == TAG_P {
        match spec_parse_tagged(TAG_P, header.p_field_encodings, s, pos) {
            Ok((next, buf)) => Ok((next, FrameModel::Predicted(buf))),
            Err(e) => Err(e),
        }
    } else if s[pos] == TAG_S {
        match spec_parse_tagged(TAG_S, header.s_field_encodings, s, pos) {
            Ok((next, buf)) => Ok((next, FrameModel::Slow(buf))),
            Err(e) => Err(e),
        }
    } else if s[pos] == TAG_G {
        match spec_parse_tagged(TAG_G, header.g_field_encodings, s, pos) {
            Ok((next, buf)) => Ok((next, FrameModel::Gnss(buf))),
            Err(e) => Err(e),
        }
    } else if s[pos] == TAG_H {
        match spec_parse_tagged(TAG_H, header.h_field_encodings, s, pos) {
            Ok((next, buf)) => Ok((next, FrameModel::Home(buf))),
            Err(e) => Err(e),
        }
    } else {
        Err(Fault::Soft)
    }
}

/// The number of fields that a frame of the schema must hold: one for each
/// main predictor in frames of the classes I and P, one for each GNSS
/// predictor in those of class G.
pub open spec fn spec_frame_fits(header: HeaderModel, frame: FrameModel) -> bool {
    match frame {
        FrameModel::Intra(buf) => buf.len() == header.i_field_predictors.len(),
        FrameModel::Predicted(buf) => buf.len() == header.p_field_predictors.len(),
        FrameModel::Gnss(buf) => buf.len() == header.g_field_predictors.len(),
        _ => true,
    }
}

/// Reads the next body frame.
pub fn parse_next_frame(header: &Header, input: &[u8], pos: usize) -> (r: Result<
    (usize, BodyFrame),
    Fault,
>)
    requires
        header.wf(),
    ensures
        r matches Ok((next, frame)) ==> spec_parse_next_frame(header@, input@, pos as int) == Ok::<
            (int, FrameModel),
            Fault,
        >((next as int, frame@)) && pos < next <= input@.len() && spec_frame_fits(
            header@,
            frame@,
        ),
        r matches Err(e) ==> spec_parse_next_frame(header@, input@, pos as int) == Err::<
            (int, FrameModel),
            Fault,
        >(e),
{
    if pos >= input.len() {
        return Err(Fault::Incomplete);
    }
    let tag: u8 = input[pos];
    if tag == TAG_E {
        parse_body_frame(input, pos)
    } else if tag == TAG_I {
        match parse_owned_iframe(header.i_field_encodings.as_slice(), input, pos) {
            Ok((next, frame)) => Ok((next, BodyFrame::IFrame(frame))),
            Err(e) => Err(e),
        }
    } else if tag == TAG_P {
        match parse_owned_pframe(header.p_field_encodings.as_slice(), input, pos) {
            Ok((next, frame)) => Ok((next, BodyFrame::PFrame(frame))),
            Err(e) => Err(e),
        }
    } else if tag == TAG_S {
        match parse_owned_sframe(header.s_field_encodings.as_slice(), input, pos) {
            Ok((next, frame)) => Ok((next, BodyFrame::SFrame(frame))),
            Err(e) => Err(e),
        }
    } else if tag == TAG_G {
        match parse_owned_gframe(header.g_field_encodings.as_slice(), input, pos) {
            Ok((next, frame)) => Ok((next, BodyFrame::GFrame(frame))),
            Err(e) => Err(e),
        }
    } else if tag == TAG_H {
        match parse_owned_hframe(header.h_field_encodings.as_slice(), input, pos) {
            Ok((next, frame)) => Ok((next, BodyFrame::HFrame(frame))),
            Err(e) => Err(e),
        }
    } else {
        Err(Fault::Soft)
    }
}

} // verus!
