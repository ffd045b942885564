//! Decoder for Blackbox flight-data logs.
//!
//! A log is a header of text lines, which declares the fields of five
//! classes of records and how each field is encoded and predicted, and a
//! body of binary frames. [`BlackboxReader`] reads the header, then hands
//! out the records of the body one by one.
use vstd::prelude::*;
use vstd::slice::slice_subrange;
use nom::FindSubstring;
use crate::frame::event;
use crate::frame::{Fault, FrameModel};
use crate::stream::data::{parse_next_frame, spec_frame_fits, spec_parse_next_frame};
use crate::stream::header::{
    first_ip_field, parse_headers, spec_first_index, spec_ip_names, spec_parse_headers, Header,
    HeaderModel, ParseHeadersError,
};
use crate::stream::predictor::{
    lemma_process_keeps_wf, LogProcessor, LogRecord, ProcessorModel, RecordModel,
};

pub mod frame;
pub mod stream;

verus! {

/// A record of the log. Main and GNSS records are lent out of the reader,
/// until it reads on.
#[derive(Debug)]
pub enum BlackboxRecord<'a> {
    Main(&'a [i64]),
    GNSS(&'a [i64]),
    Slow(Vec<i64>),
    Event(event::Frame),
    /// Bytes that were passed over. The reader gives no such record.
    Garbage(usize),
}

impl<'a> View for BlackboxRecord<'a> {
    type V = RecordModel;

    open spec fn view(&self) -> RecordModel {
        match *self {
            BlackboxRecord::Main(values) => RecordModel::Main(values@),
            BlackboxRecord::GNSS(values) => RecordModel::Gnss(values@),
            BlackboxRecord::Slow(values) => RecordModel::Slow(values@),
            BlackboxRecord::Event(ev) => RecordModel::Event(ev),
            BlackboxRecord::Garbage(n) => RecordModel::Garbage(n),
        }
    }
}

/// The record behind an optional exec record.
pub open spec fn spec_blackbox_record(r: Option<BlackboxRecord>) -> Option<RecordModel> {
    match r {
        Some(record) => Some(record@),
        None => None,
    }
}

/// Puts the values of `source` in the place of those of `target`.
fn refill(target: &mut Vec<i64>, source: &[i64])
    ensures
        final(target)@ == source@,
{
    target.clear();
    let mut i: usize = 0;
    while i < source.len()
        invariant
            i <= source@.len(),
            target@ == source@.take(i as int),
        decreases source@.len() - i,
    {
        target.push(source[i]);
        i = i + 1;
        assert(target@ =~= source@.take(i as int));
    }
    assert(source@.take(i as int) =~= source@);
}

/// How the reader reacts to a frame that does not decode.
#[derive(Clone, Copy, PartialEq, Eq, Structural, Debug)]
pub enum Strictness {
    /// The first soft fault ends the reading.
    Strict,
    /// A soft fault makes the reader pass over one byte and try again.
    Lenient,
}

/// Why no reader could be made.
#[derive(Clone, Copy, PartialEq, Eq, Structural, Debug)]
pub enum BlackboxReaderError {
    ParseHeader,
    NoLoopIterationAndTime,
    Incomplete,
}

impl BlackboxReaderError {
    /// The error in words.
    pub fn message(&self) -> (r: &'static str)
        ensures
            r@ == (match *self {
                BlackboxReaderError::ParseHeader => "couldn't parse header"@,
                BlackboxReaderError::NoLoopIterationAndTime =>
                    "loopIteration or time I/P fields have not been found"@,
                BlackboxReaderError::Incomplete => "log is truncated"@,
            }),
    {
        match self {
            BlackboxReaderError::ParseHeader => "couldn't parse header",
            BlackboxReaderError::NoLoopIterationAndTime => {
                "loopIteration or time I/P fields have not been found"
            },
            BlackboxReaderError::Incomplete => "log is truncated",
        }
    }
}

/// Reads the records of one log.
pub struct BlackboxReader<'a> {
    strictness: Strictness,
    /// The values of the main or GNSS record that was lent out last.
    last_values: Vec<i64>,
    bytes: &'a [u8],
    position: usize,
    pub header: Header,
    processor: LogProcessor,
    pub last_loop_iteration: i64,
    pub last_time: i64,
    loop_iteration_field_ix: usize,
    time_field_ix: usize,
}

/// What changes in a reader as it reads.
pub struct ReaderModel {
    /// The number of bytes read.
    pub position: int,
    pub processor: ProcessorModel,
    /// The field `loopIteration` of the last main record.
    pub last_loop_iteration: i64,
    /// The field `time` of the last main record.
    pub last_time: i64,
}

/// What stays as it is while a reader reads.
pub struct ReaderContext {
    pub bytes: Seq<u8>,
    pub header: HeaderModel,
    pub strict: bool,
    pub loop_iteration_field_ix: int,
    pub time_field_ix: int,
}

impl ReaderContext {
    /// The reader after the next record, and that record. Frames are read
    /// one after the other until one gives a record; home frames, which give
    /// none, are processed on the way. A frame that is incomplete or fatally
    /// wrong ends the reading at its first byte, and so does a soft fault
    /// for a strict reader; a lenient one passes over one byte and goes on.
    /// (A frame is never empty, so that the reading always moves on.)
    pub open spec fn spec_next(self, state: ReaderModel) -> (ReaderModel, Option<RecordModel>)
        decreases self.bytes.len() - state.position,
    {
        match spec_parse_next_frame(self.header, self.bytes, state.position) {
            Ok((next, frame)) => if state.position < next <= self.bytes.len() {
                let (processor, record) = state.processor.spec_process(frame);
                match record {
                    Some(RecordModel::Main(values)) => (
                        ReaderModel {
                            position: next,
                            processor,
                            last_loop_iteration: values[self.loop_iteration_field_ix],
                            last_time: values[self.time_field_ix],
                        },
                        record,
                    ),
                    Some(_) => (ReaderModel { position: next, processor, ..state }, record),
                    None => self.spec_next(ReaderModel { position: next, processor, ..state }),
                }
            } else {
                (state, None)
            },
            Err(Fault::Soft) => if !self.strict && state.position < self.bytes.len() {
                self.spec_next(ReaderModel { position: state.position + 1, ..state })
            } else {
                (state, None)
            },
            Err(_) => (state, None),
        }
    }

    /// The state fits the schema: the processor is well formed and has the
    /// predictors' numbers of fields, the position lies in the input, and the
    /// two named fields are fields of main records.
    pub open spec fn fits(self, state: ReaderModel) -> bool {
        &&& self.header.wf()
        &&& state.processor.wf()
        &&& state.processor.current.len() == self.header.i_field_predictors.len()
        &&& state.processor.gnss_current.len() == self.header.g_field_predictors.len()
        &&& 0 <= state.position <= self.bytes.len()
        &&& 0 <= self.loop_iteration_field_ix < state.processor.current.len()
        &&& 0 <= self.time_field_ix < state.processor.current.len()
    }
}

/// Reading never goes back, and a record is never had for nothing: the
/// reader has read on when it gives one. Where it gives none, it stands at
/// the first byte of a frame that does not decode: for a lenient reader one
/// that is incomplete or fatally wrong.
pub proof fn lemma_next_progress(context: ReaderContext, state: ReaderModel)
    requires
        0 <= state.position,
    ensures
        context.spec_next(state).0.position >= state.position,
        context.spec_next(state).1 is Some ==> context.spec_next(state).0.position
            > state.position,
        context.spec_next(state).1 is None ==> spec_parse_next_frame(
            context.header,
            context.bytes,
            context.spec_next(state).0.position,
        ) is Err,
        context.spec_next(state).1 is None && !context.strict ==> spec_parse_next_frame(
            context.header,
            context.bytes,
            context.spec_next(state).0.position,
        ) != Err::<(int, FrameModel), Fault>(Fault::Soft),
    decreases context.bytes.len() - state.position,
{
    lemma_frame_extent(context.header, context.bytes, state.position);
    match spec_parse_next_frame(context.header, context.bytes, state.position) {
        Ok((next, body)) => {
            let (processor, record) = state.processor.spec_process(body);
            if record is None {
                lemma_next_progress(context, ReaderModel { position: next, processor, ..state });
            }
        },
        Err(Fault::Soft) => {
            if !context.strict && state.position < context.bytes.len() {
                lemma_next_progress(
                    context,
                    ReaderModel { position: state.position + 1, ..state },
                );
            }
        },
        Err(_) => {},
    }
}

/// A strict reader that stands at the first byte of a frame that does not
/// decode gives no record and stays where it is.
pub proof fn lemma_strict_stops(context: ReaderContext, state: ReaderModel)
    requires
        context.strict,
        spec_parse_next_frame(context.header, context.bytes, state.position) is Err,
    ensures
        context.spec_next(state) == (state, None::<RecordModel>),
{
}

/// A reader that stands at the first byte of a frame that is cut short by
/// the end of the input gives no record and stays where it is.
pub proof fn lemma_truncated_stops(context: ReaderContext, state: ReaderModel)
    requires
        spec_parse_next_frame(context.header, context.bytes, state.position) == Err::<
            (int, FrameModel),
            Fault,
        >(Fault::Incomplete),
    ensures
        context.spec_next(state) == (state, None::<RecordModel>),
{
}

/// A lenient reader that stands at a soft fault passes over one byte and
/// reads on with all else as it was: a frame that does not decode leaves
/// the histories untouched.
pub proof fn lemma_lenient_skips(context: ReaderContext, state: ReaderModel)
    requires
        !context.strict,
        spec_parse_next_frame(context.header, context.bytes, state.position) == Err::<
            (int, FrameModel),
            Fault,
        >(Fault::Soft),
    ensures
        context.spec_next(state) == context.spec_next(
            ReaderModel { position: state.position + 1, ..state },
        ),
{
}

/// A frame that decodes under a well-formed schema has one value for each
/// field of its class.
pub proof fn lemma_frame_fits(header: HeaderModel, s: Seq<u8>, pos: int)
    requires
        header.wf(),
    ensures
        spec_parse_next_frame(header, s, pos) matches Ok((_, frame)) ==> spec_frame_fits(
            header,
            frame,
        ),
{
    frame::data::lemma_tagged_width(frame::data::TAG_I, header.i_field_encodings, s, pos);
    frame::data::lemma_tagged_width(frame::data::TAG_P, header.p_field_encodings, s, pos);
    frame::data::lemma_tagged_width(frame::data::TAG_G, header.g_field_encodings, s, pos);
}

/// A reader whose state fits its schema keeps it so, and every main record
/// that it gives has one value for each main field of the schema, every
/// GNSS record one for each GNSS field.
pub proof fn lemma_next_fits(context: ReaderContext, state: ReaderModel)
    requires
        context.fits(state),
    ensures
        context.fits(context.spec_next(state).0),
        context.spec_next(state).1 matches Some(RecordModel::Main(values)) ==> values.len()
            == context.header.ip_fields.len(),
        context.spec_next(state).1 matches Some(RecordModel::Gnss(values)) ==> values.len()
            == context.header.g_fields.len(),
    decreases context.bytes.len() - state.position,
{
    lemma_frame_extent(context.header, context.bytes, state.position);
    lemma_frame_fits(context.header, context.bytes, state.position);
    match spec_parse_next_frame(context.header, context.bytes, state.position) {
        Ok((next, body)) => {
            lemma_process_keeps_wf(state.processor, body);
            let (processor, record) = state.processor.spec_process(body);
            if record is None {
                lemma_next_fits(context, ReaderModel { position: next, processor, ..state });
            }
        },
        Err(Fault::Soft) => {
            if !context.strict && state.position < context.bytes.len() {
                lemma_next_fits(context, ReaderModel { position: state.position + 1, ..state });
            }
        },
        Err(_) => {},
    }
}

/// A frame that is cut short is incomplete: where a frame decodes on an
/// input, it is incomplete on every part of the input that starts as the
/// input does and ends inside the frame, be it at its first byte, between
/// two of its values or in the middle of a varint.
pub proof fn lemma_cut_frame_is_incomplete(header: HeaderModel, whole: Seq<u8>, pos: int, cut: int)
    requires
        0 <= pos,
        0 <= cut <= whole.len(),
        spec_parse_next_frame(header, whole, pos) matches Ok((next, _)) && cut < next,
    ensures
        spec_parse_next_frame(header, whole.take(cut), pos) == Err::<(int, FrameModel), Fault>(
            Fault::Incomplete,
        ),
{
    if pos < cut {
        event::lemma_event_cut(whole, cut, pos);
        frame::data::lemma_tagged_cut(
            frame::data::TAG_I,
            header.i_field_encodings,
            whole,
            cut,
            pos,
        );
        frame::data::lemma_tagged_cut(
            frame::data::TAG_P,
            header.p_field_encodings,
            whole,
            cut,
            pos,
        );
        frame::data::lemma_tagged_cut(
            frame::data::TAG_S,
            header.s_field_encodings,
            whole,
            cut,
            pos,
        );
        frame::data::lemma_tagged_cut(
            frame::data::TAG_G,
            header.g_field_encodings,
            whole,
            cut,
            pos,
        );
        frame::data::lemma_tagged_cut(
            frame::data::TAG_H,
            header.h_field_encodings,
            whole,
            cut,
            pos,
        );
    }
}

/// A reader of either strictness that stands at the first byte of a frame
/// which the end of its input cuts short gives no record and stays at that
/// byte.
pub proof fn lemma_cut_frame_stops(
    context: ReaderContext,
    state: ReaderModel,
    whole: Seq<u8>,
    cut: int,
)
    requires
        0 <= state.position,
        0 <= cut <= whole.len(),
        context.bytes == whole.take(cut),
        spec_parse_next_frame(context.header, whole, state.position) matches Ok((next, _)) && cut
            < next,
    ensures
        context.spec_next(state) == (state, None::<RecordModel>),
{
    lemma_cut_frame_is_incomplete(context.header, whole, state.position, cut);
    lemma_truncated_stops(context, state);
}

/// A frame that decodes is not empty and ends in the input.
pub proof fn lemma_frame_extent(header: HeaderModel, s: Seq<u8>, pos: int)
    requires
        0 <= pos,
    ensures
        spec_parse_next_frame(header, s, pos) matches Ok((next, _)) ==> pos < next <= s.len(),
{
    if pos < s.len() {
        event::lemma_event_extent(s, pos);
        frame::data::lemma_tagged_extent(frame::data::TAG_I, header.i_field_encodings, s, pos);
        frame::data::lemma_tagged_extent(frame::data::TAG_P, header.p_field_encodings, s, pos);
        frame::data::lemma_tagged_extent(frame::data::TAG_S, header.s_field_encodings, s, pos);
        frame::data::lemma_tagged_extent(frame::data::TAG_G, header.g_field_encodings, s, pos);
        frame::data::lemma_tagged_extent(frame::data::TAG_H, header.h_field_encodings, s, pos);
    }
}

/// What opening a reader on `bytes` gives: the place where the header ends,
/// the schema, and the places of the fields `loopIteration` and `time`
/// among the main fields. The header must be complete and give a schema,
/// and the schema must have both fields.
#[verifier::opaque]
pub open spec fn spec_open(bytes: Seq<u8>) -> Result<
    (int, HeaderModel, int, int),
    BlackboxReaderError,
> {
    match spec_parse_headers(bytes) {
        Err(ParseHeadersError::Incomplete) => Err(BlackboxReaderError::Incomplete),
        Err(_) => Err(BlackboxReaderError::ParseHeader),
        Ok((end, header)) => match (
            spec_first_index(header.ip_names(), "loopIteration"@),
            spec_first_index(header.ip_names(), "time"@),
        ) {
            (Some(loop_iteration), Some(time)) => Ok((end, header, loop_iteration, time)),
            _ => Err(BlackboxReaderError::NoLoopIterationAndTime),
        },
    }
}

impl<'a> View for BlackboxReader<'a> {
    type V = ReaderModel;

    closed spec fn view(&self) -> ReaderModel {
        ReaderModel {
            position: self.position as int,
            processor: self.processor@,
            last_loop_iteration: self.last_loop_iteration,
            last_time: self.last_time,
        }
    }
}

impl<'a> BlackboxReader<'a> {
    /// What the reader reads and how.
    pub closed spec fn context(&self) -> ReaderContext {
        ReaderContext {
            bytes: self.bytes@,
            header: self.header@,
            strict: self.strictness == Strictness::Strict,
            loop_iteration_field_ix: self.loop_iteration_field_ix as int,
            time_field_ix: self.time_field_ix as int,
        }
    }

    /// The reader's parts fit together.
    pub closed spec fn wf(&self) -> bool {
        &&& self.processor.wf()
        &&& self.context().fits(self@)
    }

    /// Reads the header of a log and makes a reader for its records.
    pub fn new(bytes: &'a [u8], strictness: Strictness) -> (r: Result<
        BlackboxReader<'a>,
        BlackboxReaderError,
    >)
        ensures
            r matches Ok(reader) ==> reader.wf() && spec_open(bytes@) == Ok::<
                (int, HeaderModel, int, int),
                BlackboxReaderError,
            >(
                (
                    reader@.position,
                    reader.context().header,
                    reader.context().loop_iteration_field_ix,
                    reader.context().time_field_ix,
                ),
            ) && reader.context().bytes == bytes@ && reader.context().strict == (strictness
                == Strictness::Strict) && reader@.processor == ProcessorModel::initial(
                reader.context().header.i_field_predictors,
                reader.context().header.p_field_predictors,
                reader.context().header.g_field_predictors,
            ) && reader@.last_loop_iteration == 0 && reader@.last_time == 0 && 0
                < reader@.position <= bytes@.len(),
            r matches Err(e) ==> spec_open(bytes@) == Err::<
                (int, HeaderModel, int, int),
                BlackboxReaderError,
            >(e),
    {
        reveal(spec_open);
        let (position, header) = match parse_headers(bytes) {
            Ok(found) => found,
            Err(ParseHeadersError::Incomplete) => {
                return Err(BlackboxReaderError::Incomplete);
            },
            Err(_) => {
                return Err(BlackboxReaderError::ParseHeader);
            },
        };
        assert(spec_ip_names(header.ip_fields_in_order@) =~= header@.ip_names());
        let loop_iteration_field_ix: usize = match first_ip_field(
            &header.ip_fields_in_order,
            "loopIteration",
        ) {
            Some(ix) => ix,
            None => {
                return Err(BlackboxReaderError::NoLoopIterationAndTime);
            },
        };
        let time_field_ix: usize = match first_ip_field(&header.ip_fields_in_order, "time") {
            Some(ix) => ix,
            None => {
                return Err(BlackboxReaderError::NoLoopIterationAndTime);
            },
        };
        let main_fields: usize = header.ip_fields_in_order.len();
        let gnss_fields: usize = header.g_fields_in_order.len();
        let last_values: Vec<i64> = Vec::with_capacity(
            if main_fields >= gnss_fields {
                main_fields
            } else {
                gnss_fields
            },
        );
        let processor = LogProcessor::new(&header);
        Ok(
            BlackboxReader {
                strictness,
                last_values,
                bytes,
                position,
                processor,
                loop_iteration_field_ix,
                time_field_ix,
                header,
                last_loop_iteration: 0,
                last_time: 0,
            },
        )
    }

    /// A lenient reader for the log in `bytes`.
    pub fn from_bytes(bytes: &'a [u8]) -> (r: Result<BlackboxReader<'a>, BlackboxReaderError>)
        ensures
            r matches Ok(reader) ==> reader.wf() && spec_open(bytes@) == Ok::<
                (int, HeaderModel, int, int),
                BlackboxReaderError,
            >(
                (
                    reader@.position,
                    reader.context().header,
                    reader.context().loop_iteration_field_ix,
                    reader.context().time_field_ix,
                ),
            ) && reader.context().bytes == bytes@ && !reader.context().strict && reader@.processor
                == ProcessorModel::initial(
                reader.context().header.i_field_predictors,
                reader.context().header.p_field_predictors,
                reader.context().header.g_field_predictors,
            ) && reader@.last_loop_iteration == 0 && reader@.last_time == 0 && 0
                < reader@.position <= bytes@.len(),
            r matches Err(e) ==> spec_open(bytes@) == Err::<
                (int, HeaderModel, int, int),
                BlackboxReaderError,
            >(e),
    {
        Self::new(bytes, Strictness::Lenient)
    }

    /// The next record of the log, or nothing where the reading ends.
    pub fn next(&mut self) -> (r: Option<BlackboxRecord<'_>>)
        requires
            old(self).wf(),
        ensures
            final(self).wf(),
            final(self).context() == old(self).context(),
            (final(self)@, spec_blackbox_record(r)) == old(self).context().spec_next(old(self)@),
            r matches Some(BlackboxRecord::Main(values)) ==> values@.len() == old(
                self,
            ).context().header.ip_fields.len(),
            r matches Some(BlackboxRecord::GNSS(values)) ==> values@.len() == old(
                self,
            ).context().header.g_fields.len(),
    {
        proof {
            lemma_next_fits(self.context(), self@);
        }
        loop
            invariant
                self.wf(),
                self.context() == old(self).context(),
                old(self).context().spec_next(old(self)@) == self.context().spec_next(self@),
            decreases self.bytes@.len() - self.position,
        {
            match parse_next_frame(&self.header, self.bytes, self.position) {
                Ok((next, frame)) => {
                    proof {
                        lemma_process_keeps_wf(self.processor@, frame@);
                    }
                    self.position = next;
                    match self.processor.process_frame(frame) {
                        Some(LogRecord::Main(values)) => {
                            self.last_loop_iteration = values[self.loop_iteration_field_ix];
                            self.last_time = values[self.time_field_ix];
                            refill(&mut self.last_values, values);
                            return Some(BlackboxRecord::Main(self.last_values.as_slice()));
                        },
                        Some(LogRecord::GNSS(values)) => {
                            refill(&mut self.last_values, values);
                            return Some(BlackboxRecord::GNSS(self.last_values.as_slice()));
                        },
                        Some(LogRecord::Slow(values)) => {
                            return Some(BlackboxRecord::Slow(values));
                        },
                        Some(LogRecord::Event(ev)) => {
                            return Some(BlackboxRecord::Event(ev));
                        },
                        None => {},
                    }
                },
                Err(Fault::Soft) => {
                    match self.strictness {
                        Strictness::Strict => {
                            return None;
                        },
                        Strictness::Lenient => {
                            if self.position < self.bytes.len() {
                                self.position = self.position + 1;
                            } else {
                                return None;
                            }
                        },
                    }
                },
                Err(_) => {
                    return None;
                },
            }
        }
    }

    /// The number of bytes that the reader has read.
    pub fn bytes_read(&self) -> (r: usize)
        ensures
            r == self@.position,
    {
        self.position
    }
}

/// The bytes that start a log: `H Product:Blackbox`.
pub open spec fn spec_segment_marker() -> Seq<u8> {
    seq![
        0x48u8, 0x20, 0x50, 0x72, 0x6f, 0x64, 0x75, 0x63, 0x74, 0x3a, 0x42, 0x6c, 0x61, 0x63, 0x6b,
        0x62, 0x6f, 0x78,
    ]
}

/// The first place from `from` on where `needle` stands in `haystack`.
pub open spec fn spec_find_from(haystack: Seq<u8>, needle: Seq<u8>, from: int) -> Option<int>
    decreases haystack.len() + 1 - from,
{
    if from < 0 || from + needle.len() > haystack.len() {
        None
    } else if haystack.subrange(from, from + needle.len()) == needle {
        Some(from)
    } else {
        spec_find_from(haystack, needle, from + 1)
    }
}

/// `nom::FindSubstring::find_substring` on byte slices: the first place
/// where `needle` stands in `haystack`, if it stands anywhere. The empty
/// needle stands at the start.
#[verifier::external_body]
fn find_substring(haystack: &[u8], needle: &[u8]) -> (r: Option<usize>)
    ensures
        r matches Some(at) ==> spec_find_from(haystack@, needle@, 0) == Some(at as int),
        r is None ==> spec_find_from(haystack@, needle@, 0) is None,
{
    haystack.find_substring(needle)
}

/// What `spec_find_from` finds is a place in the haystack with the whole
/// needle behind it.
pub proof fn lemma_find_from(haystack: Seq<u8>, needle: Seq<u8>, from: int)
    requires
        0 <= from,
    ensures
        spec_find_from(haystack, needle, from) matches Some(at) ==> from <= at && at + needle.len()
            <= haystack.len() && haystack.subrange(at, at + needle.len()) == needle,
    decreases haystack.len() + 1 - from,
{
    if from + needle.len() <= haystack.len() && haystack.subrange(from, from + needle.len())
        != needle {
        lemma_find_from(haystack, needle, from + 1);
    }
}

/// Finds the logs in a file that holds several, one after the other.
pub struct MultiSegmentBlackboxReader<'a> {
    remaining_bytes: &'a [u8],
    strictness: Strictness,
}

impl<'a> MultiSegmentBlackboxReader<'a> {
    /// The bytes that have not been searched yet.
    pub closed spec fn remaining(&self) -> Seq<u8> {
        self.remaining_bytes@
    }

    /// The strictness of the readers that it makes.
    pub closed spec fn strictness(&self) -> Strictness {
        self.strictness
    }

    /// A finder of logs in `bytes`, whose readers have strictness
    /// `strictness`.
    pub fn new(bytes: &'a [u8], strictness: Strictness) -> (r: Self)
        ensures
            r.remaining() == bytes@,
            r.strictness() == strictness,
    {
        Self { remaining_bytes: bytes, strictness }
    }

    /// A finder of logs in `bytes`, whose readers are lenient.
    pub fn from_bytes(bytes: &'a [u8]) -> (r: Self)
        ensures
            r.remaining() == bytes@,
            r.strictness() == Strictness::Lenient,
    {
        Self::new(bytes, Strictness::Lenient)
    }

    /// Looks for the next start of a log and opens a reader there, on all
    /// the bytes from that place on. Where the reader opens, the search goes
    /// on behind its header; where it does not, one byte behind the start.
    pub fn next(&mut self) -> (r: Option<Result<BlackboxReader<'a>, BlackboxReaderError>>)
        ensures
            final(self).strictness() == old(self).strictness(),
            r is None <==> spec_find_from(old(self).remaining(), spec_segment_marker(), 0) is None,
            r is None ==> final(self).remaining() == old(self).remaining(),
            r matches Some(opened) ==> ({
                let at = spec_find_from(old(self).remaining(), spec_segment_marker(), 0)->0;
                let segment = old(self).remaining().subrange(
                    at,
                    old(self).remaining().len() as int,
                );
                &&& opened matches Ok(reader) ==> Self::spec_opened(
                    reader,
                    segment,
                    old(self).strictness(),
                ) && final(self).remaining() == segment.subrange(
                    reader@.position,
                    segment.len() as int,
                ) && 0 < reader@.position <= segment.len()
                &&& opened matches Err(e) ==> spec_open(segment) == Err::<
                    (int, HeaderModel, int, int),
                    BlackboxReaderError,
                >(e) && final(self).remaining() == segment.subrange(1, segment.len() as int)
            }),
            final(self).remaining().len() <= old(self).remaining().len(),
            r is Some ==> final(self).remaining().len() < old(self).remaining().len(),
    {
        let marker: [u8; 18] = [
            0x48, 0x20, 0x50, 0x72, 0x6f, 0x64, 0x75, 0x63, 0x74, 0x3a, 0x42, 0x6c, 0x61, 0x63, 0x6b,
            0x62, 0x6f, 0x78,
        ];
        assert(marker@ =~= spec_segment_marker());
        proof {
            lemma_find_from(self.remaining_bytes@, spec_segment_marker(), 0);
        }
        let pos: usize = match find_substring(self.remaining_bytes, marker.as_slice()) {
            None => {
                return None;
            },
            Some(at) => at,
        };
        let len: usize = self.remaining_bytes.len();
        let segment = slice_subrange(self.remaining_bytes, pos, len);
        let reader = BlackboxReader::new(segment, self.strictness);
        let skip: usize = match &reader {
            Ok(opened) => opened.bytes_read(),
            Err(_) => 1,
        };
        self.remaining_bytes = slice_subrange(segment, skip, segment.len());
        Some(reader)
    }

    /// Whether `reader` is what opening a reader on `segment` gives.
    pub open spec fn spec_opened(
        reader: BlackboxReader<'a>,
        segment: Seq<u8>,
        strictness: Strictness,
    ) -> bool {
        &&& reader.wf()
        &&& spec_open(segment) == Ok::<(int, HeaderModel, int, int), BlackboxReaderError>(
            (
                reader@.position,
                reader.context().header,
                reader.context().loop_iteration_field_ix,
                reader.context().time_field_ix,
            ),
        )
        &&& reader.context().bytes == segment
        &&& reader.context().strict == (strictness == Strictness::Strict)
        &&& reader@.processor == ProcessorModel::initial(
            reader.context().header.i_field_predictors,
            reader.context().header.p_field_predictors,
            reader.context().header.g_field_predictors,
        )
        &&& reader@.last_loop_iteration == 0
        &&& reader@.last_time == 0
    }

    /// The readers of all the logs that open, in the order of the logs.
    pub fn successful_only(self) -> (r: Vec<BlackboxReader<'a>>)
        ensures
            r@.len() == spec_opened_segments(self.remaining()).len(),
            forall|i: int|
                0 <= i < r@.len() ==> Self::spec_opened(
                    #[trigger] r@[i],
                    spec_opened_segments(self.remaining())[i],
                    self.strictness(),
                ),
    {
        let mut finder = self;
        let mut readers: Vec<BlackboxReader<'a>> = Vec::new();
        let ghost all = spec_opened_segments(self.remaining());
        loop
            invariant_except_break
                all == all.take(readers@.len() as int) + spec_opened_segments(finder.remaining()),
            invariant
                finder.strictness() == self.strictness(),
                all == spec_opened_segments(self.remaining()),
                readers@.len() <= all.len(),
                forall|i: int|
                    0 <= i < readers@.len() ==> Self::spec_opened(
                        #[trigger] readers@[i],
                        all[i],
                        self.strictness(),
                    ),
            ensures
                readers@.len() == all.len(),
            decreases finder.remaining().len(),
        {
            let ghost before = finder.remaining();
            let ghost found = readers@.len() as int;
            proof {
                lemma_find_from(before, spec_segment_marker(), 0);
            }
            match finder.next() {
                None => {
                    break ;
                },
                Some(Ok(reader)) => {
                    readers.push(reader);
                    proof {
                        let rest = spec_opened_segments(finder.remaining());
                        let segment = reader.context().bytes;
                        assert(all.take(found) + (seq![segment] + rest) =~= all.take(found).push(
                            segment,
                        ) + rest);
                        assert(all.take(found + 1) =~= all.take(found).push(segment));
                    }
                },
                Some(Err(_)) => {},
            }
        }
        readers
    }
}

/// The logs of a file that open, in the order in which they are found:
/// each is all the bytes from a start of a log on. The search for the next
/// goes on behind the header of a log that opens, and one byte behind the
/// start of one that does not.
pub open spec fn spec_opened_segments(remaining: Seq<u8>) -> Seq<Seq<u8>>
    decreases remaining.len(),
{
    match spec_find_from(remaining, spec_segment_marker(), 0) {
        Some(at) if 0 <= at < remaining.len() => {
            let segment = remaining.subrange(at, remaining.len() as int);
            match spec_open(segment) {
                Ok((end, _, _, _)) if 0 < end <= segment.len() => seq![segment]
                    + spec_opened_segments(segment.subrange(end, segment.len() as int)),
                Err(_) => spec_opened_segments(segment.subrange(1, segment.len() as int)),
                _ => Seq::empty(),
            }
        },
        _ => Seq::empty(),
    }
}

} // verus!
