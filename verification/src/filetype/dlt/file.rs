//! Reading a DLT file.
//!
//! A file is a row of messages, each behind a storage header of sixteen bytes that begins
//! with a pattern. The header of the message itself holds its length. Where the pattern is
//! missing, sixteen bytes are passed over, and where the length is less than that of the
//! header, both headers are.

use super::line;
use super::line::DltLogLine;
use super::message::DltValue::{Float, Signed, Text, Unsigned};
use super::message::{
    DltArgument, DltExtendedHeader, DltMessage, DltPayload, DltStorageHeader, DltValue,
};
use super::reader;
use super::reader::{BatchView, DltBatch, DltRead};
use super::state;
use super::state::{DltFileState, DltStateView};
use crate::net;
use dlt_core::dlt::PayloadContent::{ControlMsg, NetworkTrace, NonVerbose, Verbose};
use dlt_core::dlt::Value::{
    Bool, StringVal, F32, F64, I128, I16, I32, I64, I8, U128, U16, U32, U64, U8,
};
use dlt_core::dlt::{Argument, Value};
use dlt_core::parse::{dlt_message, ParsedMessage};
use vstd::prelude::*;

verus! {

/// An argument of a message as `dlt_core` holds it.
#[verifier::external_type_specification]
#[verifier::external_body]
pub struct ExArgument(dlt_core::dlt::Argument);

/// The value of an argument, with its texts as sequences.
pub enum ValueView {
    Text(Seq<char>),
    Unsigned(u128),
    Signed(i128),
    Float(Seq<char>),
    Raw(Seq<u8>),
}

/// An argument, with its texts as sequences.
pub struct ArgumentView {
    pub name: Option<Seq<char>>,
    pub value: ValueView,
}

impl View for DltValue {
    type V = ValueView;

    open spec fn view(&self) -> ValueView {
        match self {
            DltValue::Text(s) => ValueView::Text(s@),
            DltValue::Unsigned(n) => ValueView::Unsigned(*n),
            DltValue::Signed(i) => ValueView::Signed(*i),
            DltValue::Float(s) => ValueView::Float(s@),
            DltValue::Raw(b) => ValueView::Raw(b@),
        }
    }
}

impl View for DltArgument {
    type V = ArgumentView;

    open spec fn view(&self) -> ArgumentView {
        ArgumentView { name: crate::text::opt_text(self.name), value: self.value@ }
    }
}

/// The name and the value of an argument.
pub uninterp spec fn argument_parts(a: Argument) -> ArgumentView;

/// Reads the name and the value of a `dlt_core::dlt::Argument`.
///
/// Whole numbers keep their value, whatever their width; a truth value is the number that
/// stands for it; numbers with a fraction are written in decimal. What is written for
/// these is a function of the argument.
#[verifier::external_body]
fn read_argument(a: Argument) -> (r: DltArgument)
    ensures
        r@ == argument_parts(a),
{
    DltArgument { name: a.name, value: match a.value {
        Bool(v) | U8(v) => Unsigned(v as u128),
        U16(v) => Unsigned(v as u128),
        U32(v) => Unsigned(v as u128),
        U64(v) => Unsigned(v as u128),
        U128(v) => Unsigned(v),
        I8(v) => Signed(v as i128),
        I16(v) => Signed(v as i128),
        I32(v) => Signed(v as i128),
        I64(v) => Signed(v as i128),
        I128(v) => Signed(v),
        F32(v) => Float(v.to_string()),
        F64(v) => Float(v.to_string()),
        StringVal(s) => Text(s),
        Value::Raw(b) => DltValue::Raw(b) } }
}

/// What a message carries, its arguments as `dlt_core` holds them.
pub enum RawPayload {
    Verbose(Vec<Argument>),
    NonVerbose(Vec<u8>),
    ControlMsg(Vec<u8>),
    /// As many pieces of a network trace.
    NetworkTrace(usize),
}

/// A message that was read: in full detail; the seconds, microseconds and control unit of
/// its storage header; its control unit, session and time; its kind, application and
/// context; and what it carries.
pub struct RawMessage(
    pub String,
    pub Option<(u32, u32, String)>,
    pub (Option<String>, Option<u32>, Option<u32>),
    pub Option<(String, String, String)>,
    pub RawPayload,
);

/// What a message carries, with its bytes as sequences.
pub enum RawPayloadView {
    Verbose(Seq<Argument>),
    NonVerbose(Seq<u8>),
    ControlMsg(Seq<u8>),
    NetworkTrace(usize),
}

/// A message that was read, with its texts as sequences.
pub struct RawMessageView {
    pub detail: Seq<char>,
    pub storage: Option<(u32, u32, Seq<char>)>,
    pub ecu_id: Option<Seq<char>>,
    pub session_id: Option<u32>,
    pub timestamp: Option<u32>,
    pub extended: Option<(Seq<char>, Seq<char>, Seq<char>)>,
    pub payload: RawPayloadView,
}

impl View for RawPayload {
    type V = RawPayloadView;

    open spec fn view(&self) -> RawPayloadView {
        match self {
            RawPayload::Verbose(args) => RawPayloadView::Verbose(args@),
            RawPayload::NonVerbose(b) => RawPayloadView::NonVerbose(b@),
            RawPayload::ControlMsg(b) => RawPayloadView::ControlMsg(b@),
            RawPayload::NetworkTrace(n) => RawPayloadView::NetworkTrace(*n),
        }
    }
}

impl View for RawMessage {
    type V = RawMessageView;

    open spec fn view(&self) -> RawMessageView {
        RawMessageView {
            detail: self.0@,
            storage: match self.1 {
                Some((seconds, microseconds, ecu)) => Some((seconds, microseconds, ecu@)),
                None => None,
            },
            ecu_id: crate::text::opt_text(self.2.0),
            session_id: self.2.1,
            timestamp: self.2.2,
            extended: match self.3 {
                Some((kind, app, context)) => Some((kind@, app@, context@)),
                None => None,
            },
            payload: self.4@,
        }
    }
}

/// The number of bytes of a storage header.
pub const STORAGE_HEADER: usize = 16;

/// The least number of bytes of the header of a message.
pub const MESSAGE_HEADER: usize = 4;

/// Whether a storage header begins at a place.
pub open spec fn is_header_at(d: Seq<u8>, i: int) -> bool {
    &&& 0 <= i
    &&& i + 4 <= d.len()
    &&& d[i] == 0x44
    &&& d[i + 1] == 0x4c
    &&& d[i + 2] == 0x54
    &&& d[i + 3] == 1
}

/// The bytes that a message takes behind a storage header at a place, by its own header.
pub open spec fn frame_len(d: Seq<u8>, i: int) -> int {
    STORAGE_HEADER + net::be16(d[i + 18], d[i + 19])
}

/// Whether bytes are one message with its storage header.
pub open spec fn is_frame(d: Seq<u8>) -> bool {
    &&& d.len() >= STORAGE_HEADER + MESSAGE_HEADER
    &&& is_header_at(d, 0)
    &&& d.len() == frame_len(d, 0)
}

/// What `dlt_core` reads from the bytes of a message: nothing where it refuses them, no
/// message where they hold none.
pub uninterp spec fn parsed_message(d: Seq<u8>) -> Option<Option<RawMessageView>>;

/// Reads the bytes of one message, with its storage header, with
/// `dlt_core::parse::dlt_message`. What it reads is a function of the bytes.
#[verifier::external_body]
fn parse_message(d: &[u8]) -> (r: Option<Option<RawMessage>>)
    requires
        is_frame(d@),
    ensures
        match r {
            Some(Some(m)) => parsed_message(d@) == Some(Some(m@)),
            Some(None) => parsed_message(d@) == Some(None::<RawMessageView>),
            None => parsed_message(d@) is None,
        },
{
    let (_, parsed) = dlt_message(d, None, true).ok()?;
    let ParsedMessage::Item(m) = parsed else { return Some(None) };
    Some(Some(RawMessage(
        format!("{m:?}"),
        m.storage_header.map(|h| (h.timestamp.seconds, h.timestamp.microseconds, h.ecu_id)),
        (m.header.ecu_id, m.header.session_id, m.header.timestamp),
        m.extended_header.map(|h| (format!("{:?}", h.message_type), h.application_id, h.context_id)),
        match m.payload {
            Verbose(a) => RawPayload::Verbose(a),
            NonVerbose(_, b) => RawPayload::NonVerbose(b),
            ControlMsg(_, b) => RawPayload::ControlMsg(b),
            NetworkTrace(t) => RawPayload::NetworkTrace(t.len()),
        })))
}

/// Whether arguments are those that were read.
pub open spec fn are_arguments_of(args: Seq<DltArgument>, raw: Seq<Argument>) -> bool {
    &&& args.len() == raw.len()
    &&& forall|i: int| 0 <= i < args.len() ==> (#[trigger] args[i])@ == argument_parts(raw[i])
}

/// Whether a message is the one that was read.
pub open spec fn is_message_of(m: DltMessage, raw: RawMessageView) -> bool {
    &&& m.detail@ == raw.detail
    &&& match m.storage_header {
        Some(h) => raw.storage == Some((h.seconds, h.microseconds, h.ecu_id@)),
        None => raw.storage is None,
    }
    &&& crate::text::opt_text(m.ecu_id) == raw.ecu_id
    &&& m.session_id == raw.session_id
    &&& m.timestamp == raw.timestamp
    &&& match m.extended_header {
        Some(h) => raw.extended == Some((h.message_type@, h.application_id@, h.context_id@)),
        None => raw.extended is None,
    }
    &&& match (m.payload, raw.payload) {
        (DltPayload::Verbose(args), RawPayloadView::Verbose(a)) => are_arguments_of(args@, a),
        (DltPayload::NonVerbose(b), RawPayloadView::NonVerbose(c)) => b@ == c,
        (DltPayload::ControlMsg(b), RawPayloadView::ControlMsg(c)) => b@ == c,
        (DltPayload::NetworkTrace(n), RawPayloadView::NetworkTrace(k)) => n == k,
        _ => false,
    }
}

fn read_arguments(raw: Vec<Argument>) -> (r: Vec<DltArgument>)
    ensures
        are_arguments_of(r@, raw@),
{
    let mut out: Vec<DltArgument> = Vec::new();
    let ghost all = raw@;
    for a in it: raw.into_iter()
        invariant
            it.seq() == all,
            out@.len() == it.index(),
            forall|i: int| 0 <= i < out@.len() ==> (#[trigger] out@[i])@ == argument_parts(all[i]),
    {
        out.push(read_argument(a));
    }
    out
}

/// Makes a message of what was read.
pub fn plain_message(raw: RawMessage) -> (r: DltMessage)
    ensures
        is_message_of(r, raw@),
{
    let RawMessage(detail, storage, header, extended, payload) = raw;
    DltMessage {
        storage_header: match storage {
            Some((seconds, microseconds, ecu_id)) => Some(
                DltStorageHeader { seconds, microseconds, ecu_id },
            ),
            None => None,
        },
        ecu_id: header.0,
        session_id: header.1,
        timestamp: header.2,
        extended_header: match extended {
            Some((message_type, application_id, context_id)) => Some(
                DltExtendedHeader { message_type, application_id, context_id },
            ),
            None => None,
        },
        payload: match payload {
            RawPayload::Verbose(args) => DltPayload::Verbose(read_arguments(args)),
            RawPayload::NonVerbose(b) => DltPayload::NonVerbose(b),
            RawPayload::ControlMsg(b) => DltPayload::ControlMsg(b),
            RawPayload::NetworkTrace(n) => DltPayload::NetworkTrace(n),
        },
        detail,
    }
}

/// The place of the next message from a place on, where there is one: that of its storage
/// header. What has no pattern, and a message shorter than its header, is passed over.
pub open spec fn next_frame(d: Seq<u8>, at: int) -> Option<int>
    decreases d.len() - at,
{
    if at + STORAGE_HEADER > d.len() {
        None
    } else if !is_header_at(d, at) {
        next_frame(d, at + STORAGE_HEADER)
    } else if at + STORAGE_HEADER + MESSAGE_HEADER > d.len() {
        None
    } else if frame_len(d, at) < STORAGE_HEADER + MESSAGE_HEADER {
        next_frame(d, at + STORAGE_HEADER + MESSAGE_HEADER)
    } else {
        Some(at)
    }
}

/// Whether reading at a place gives something and goes on at another. A message that is cut
/// off cannot be read; behind it, and where there is no message, the file ends.
pub open spec fn is_step(d: Seq<u8>, at: int, read: DltRead, next: int) -> bool {
    match next_frame(d, at) {
        None => read is End && next == d.len(),
        Some(i) => if i + frame_len(d, i) > d.len() {
            read is Failed && next == d.len()
        } else {
            next == i + frame_len(d, i) && is_read_of(d.subrange(i, next), read)
        },
    }
}

proof fn lemma_next_frame(d: Seq<u8>, at: int)
    requires
        0 <= at,
    ensures
        next_frame(d, at) matches Some(i) ==> {
            &&& at <= i
            &&& i + STORAGE_HEADER + MESSAGE_HEADER <= d.len()
            &&& is_header_at(d, i)
            &&& frame_len(d, i) >= STORAGE_HEADER + MESSAGE_HEADER
        },
    decreases d.len() - at,
{
    if at + STORAGE_HEADER <= d.len() {
        if !is_header_at(d, at) {
            lemma_next_frame(d, at + STORAGE_HEADER);
        } else if at + STORAGE_HEADER + MESSAGE_HEADER <= d.len() && frame_len(d, at)
            < STORAGE_HEADER + MESSAGE_HEADER {
            lemma_next_frame(d, at + STORAGE_HEADER + MESSAGE_HEADER);
        }
    }
}

/// Whether something is what the bytes of a message give.
pub open spec fn is_read_of(frame: Seq<u8>, read: DltRead) -> bool {
    match parsed_message(frame) {
        None => read is Failed,
        Some(None) => read is Skipped,
        Some(Some(raw)) => read matches DltRead::Message(m) && is_message_of(m, raw),
    }
}

fn find_frame(d: &Vec<u8>, at: usize) -> (r: Option<usize>)
    requires
        at <= d@.len(),
    ensures
        match r {
            Some(i) => next_frame(d@, at as int) == Some(i as int),
            None => next_frame(d@, at as int) is None,
        },
{
    let n: usize = d.len();
    let mut i: usize = at;
    while n - i >= STORAGE_HEADER
        invariant
            at <= i <= n,
            n == d@.len(),
            next_frame(d@, i as int) == next_frame(d@, at as int),
        decreases n - i,
    {
        if d[i] == 0x44 && d[i + 1] == 0x4c && d[i + 2] == 0x54 && d[i + 3] == 1 {
            if n - i < STORAGE_HEADER + MESSAGE_HEADER {
                return None;
            }
            if net::read_be16(d[i + 18], d[i + 19]) as usize >= MESSAGE_HEADER {
                return Some(i);
            }
            i += STORAGE_HEADER + MESSAGE_HEADER;
        } else {
            i += STORAGE_HEADER;
        }
    }
    None
}

/// A DLT file in memory, and how far it was read.
pub struct DltFileType {
    data: Vec<u8>,
    at: usize,
    line_number: usize,
}

impl DltFileType {
    pub closed spec fn bytes(&self) -> Seq<u8> {
        self.data@
    }

    /// How many bytes were read.
    pub closed spec fn position(&self) -> int {
        self.at as int
    }

    /// The number of the next line.
    pub closed spec fn next_line(&self) -> usize {
        self.line_number
    }

    #[verifier::type_invariant]
    spec fn wf(&self) -> bool {
        self.at <= self.data@.len()
    }

    /// Whether reading as many lines gives some, and leaves the file and the state of the
    /// log so.
    pub open spec fn reads_to(
        &self,
        wanted: usize,
        state: DltStateView,
        after: DltFileType,
        state_after: DltStateView,
        lines: Seq<DltLogLine>,
    ) -> bool {
        &&& after.bytes() == self.bytes()
        &&& exists|
            reads: Seq<DltRead>,
            places: Seq<int>,
            batches: Seq<BatchView>,
            states: Seq<DltStateView>,
        |
            {
                &&& #[trigger] is_run(self.bytes(), reads, places, batches, states)
                &&& places[0] == self.position()
                &&& places.last() == after.position()
                &&& batches[0] == reader::empty_batch(wanted, self.next_line())
                &&& !batches.last().wants_more()
                &&& batches.last().lines == lines
                &&& batches.last().line_number == after.next_line()
                &&& states[0] == state
                &&& states.last() == state_after
            }
    }

    /// A file of which nothing was read.
    pub fn open(data: Vec<u8>) -> (r: Self)
        ensures
            r.bytes() == data@,
            r.position() == 0,
            r.next_line() == 1,
    {
        DltFileType { data, at: 0, line_number: 1 }
    }

    /// How many bytes were read, and how many there are.
    pub fn progress(&self) -> (r: (usize, usize))
        ensures
            r.0 == self.position(),
            r.1 == self.bytes().len(),
    {
        (self.at, self.data.len())
    }

    /// The number of the next line.
    pub fn line_number(&self) -> (r: usize)
        ensures
            r == self.next_line(),
    {
        self.line_number
    }

    fn next(&mut self) -> (r: DltRead)
        ensures
            is_step(old(self).bytes(), old(self).position(), r, final(self).position()),
            final(self).bytes() == old(self).bytes(),
            final(self).next_line() == old(self).next_line(),
    {
        proof {
            use_type_invariant(&*self);
        }
        let n: usize = self.data.len();
        let ghost (d, at) = (self.data@, self.at as int);
        proof {
            lemma_next_frame(d, at);
        }
        let i: usize = match find_frame(&self.data, self.at) {
            Some(i) => i,
            None => {
                self.at = n;
                return DltRead::End;
            },
        };
        let len: usize = STORAGE_HEADER + net::read_be16(
            self.data[i + 18],
            self.data[i + 19],
        ) as usize;
        if len > n - i {
            self.at = n;
            return DltRead::Failed;
        }
        let frame = vstd::slice::slice_subrange(self.data.as_slice(), i, i + len);
        assert(frame@ =~= d.subrange(i as int, i + len));
        assert(is_header_at(frame@, 0));
        let read = read_frame(frame);
        self.at = i + len;
        read
    }

    /// Reads the next lines, as many as are wanted and there, and the start times that they
    /// tell.
    pub fn read(&mut self, wanted: usize, state: &mut DltFileState) -> (r: Vec<DltLogLine>)
        requires
            wanted * 10 + 64 <= usize::MAX,
            old(self).next_line() + wanted <= usize::MAX,
        ensures
            old(self).reads_to(wanted, old(state)@, *final(self), final(state)@, r@),
            old(self).position() <= final(self).position() <= old(self).bytes().len(),
            r@.len() > 0 ==> old(self).position() < final(self).position(),
    {
        proof {
            use_type_invariant(&*self);
        }
        let mut batch = DltBatch::new(wanted, self.line_number);
        let ghost d = self.bytes();
        let ghost mut reads: Seq<DltRead> = Seq::empty();
        let ghost mut places: Seq<int> = seq![self.position()];
        let ghost mut batches: Seq<BatchView> = seq![batch@];
        let ghost mut states: Seq<DltStateView> = seq![state@];
        while batch.wants_more()
            invariant
                d == old(self).bytes(),
                self.bytes() == d,
                self.next_line() == old(self).next_line(),
                is_run(d, reads, places, batches, states),
                places[0] == old(self).position(),
                0 <= places[0] <= d.len(),
                places.last() == self.position(),
                batches[0] == reader::empty_batch(wanted, old(self).next_line()),
                batches.last() == batch@,
                batch@.wanted == wanted,
                batch@.attempts <= wanted * 10 + 64,
                states[0] == old(state)@,
                states.last() == state@,
            decreases wanted * 10 + 64 - batch@.attempts,
        {
            let ghost before = (reads, places, batches, states);
            let read = self.next();
            let ghost step = read;
            batch.take(state, read);
            proof {
                reads = reads.push(step);
                places = places.push(self.position());
                batches = batches.push(batch@);
                states = states.push(state@);
                lemma_run_step(
                    d,
                    before.0,
                    before.1,
                    before.2,
                    before.3,
                    step,
                    self.position(),
                    batch@,
                    state@,
                );
            }
        }
        let (lines, next) = batch.into_lines();
        proof {
            use_type_invariant(&*self);
            lemma_run_moves_on(d, reads, places, batches, states);
        }
        self.line_number = next;
        assert(is_run(old(self).bytes(), reads, places, batches, states));
        lines
    }
}

/// Whether reads follow each other in a file, each taken into a batch that wanted more.
pub open spec fn is_run(
    d: Seq<u8>,
    reads: Seq<DltRead>,
    places: Seq<int>,
    batches: Seq<BatchView>,
    states: Seq<DltStateView>,
) -> bool {
    &&& places.len() == reads.len() + 1
    &&& batches.len() == reads.len() + 1
    &&& states.len() == reads.len() + 1
    &&& forall|i: int|
        0 <= i < reads.len() ==> {
            &&& is_step(d, places[i], #[trigger] reads[i], places[i + 1])
            &&& batches[i].wants_more()
            &&& reader::takes_to(batches[i], states[i], reads[i], batches[i + 1], states[i + 1])
        }
}

proof fn lemma_run_step(
    d: Seq<u8>,
    reads: Seq<DltRead>,
    places: Seq<int>,
    batches: Seq<BatchView>,
    states: Seq<DltStateView>,
    read: DltRead,
    place: int,
    batch: BatchView,
    state: DltStateView,
)
    requires
        is_run(d, reads, places, batches, states),
        is_step(d, places.last(), read, place),
        batches.last().wants_more(),
        reader::takes_to(batches.last(), states.last(), read, batch, state),
    ensures
        is_run(d, reads.push(read), places.push(place), batches.push(batch), states.push(state)),
{
    let (r, p, b, s) = (
        reads.push(read),
        places.push(place),
        batches.push(batch),
        states.push(state),
    );
    assert forall|i: int| 0 <= i < r.len() implies {
        &&& is_step(d, p[i], #[trigger] r[i], p[i + 1])
        &&& b[i].wants_more()
        &&& reader::takes_to(b[i], s[i], r[i], b[i + 1], s[i + 1])
    } by {
        if i < reads.len() {
            assert(r[i] == reads[i]);
        }
    }
}

proof fn lemma_run_front(
    d: Seq<u8>,
    reads: Seq<DltRead>,
    places: Seq<int>,
    batches: Seq<BatchView>,
    states: Seq<DltStateView>,
)
    requires
        is_run(d, reads, places, batches, states),
        reads.len() > 0,
    ensures
        is_run(
            d,
            reads.drop_last(),
            places.drop_last(),
            batches.drop_last(),
            states.drop_last(),
        ),
{
    let (r, p, b, s) = (
        reads.drop_last(),
        places.drop_last(),
        batches.drop_last(),
        states.drop_last(),
    );
    assert forall|i: int| 0 <= i < r.len() implies {
        &&& is_step(d, p[i], #[trigger] r[i], p[i + 1])
        &&& b[i].wants_more()
        &&& reader::takes_to(b[i], s[i], r[i], b[i + 1], s[i + 1])
    } by {
        assert(r[i] == reads[i]);
    }
}

/// Reading a file sets start times and nothing else, and none that is known; it sets those
/// of all lines that are read and go by one.
pub proof fn reading_only_seeds(
    d: Seq<u8>,
    reads: Seq<DltRead>,
    places: Seq<int>,
    batches: Seq<BatchView>,
    states: Seq<DltStateView>,
)
    requires
        is_run(d, reads, places, batches, states),
        batches[0].lines.len() == 0,
    ensures
        state::only_seeded(states[0], states.last()),
        line::are_seeded(batches.last().lines, states.last()),
    decreases reads.len(),
{
    if reads.len() > 0 {
        let n = reads.len() - 1;
        lemma_run_front(d, reads, places, batches, states);
        reading_only_seeds(
            d,
            reads.drop_last(),
            places.drop_last(),
            batches.drop_last(),
            states.drop_last(),
        );
        assert(reader::takes_to(batches[n], states[n], reads[n], batches[n + 1], states[n + 1]));
        let (before, after) = (batches[n].lines, batches[n + 1].lines);
        assert forall|i: int| 0 <= i < after.len() implies (#[trigger] after[i]).is_seeded(
            states[n + 1],
        ) by {
            if i < before.len() {
                assert(before[i].is_seeded(states[n]));
                assert(after[i] == before[i]) by {
                    if after.len() > before.len() {
                        assert(after.drop_last()[i] == before[i]);
                    }
                }
            }
        }
    }
}

/// A file is read from its beginning to its end: what was read is not read again, and lines
/// come only from bytes that were not read before.
pub proof fn lemma_run_moves_on(
    d: Seq<u8>,
    reads: Seq<DltRead>,
    places: Seq<int>,
    batches: Seq<BatchView>,
    states: Seq<DltStateView>,
)
    requires
        is_run(d, reads, places, batches, states),
        batches[0].lines.len() == 0,
        0 <= places[0] <= d.len(),
    ensures
        places[0] <= places.last() <= d.len(),
        batches.last().lines.len() > 0 ==> places[0] < places.last(),
    decreases reads.len(),
{
    if reads.len() > 0 {
        let n = reads.len() - 1;
        lemma_run_front(d, reads, places, batches, states);
        lemma_run_moves_on(
            d,
            reads.drop_last(),
            places.drop_last(),
            batches.drop_last(),
            states.drop_last(),
        );
        assert(is_step(d, places[n], reads[n], places[n + 1]));
        lemma_next_frame(d, places[n]);
    }
}

fn read_frame(frame: &[u8]) -> (r: DltRead)
    requires
        is_frame(frame@),
    ensures
        is_read_of(frame@, r),
{
    match parse_message(frame) {
        None => DltRead::Failed,
        Some(None) => DltRead::Skipped,
        Some(Some(raw)) => DltRead::Message(plain_message(raw)),
    }
}

/// Messages that stand in a row are each read: where one begins at a place with its storage
/// header and is as long as its own header says, its bytes are what is read there, whatever
/// stands before and behind them, and reading goes on behind them.
pub proof fn messages_in_a_row_are_each_read(
    before: Seq<u8>,
    frame: Seq<u8>,
    behind: Seq<u8>,
    read: DltRead,
    next: int,
)
    requires
        frame.len() >= 20,
        frame[0] == 0x44,
        frame[1] == 0x4c,
        frame[2] == 0x54,
        frame[3] == 0x01,
        frame.len() == 16 + frame[18] * 0x100 + frame[19],
    ensures
        is_step(before + frame + behind, before.len() as int, read, next) ==> {
            &&& next == before.len() + frame.len()
            &&& parsed_message(frame) is None ==> read is Failed
            &&& parsed_message(frame) == Some(None::<RawMessageView>) ==> read is Skipped
            &&& parsed_message(frame) matches Some(Some(raw)) ==> (read matches DltRead::Message(m)
                && is_message_of(m, raw))
        },
{
    let d = before + frame + behind;
    let at = before.len() as int;
    assert(d[at] == frame[0] && d[at + 1] == frame[1] && d[at + 2] == frame[2] && d[at + 3]
        == frame[3] && d[at + 18] == frame[18] && d[at + 19] == frame[19]);
    assert(next_frame(d, at) == Some(at));
    assert(d.subrange(at, at + frame.len()) =~= frame);
}

/// A message that is cut off cannot be read, and nothing is read behind it. Where fewer bytes
/// are left than a storage header has, the file ends.
pub proof fn cut_off_messages_end_the_file(d: Seq<u8>, at: int, read: DltRead, next: int)
    requires
        0 <= at <= d.len(),
        is_step(d, at, read, next),
    ensures
        d.len() - at < 16 ==> read is End && next == d.len(),
        d.len() - at >= 20 && d[at] == 0x44 && d[at + 1] == 0x4c && d[at + 2] == 0x54 && d[at + 3]
            == 0x01 && d[at + 18] * 0x100 + d[at + 19] >= 4 && 16 + d[at + 18] * 0x100 + d[at + 19]
            > d.len() - at ==> read is Failed && next == d.len(),
{
}

/// Sixteen bytes that do not begin as a storage header does are passed over.
pub proof fn other_bytes_are_passed_over(d: Seq<u8>, at: int, read: DltRead, next: int)
    requires
        0 <= at,
        at + 16 <= d.len(),
        !(d[at] == 0x44 && d[at + 1] == 0x4c && d[at + 2] == 0x54 && d[at + 3] == 0x01),
    ensures
        is_step(d, at, read, next) == is_step(d, at + 16, read, next),
{
}

/// A message keeps what was read: its headers, its numbers, its arguments in their order and
/// its bytes.
pub proof fn messages_keep_what_was_read(m: DltMessage, raw: RawMessageView, i: int)
    requires
        is_message_of(m, raw),
    ensures
        m.detail@ == raw.detail,
        m.session_id == raw.session_id,
        m.timestamp == raw.timestamp,
        m.ecu_id is Some == raw.ecu_id is Some,
        m.ecu_id matches Some(s) ==> raw.ecu_id == Some(s@),
        raw.storage matches Some((seconds, microseconds, ecu)) ==> (m.storage_header matches Some(h)
            && h.seconds == seconds && h.microseconds == microseconds && h.ecu_id@ == ecu),
        raw.storage is None ==> m.storage_header is None,
        raw.extended matches Some((kind, app, context)) ==> (m.extended_header matches Some(h)
            && h.message_type@ == kind && h.application_id@ == app && h.context_id@ == context),
        raw.extended is None ==> m.extended_header is None,
        raw.payload matches RawPayloadView::NonVerbose(b) ==> (m.payload matches DltPayload::NonVerbose(
            c,
        ) && c@ == b),
        raw.payload matches RawPayloadView::ControlMsg(b) ==> (m.payload matches DltPayload::ControlMsg(
            c,
        ) && c@ == b),
        raw.payload matches RawPayloadView::NetworkTrace(n) ==> (m.payload matches DltPayload::NetworkTrace(
            k,
        ) && k == n),
        raw.payload matches RawPayloadView::Verbose(a) ==> (m.payload matches DltPayload::Verbose(
            args,
        ) && args@.len() == a.len() && (0 <= i < a.len() ==> args@[i]@ == argument_parts(a[i]))),
{
}

/// Lines that are read from a file are numbered in a row, from the number of the first one on,
/// and there are at most as many as are wanted.
pub proof fn lines_are_numbered_in_a_row(
    d: Seq<u8>,
    reads: Seq<DltRead>,
    places: Seq<int>,
    batches: Seq<BatchView>,
    states: Seq<DltStateView>,
    wanted: usize,
    first: usize,
)
    requires
        is_run(d, reads, places, batches, states),
        batches[0].lines.len() == 0,
        batches[0].wanted == wanted,
        batches[0].line_number == first,
        first + wanted <= usize::MAX,
    ensures
        batches.last().wanted == wanted,
        batches.last().lines.len() <= wanted,
        batches.last().line_number == first + batches.last().lines.len(),
        forall|i: int|
            0 <= i < batches.last().lines.len() ==> (
            #[trigger] batches.last().lines[i]).line_number == first + i,
    decreases reads.len(),
{
    if reads.len() > 0 {
        let n = reads.len() - 1;
        lemma_run_front(d, reads, places, batches, states);
        lines_are_numbered_in_a_row(
            d,
            reads.drop_last(),
            places.drop_last(),
            batches.drop_last(),
            states.drop_last(),
            wanted,
            first,
        );
        assert(reader::takes_to(batches[n], states[n], reads[n], batches[n + 1], states[n + 1]));
        assert(batches[n].wants_more());
        let (before, after) = (batches[n].lines, batches[n + 1].lines);
        assert(batches.drop_last().last() == batches[n]);
        assert forall|i: int| 0 <= i < after.len() implies (#[trigger] after[i]).line_number
            == first + i by {
            if i < before.len() {
                assert(after[i] == before[i]) by {
                    if after.len() > before.len() {
                        assert(after.drop_last()[i] == before[i]);
                    }
                }
            }
        }
    }
}

/// Every message of a file that has a storage header with a time and an extended header becomes
/// a line, in the order of the file, and no line comes from anything else.
pub proof fn messages_become_lines(
    d: Seq<u8>,
    reads: Seq<DltRead>,
    places: Seq<int>,
    batches: Seq<BatchView>,
    states: Seq<DltStateView>,
    i: int,
)
    requires
        is_run(d, reads, places, batches, states),
        0 <= i < reads.len(),
    ensures
        ({
            let before = batches[i].lines;
            let after = batches[i + 1].lines;
            let lined = reads[i] matches DltRead::Message(m) && m.extended_header is Some && (
            m.storage_header matches Some(h) && reader::stored_time(
                h.seconds,
                h.microseconds,
            ).valid());
            &&& lined ==> after.len() == before.len() + 1 && after.drop_last() == before
                && after.last().dlt_message == reads[i]->Message_0
            &&& !lined ==> after == before && states[i + 1] == states[i]
            &&& batches[i + 1].ended == (reads[i] is End)
        }),
{
    assert(reader::takes_to(batches[i], states[i], reads[i], batches[i + 1], states[i + 1]));
}

} // verus!
