//! Making lines of DLT messages.

use super::boot_times;
use super::line::DltLogLine;
use super::message::DltMessage;
use super::state::{DltFileState, DltStateView};
use crate::time;
use crate::time::Timestamp;
use vstd::prelude::*;

verus! {

/// The time that a storage header names. The microseconds are taken times a thousand in
/// 32 bits.
pub open spec fn stored_time(seconds: u32, microseconds: u32) -> Timestamp {
    Timestamp { secs: seconds as i64, nanos: ((microseconds * 1000) % 0x1_0000_0000) as u32 }
}

/// The time that a storage header names, where the calendar has one.
pub fn storage_time_to_datetime(seconds: u32, microseconds: u32) -> (r: Option<Timestamp>)
    ensures
        r == if stored_time(seconds, microseconds).valid() {
            Some(stored_time(seconds, microseconds))
        } else {
            None
        },
{
    let nanos: u32 = microseconds.wrapping_mul(1000);
    assert(nanos == (microseconds * 1000) % 0x1_0000_0000);
    time::timestamp_opt(seconds as i64, nanos)
}

/// Whether a message becomes a line: it needs a time of storage and an extended header.
pub open spec fn is_convertible(m: DltMessage) -> bool {
    m.extended_header is Some && (m.storage_header matches Some(h) && stored_time(
        h.seconds,
        h.microseconds,
    ).valid())
}

/// Whether a line is that of a message.
pub open spec fn is_line_of(l: DltLogLine, m: DltMessage, line_number: usize) -> bool {
    &&& l.dlt_message == m
    &&& l.storage_time == stored_time(m.storage_header->0.seconds, m.storage_header->0.microseconds)
    &&& l.header_timestamp_us == match m.timestamp {
        Some(t) => Some((t * 100) as i64),
        None => None,
    }
    &&& l.ecu_id@ == match m.ecu_id {
        Some(s) => s@,
        None => Seq::empty(),
    }
    &&& l.app_id@ == m.extended_header->0.application_id@
    &&& l.line_number == line_number
}

/// Makes a line of a message, where it can be one.
pub fn convert_dlt_message(msg: DltMessage, line_number: usize) -> (r: Option<DltLogLine>)
    ensures
        match r {
            Some(l) => is_convertible(msg) && is_line_of(l, msg, line_number),
            None => !is_convertible(msg),
        },
{
    let storage_time = match &msg.storage_header {
        Some(h) => storage_time_to_datetime(h.seconds, h.microseconds)?,
        None => {
            return None;
        },
    };
    let app_id = match &msg.extended_header {
        Some(h) => h.application_id.clone(),
        None => {
            return None;
        },
    };
    let header_timestamp_us: Option<i64> = match msg.timestamp {
        Some(t) => Some((t as i64) * 100),
        None => None,
    };
    let ecu_id = match &msg.ecu_id {
        Some(s) => s.clone(),
        None => String::new(),
    };
    Some(DltLogLine::new(msg, storage_time, header_timestamp_us, ecu_id, app_id, line_number))
}

/// What comes from a file when a message is asked for.
pub enum DltRead {
    Message(DltMessage),
    /// Something else that could be read.
    Skipped,
    /// Something that could not be read.
    Failed,
    /// The end of the file.
    End,
}

/// Lines that are read from a file in one go.
pub struct DltBatch {
    lines: Vec<DltLogLine>,
    wanted: usize,
    attempts: usize,
    ended: bool,
    first_number: usize,
}

/// Lines that are read in one go: how many are wanted, how often a message was asked
/// for, whether the file came to its end, and the number of the next line.
pub struct BatchView {
    pub lines: Seq<DltLogLine>,
    pub wanted: nat,
    pub attempts: nat,
    pub ended: bool,
    pub line_number: nat,
}

impl View for DltBatch {
    type V = BatchView;

    closed spec fn view(&self) -> BatchView {
        BatchView {
            lines: self.lines@,
            wanted: self.wanted as nat,
            attempts: self.attempts as nat,
            ended: self.ended,
            line_number: self.first_number as nat + self.lines@.len(),
        }
    }
}

impl BatchView {
    /// Whether another message is asked for: lines are missing, the file goes on, and
    /// there was not ten times as much asked for and 64 times more.
    pub open spec fn wants_more(self) -> bool {
        self.lines.len() < self.wanted && self.attempts < self.wanted * 10 + 64 && !self.ended
    }
}

/// The start times once a line was read: the first line of an application tells when it
/// was started, unless that is known.
pub open spec fn seeded(s: DltStateView, l: DltLogLine) -> DltStateView {
    match l.header_timestamp_us {
        Some(us) => DltStateView {
            boot_times: if s.boot_times.contains_key((l.ecu_id@, l.app_id@)) {
                s.boot_times
            } else {
                s.boot_times.insert((l.ecu_id@, l.app_id@), l.storage_time.plus_us(-us))
            },
            ..s
        },
        None => s,
    }
}

fn seed(state: &mut DltFileState, l: &DltLogLine)
    requires
        l.storage_time.valid(),
        0 <= l.storage_time.secs <= u32::MAX,
        l.header_timestamp_us matches Some(us) ==> 0 <= us <= 429496729500,
    ensures
        final(state)@ == seeded(old(state)@, *l),
{
    if let Some(us) = l.header_timestamp_us {
        let boot = time::add_microseconds(l.storage_time, -us);
        state.seed_boot_time(&l.ecu_id, &l.app_id, boot);
    }
}

/// Whether what came from a file makes a batch and the state of the log into others. A
/// message that can be one becomes a line, and may tell when its application was started.
pub open spec fn takes_to(
    batch: BatchView,
    state: DltStateView,
    read: DltRead,
    after: BatchView,
    state_after: DltStateView,
) -> bool {
    &&& after.wanted == batch.wanted
    &&& after.attempts == batch.attempts + 1
    &&& after.ended == (read is End)
    &&& match read {
        DltRead::Message(m) => if is_convertible(m) {
            &&& after.lines.len() == batch.lines.len() + 1
            &&& after.lines.drop_last() == batch.lines
            &&& is_line_of(after.lines.last(), m, batch.line_number as usize)
            &&& after.line_number == batch.line_number + 1
            &&& state_after == seeded(state, after.lines.last())
        } else {
            &&& after.lines == batch.lines
            &&& after.line_number == batch.line_number
            &&& state_after == state
        },
        _ => {
            &&& after.lines == batch.lines
            &&& after.line_number == batch.line_number
            &&& state_after == state
        },
    }
}

/// A batch of which nothing is read yet.
pub open spec fn empty_batch(wanted: usize, line_number: usize) -> BatchView {
    BatchView {
        lines: Seq::empty(),
        wanted: wanted as nat,
        attempts: 0,
        ended: false,
        line_number: line_number as nat,
    }
}

impl DltBatch {
    /// Nothing is read yet; `line_number` is the number of the first line.
    pub fn new(wanted: usize, line_number: usize) -> (r: Self)
        requires
            wanted * 10 + 64 <= usize::MAX,
            line_number + wanted <= usize::MAX,
        ensures
            r@ == empty_batch(wanted, line_number),
    {
        let r = DltBatch {
            lines: Vec::new(),
            wanted,
            attempts: 0,
            ended: false,
            first_number: line_number,
        };
        assert(r@.lines =~= Seq::empty());
        r
    }

    #[verifier::type_invariant]
    spec fn wf(&self) -> bool {
        &&& self.wanted * 10 + 64 <= usize::MAX
        &&& self.first_number + self.wanted <= usize::MAX
        &&& self.lines@.len() <= self.wanted
    }

    /// Decides whether another message is asked for.
    pub fn wants_more(&self) -> (r: bool)
        ensures
            r == self@.wants_more(),
    {
        proof {
            use_type_invariant(&*self);
        }
        self.lines.len() < self.wanted && self.attempts < self.wanted * 10 + 64 && !self.ended
    }

    /// Takes what came from the file.
    pub fn take(&mut self, state: &mut DltFileState, read: DltRead)
        requires
            old(self)@.wants_more(),
        ensures
            takes_to(old(self)@, old(state)@, read, final(self)@, final(state)@),
    {
        proof {
            use_type_invariant(&*self);
        }
        self.attempts = self.attempts + 1;
        match read {
            DltRead::Message(msg) => {
                let number: usize = self.first_number + self.lines.len();
                if let Some(line) = convert_dlt_message(msg, number) {
                    seed(state, &line);
                    let ghost before = self.lines@;
                    let mut lines: Vec<DltLogLine> = Vec::new();
                    std::mem::swap(&mut lines, &mut self.lines);
                    lines.push(line);
                    assert(lines@.drop_last() =~= before);
                    self.lines = lines;
                }
            },
            DltRead::Skipped => {},
            DltRead::Failed => {},
            DltRead::End => {
                self.ended = true;
            },
        }
    }

    /// The lines that were read, and the number of the next one.
    pub fn into_lines(self) -> (r: (Vec<DltLogLine>, usize))
        ensures
            r.0@ == self@.lines,
            r.1 == self@.line_number,
    {
        proof {
            use_type_invariant(&self);
        }
        let next: usize = self.first_number + self.lines.len();
        (self.lines, next)
    }
}

/// The line of a message has the time that its storage header says, the time since the start of
/// its sender in tenths of a millisecond, and the names of its control unit and application.
/// Messages without a storage header or an extended one become no line.
pub proof fn lines_have_the_times_of_their_messages(l: DltLogLine, m: DltMessage, number: usize)
    requires
        m.storage_header matches Some(h) ==> h.microseconds < 1_000_000,
    ensures
        is_convertible(m) == (m.storage_header is Some && m.extended_header is Some),
        is_convertible(m) && is_line_of(l, m, number) ==> {
            &&& l.storage_time.secs * 1_000_000_000 + l.storage_time.nanos
                == m.storage_header->0.seconds * 1_000_000_000 + m.storage_header->0.microseconds
                * 1000
            &&& l.storage_time.nanos < 1_000_000_000
            &&& l.header_timestamp_us is Some == m.timestamp is Some
            &&& m.timestamp matches Some(t) ==> l.header_timestamp_us->0 == t * 100
            &&& m.ecu_id matches Some(s) ==> l.ecu_id@ == s@
            &&& m.ecu_id is None ==> l.ecu_id@.len() == 0
            &&& l.app_id@ == m.extended_header->0.application_id@
            &&& l.line_number == number
            &&& l.dlt_message == m
        },
{
}

/// The first line of an application with a time since the start tells when it was started: the
/// time at which it was stored, less that time. Later ones and lines without such a time tell
/// nothing, and nothing is told of other applications.
pub proof fn first_lines_tell_start_times(s: DltStateView, l: DltLogLine, other: boot_times::AppKey)
    requires
        l.storage_time.valid(),
        !l.storage_time.is_leap(),
        0 <= l.storage_time.secs,
        l.header_timestamp_us matches Some(us) ==> 0 <= us <= 429496729500,
    ensures
        ({
            let key = (l.ecu_id@, l.app_id@);
            let after = seeded(s, l);
            &&& l.header_timestamp_us is Some ==> after.boot_times.contains_key(key)
            &&& l.header_timestamp_us is Some && !s.boot_times.contains_key(key)
                ==> after.boot_times[key].total() + l.header_timestamp_us->0 * 1000
                == l.storage_time.total()
            &&& l.header_timestamp_us is None ==> after == s
            &&& s.boot_times.contains_key(key) ==> after == s
            &&& other != key ==> after.boot_times.contains_key(other)
                == s.boot_times.contains_key(other)
            &&& s.boot_times.contains_key(other) ==> after.boot_times[other]
                == s.boot_times[other]
            &&& after == (DltStateView { boot_times: after.boot_times, ..s })
        }),
{
    if let Some(us) = l.header_timestamp_us {
        time::moving_adds_the_length(l.storage_time, -us);
        assert((-us) * 1000 == -(us * 1000));
    }
}

/// Reading goes on until as many lines are there as are wanted, the file ends, or ten times as
/// many messages and 64 more were asked for.
pub proof fn reading_goes_on_until_lines_are_there(batch: BatchView)
    ensures
        !batch.wants_more() <==> batch.lines.len() >= batch.wanted || batch.ended || batch.attempts
            >= 10 * batch.wanted + 64,
{
}

} // verus!
