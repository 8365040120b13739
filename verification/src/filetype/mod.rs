//! The formats of log files, and what all their lines have in common.

pub mod btsnoop;
pub mod dlt;
pub mod pcap;

use crate::time;
use crate::time::{TimeSpan, Timestamp};
use vstd::prelude::*;

verus! {

/// A relation between lengths of time and the texts with which they can be written.
pub type SpanTexts = spec_fn(TimeSpan, Seq<char>) -> bool;

/// The texts with which a function writes lengths of time.
pub open spec fn span_texts<D: Fn(TimeSpan) -> String>(diff: D) -> SpanTexts {
    |span: TimeSpan, t: Seq<char>|
        exists|s: String| #[trigger] call_ensures(diff, (span,), s) && s@ == t
}

/// A line of a log file, as the store sees it.
///
/// What a line shows depends on settings that all files of its kind share, and on the
/// state of its own file, such as a time offset.
pub trait LineType: Sized {
    /// Settings that all files of this kind share.
    type Config;

    /// What is kept for one file.
    type FileState;

    /// The time of the line.
    spec fn time(&self, config: Self::Config, state: Self::FileState) -> Timestamp;

    /// Whether the time of the line lies in the range of the calendar.
    spec fn time_defined(&self, config: Self::Config, state: Self::FileState) -> bool;

    /// The text of the line without what depends on settings or state.
    spec fn message_text(&self) -> Seq<char>;

    /// Whether the line can be shown.
    spec fn display_defined(&self, config: Self::Config, state: Self::FileState) -> bool;

    /// Whether a text is what the line shows, `diff` saying how lengths of time can be
    /// written.
    spec fn displays(
        &self,
        config: Self::Config,
        state: Self::FileState,
        diff: SpanTexts,
        shown: Seq<char>,
    ) -> bool;

    /// What is kept for the file once the line was shown.
    spec fn state_after_display(
        &self,
        config: Self::Config,
        state: Self::FileState,
        after: Self::FileState,
    ) -> bool;

    /// Whether a text is the line in full detail.
    spec fn is_raw(&self, raw: Seq<char>) -> bool;

    /// Whether the line can be written in full detail.
    spec fn raw_defined(&self) -> bool;

    /// The number of the line in its file.
    spec fn number(&self) -> usize;

    /// Showing a line changes no time.
    proof fn display_keeps_times(
        &self,
        config: Self::Config,
        state: Self::FileState,
        after: Self::FileState,
        other: Self,
        other_config: Self::Config,
    )
        requires
            self.state_after_display(config, state, after),
        ensures
            other.time(other_config, after) == other.time(other_config, state),
            other.time_defined(other_config, after) == other.time_defined(other_config, state),
            other.display_defined(other_config, after) == other.display_defined(
                other_config,
                state,
            ),
    ;

    fn timestamp(&self, config: &Self::Config, state: &Self::FileState) -> (r: Timestamp)
        requires
            self.time_defined(*config, *state),
        ensures
            r == self.time(*config, *state),
            r.valid(),
    ;

    /// Decides whether the time of the line lies in the range of the calendar.
    fn has_time(&self, config: &Self::Config, state: &Self::FileState) -> (r: bool)
        ensures
            r == self.time_defined(*config, *state),
    ;

    /// Decides whether the line can be shown.
    fn can_display(&self, config: &Self::Config, state: &Self::FileState) -> (r: bool)
        ensures
            r == self.display_defined(*config, *state),
    ;

    /// Decides whether the line can be written in full detail.
    fn has_raw(&self) -> (r: bool)
        ensures
            r == self.raw_defined(),
    ;

    fn message(&self) -> (r: String)
        ensures
            r@ == self.message_text(),
    ;

    fn display_message<D: Fn(TimeSpan) -> String>(
        &self,
        config: &Self::Config,
        state: &mut Self::FileState,
        diff: &D,
    ) -> (r: String)
        requires
            self.display_defined(*config, *old(state)),
            forall|d: TimeSpan| #[trigger] call_requires(*diff, (d,)),
        ensures
            self.displays(*config, *old(state), span_texts(*diff), r@),
            self.state_after_display(*config, *old(state), *final(state)),
    ;

    fn raw(&self) -> (r: String)
        requires
            self.raw_defined(),
        ensures
            self.is_raw(r@),
    ;

    fn line_number(&self) -> (r: usize)
        ensures
            r == self.number(),
    ;
}

/// A window in which the user sets the time of a line.
#[derive(Debug, Clone, Copy, PartialEq, Eq, Structural)]
pub struct CalibrationWindow {
    /// The time that is first shown.
    pub target_time: Timestamp,
    /// Whether the user is asked to apply the time to all applications of an ECU.
    pub asks_for_all_apps: bool,
    /// The time at which the line is shown now.
    pub current_time: Option<Timestamp>,
    /// The time of the line without any offset.
    pub raw_time: Timestamp,
}

/// How the user leaves a calibration window.
#[derive(Debug, Clone, Copy, PartialEq, Eq, Structural)]
pub enum CalibrationResult {
    Confirmed { target_time: Timestamp, apply_to_all_apps: bool },
    Pending,
    Cancelled,
}

impl CalibrationWindow {
    pub fn new(
        target_time: Timestamp,
        asks_for_all_apps: bool,
        current_time: Option<Timestamp>,
        raw_time: Timestamp,
    ) -> (r: Self)
        ensures
            r == (CalibrationWindow { target_time, asks_for_all_apps, current_time, raw_time }),
    {
        CalibrationWindow { target_time, asks_for_all_apps, current_time, raw_time }
    }
}

/// What is kept for a file of which only the time can be moved.
#[derive(Debug, Clone, Copy, PartialEq, Eq)]
pub struct SimpleFileState {
    pub time_offset_ms: i64,
    /// The open calibration window, with the time of its line without any offset.
    pub calibration: Option<(Timestamp, CalibrationWindow)>,
}

impl Default for SimpleFileState {
    fn default() -> (r: Self)
        ensures
            r.time_offset_ms == 0,
            r.calibration is None,
    {
        SimpleFileState { time_offset_ms: 0, calibration: None }
    }
}

/// Whether a time can be moved by an offset in milliseconds.
pub open spec fn offset_fits(t: Timestamp, offset_ms: i64) -> bool {
    offset_ms > i64::MIN && t.can_move(offset_ms * 1_000_000)
}

impl SimpleFileState {
    /// The time offset in milliseconds.
    pub fn time_offset_ms(&self) -> (r: i64)
        ensures
            r == self.time_offset_ms,
    {
        self.time_offset_ms
    }

    /// Sets the time offset in milliseconds.
    pub fn set_time_offset_ms(&mut self, v: i64)
        ensures
            *final(self) == (SimpleFileState { time_offset_ms: v, ..*old(self) }),
    {
        self.time_offset_ms = v;
    }

    /// Opens the calibration window for a line of the given time.
    pub fn start_calibration(&mut self, raw_time: Timestamp)
        requires
            offset_fits(raw_time, old(self).time_offset_ms),
        ensures
            final(self).time_offset_ms == old(self).time_offset_ms,
            final(self).calibration == Some(
                (
                    raw_time,
                    CalibrationWindow {
                        target_time: raw_time.plus_ms(old(self).time_offset_ms as int),
                        asks_for_all_apps: false,
                        current_time: Some(raw_time.plus_ms(old(self).time_offset_ms as int)),
                        raw_time,
                    },
                ),
            ),
    {
        let display_time = time::add_milliseconds(raw_time, self.time_offset_ms);
        self.calibration = Some(
            (
                raw_time,
                CalibrationWindow::new(display_time, false, Some(display_time), raw_time),
            ),
        );
    }
}

/// The state once the calibration window was left with a result.
pub open spec fn calibrated(s: SimpleFileState, result: CalibrationResult) -> SimpleFileState {
    match (s.calibration, result) {
        (Some((raw_time, _)), CalibrationResult::Confirmed { target_time, .. }) => {
            SimpleFileState { time_offset_ms: target_time.ms_since(raw_time), calibration: None }
        },
        (Some(_), CalibrationResult::Cancelled) => SimpleFileState { calibration: None, ..s },
        _ => s,
    }
}

/// Whether the calibration window can be left with a result: the times must lie in the
/// range of the calendar.
pub open spec fn can_calibrate(s: SimpleFileState, result: CalibrationResult) -> bool {
    match (s.calibration, result) {
        (Some((raw_time, _)), CalibrationResult::Confirmed { target_time, .. }) => {
            raw_time.valid() && target_time.valid()
        },
        _ => true,
    }
}

impl SimpleFileState {
    /// Decides whether the calibration window can be left with a result.
    pub fn can_finish_calibration(&self, result: CalibrationResult) -> (r: bool)
        ensures
            r == can_calibrate(*self, result),
    {
        match (self.calibration, result) {
            (Some((raw_time, _)), CalibrationResult::Confirmed { target_time, .. }) => {
                raw_time.is_valid() && target_time.is_valid()
            },
            _ => true,
        }
    }

    /// Leaves the calibration window with a result, and says whether any time changed.
    pub fn finish_calibration(&mut self, result: CalibrationResult) -> (r: bool)
        requires
            can_calibrate(*old(self), result),
        ensures
            *final(self) == calibrated(*old(self), result),
            r == (old(self).calibration is Some && result is Confirmed),
    {
        match (self.calibration, result) {
            (Some((raw_time, _)), CalibrationResult::Confirmed { target_time, .. }) => {
                self.time_offset_ms = target_time.milliseconds_since(&raw_time);
                self.calibration = None;
                true
            },
            (Some(_), CalibrationResult::Cancelled) => {
                self.calibration = None;
                false
            },
            _ => false,
        }
    }
}

/// A line that was calibrated shows the time that the user set. Times to which no offset
/// leads for a leap second are left out, and times that differ from that of the line by a
/// part of a millisecond.
pub proof fn calibrated_line_shows_the_time(
    s: SimpleFileState,
    raw_time: Timestamp,
    target_time: Timestamp,
    apply_to_all_apps: bool,
)
    requires
        s.calibration matches Some((t, _)) && t == raw_time,
        raw_time.valid(),
        target_time.valid(),
        time::reaches(raw_time, target_time),
        (target_time.total() - raw_time.total()) % 1_000_000 == 0,
    ensures
        raw_time.plus_ms(
            calibrated(
                s,
                CalibrationResult::Confirmed { target_time, apply_to_all_apps },
            ).time_offset_ms as int,
        ) == target_time,
{
    time::moving_by_the_difference_arrives(raw_time, target_time);
}

/// A text behind an offset in brackets, where there is an offset.
pub open spec fn with_offset(
    offset_ms: i64,
    message: Seq<char>,
    diff: SpanTexts,
    shown: Seq<char>,
) -> bool {
    if offset_ms == 0 {
        shown == message
    } else {
        exists|span: TimeSpan, t: Seq<char>|
            span.valid() && span.total() == offset_ms * 1_000_000 && #[trigger] diff(span, t)
                && shown == "["@ + t + "] "@ + message
    }
}

/// Writes an offset in brackets before a text, where there is an offset.
pub fn prepend_offset<D: Fn(TimeSpan) -> String>(
    offset_ms: i64,
    message: String,
    diff: &D,
) -> (r: String)
    requires
        offset_ms > i64::MIN,
        forall|d: TimeSpan| #[trigger] call_requires(*diff, (d,)),
    ensures
        with_offset(offset_ms, message@, span_texts(*diff), r@),
{
    if offset_ms == 0 {
        return message;
    }
    let span = TimeSpan::milliseconds(offset_ms);
    let text = diff(span);
    let mut s = String::from_str("[");
    s.append(text.as_str());
    s.append("] ");
    s.append(message.as_str());
    assert(call_ensures(*diff, (span,), text));
    assert(span_texts(*diff)(span, text@));
    s
}

/// How many lines of a file were handed out once as many more were asked for.
pub open spec fn next_position(position: int, wanted: usize, len: int) -> int {
    if position + wanted < len {
        position + wanted
    } else {
        len
    }
}

/// How many lines of a file were handed out once they were asked for in chunks.
pub open spec fn position_after(position: int, sizes: Seq<usize>, len: int) -> int
    decreases sizes.len(),
{
    if sizes.len() == 0 {
        position
    } else {
        next_position(position_after(position, sizes.drop_last(), len), sizes.last(), len)
    }
}

/// The lines of a file that are handed out when they are asked for in chunks.
pub open spec fn handed_out<T>(lines: Seq<T>, position: int, sizes: Seq<usize>) -> Seq<T>
    decreases sizes.len(),
{
    if sizes.len() == 0 {
        Seq::empty()
    } else {
        let before = position_after(position, sizes.drop_last(), lines.len() as int);
        handed_out(lines, position, sizes.drop_last()) + lines.subrange(
            before,
            next_position(before, sizes.last(), lines.len() as int),
        )
    }
}

/// In whatever chunks the lines of a file are asked for, they are handed out in their order
/// and each once.
pub proof fn chunks_hand_out_each_line_once<T>(lines: Seq<T>, position: int, sizes: Seq<usize>)
    requires
        0 <= position <= lines.len(),
    ensures
        position <= position_after(position, sizes, lines.len() as int) <= lines.len(),
        handed_out(lines, position, sizes) == lines.subrange(
            position,
            position_after(position, sizes, lines.len() as int),
        ),
    decreases sizes.len(),
{
    if sizes.len() > 0 {
        chunks_hand_out_each_line_once(lines, position, sizes.drop_last());
    }
    assert(handed_out(lines, position, sizes) =~= lines.subrange(
        position,
        position_after(position, sizes, lines.len() as int),
    ));
}

/// A calibration that is cancelled moves no time, one that is confirmed sets the offset to the
/// length from the time of its line to the time that was set, and none does anything where no
/// window is open. The window is closed in either case.
pub proof fn only_confirmed_calibrations_move_times(
    s: SimpleFileState,
    raw_time: Timestamp,
    window: CalibrationWindow,
    target_time: Timestamp,
    all: bool,
)
    requires
        !raw_time.is_leap(),
        !target_time.is_leap(),
        raw_time.valid(),
        target_time.valid(),
    ensures
        s.calibration is None ==> calibrated(s, CalibrationResult::Cancelled) == s && calibrated(
            s,
            CalibrationResult::Confirmed { target_time, apply_to_all_apps: all },
        ) == s,
        s.calibration == Some((raw_time, window)) ==> {
            let no = calibrated(s, CalibrationResult::Cancelled);
            let yes = calibrated(
                s,
                CalibrationResult::Confirmed { target_time, apply_to_all_apps: all },
            );
            &&& no.time_offset_ms == s.time_offset_ms
            &&& no.calibration is None
            &&& yes.calibration is None
            &&& -1_000_000 < yes.time_offset_ms * 1_000_000 - (target_time.total()
                - raw_time.total()) < 1_000_000
            &&& yes.time_offset_ms > 0 ==> raw_time.lt(target_time)
            &&& yes.time_offset_ms < 0 ==> target_time.lt(raw_time)
        },
{
    time::lengths_are_differences(target_time, raw_time);
    time::parts_of_milliseconds_are_left_out(target_time.since(raw_time));
}

/// An offset is shown in square brackets before a line, and a line without one is shown as it
/// is.
pub proof fn offsets_stand_before_the_line(
    offset_ms: i64,
    message: Seq<char>,
    diff: SpanTexts,
    shown: Seq<char>,
)
    requires
        with_offset(offset_ms, message, diff, shown),
    ensures
        offset_ms == 0 ==> shown == message,
        offset_ms != 0 ==> exists|span: TimeSpan, t: Seq<char>|
            span.secs * 1_000_000_000 + span.nanos == offset_ms * 1_000_000 && #[trigger] diff(
                span,
                t,
            ) && shown == "["@ + t + "] "@ + message,
{
    if offset_ms != 0 {
        let (span, t): (TimeSpan, Seq<char>) = choose|span: TimeSpan, t: Seq<char>|
            span.valid() && span.total() == offset_ms * 1_000_000 && #[trigger] diff(span, t)
                && shown == "["@ + t + "] "@ + message;
        assert(diff(span, t));
    }
}

/// As many lines are handed out as are asked for, or all that are left where those are fewer.
pub proof fn as_many_lines_as_asked_for(position: int, wanted: usize, len: int)
    requires
        0 <= position <= len,
    ensures
        next_position(position, wanted, len) - position == wanted || next_position(
            position,
            wanted,
            len,
        ) == len,
        position <= next_position(position, wanted, len) <= len,
        next_position(position, wanted, len) - position <= wanted,
{
}

} // verus!
