//! The lines of a DLT log.

use super::boot_times;
use super::message;
use super::message::DltMessage;
use super::state;
use super::state::{DltCalibrationState, DltFileState, DltStateView, DltSyncPointCalibration};
use crate::config::DltTimestampSource;
use crate::filetype;
use crate::filetype::{CalibrationResult, CalibrationWindow, LineType};
use crate::time;
use crate::time::{TimeSpan, Timestamp};
use vstd::prelude::*;

verus! {

/// A line of a DLT log: one message.
#[derive(Debug)]
pub struct DltLogLine {
    pub dlt_message: DltMessage,
    /// The time at which the message was stored.
    pub storage_time: Timestamp,
    /// Microseconds since the start of the sender, where the message has them.
    pub header_timestamp_us: Option<i64>,
    /// The name of the control unit, empty where it is missing.
    pub ecu_id: String,
    /// The name of the application, empty where it is missing.
    pub app_id: String,
    /// The number of the line, from 1.
    pub line_number: usize,
}

impl DltLogLine {
    pub fn new(
        dlt_message: DltMessage,
        storage_time: Timestamp,
        header_timestamp_us: Option<i64>,
        ecu_id: String,
        app_id: String,
        line_number: usize,
    ) -> (r: Self)
        ensures
            r == (DltLogLine {
                dlt_message,
                storage_time,
                header_timestamp_us,
                ecu_id,
                app_id,
                line_number,
            }),
    {
        DltLogLine { dlt_message, storage_time, header_timestamp_us, ecu_id, app_id, line_number }
    }

    /// The start time of the sender and the time since then, where both are known and
    /// the lines go by them.
    pub open spec fn inferred_parts(&self, config: DltTimestampSource, s: DltStateView) -> Option<
        (Timestamp, i64),
    > {
        match (
            config,
            self.header_timestamp_us,
            boot_times::boot_time_of(s.boot_times, self.ecu_id@, self.app_id@),
        ) {
            (DltTimestampSource::InferredMonotonic, Some(us), Some(boot)) => Some((boot, us)),
            _ => None,
        }
    }

    /// Whether the start time of the sender is known, where the line needs one.
    pub open spec fn is_seeded(&self, s: DltStateView) -> bool {
        self.header_timestamp_us is Some ==> s.boot_times.contains_key((self.ecu_id@, self.app_id@))
    }

    /// The offset of the point of synchronisation that holds for the line.
    pub open spec fn sync_offset(&self, s: DltStateView) -> i64 {
        state::offset_at(s.sync_points, self.line_number)
    }

    /// The time of the line: the start time of the sender and the time since then, or
    /// else the time at which it was stored and the offset of the log; and the offset of
    /// a point of synchronisation.
    pub open spec fn line_time(&self, config: DltTimestampSource, s: DltStateView) -> Timestamp {
        match self.inferred_parts(config, s) {
            Some((boot, us)) => boot.plus_us(us as int).plus_ms(self.sync_offset(s) as int),
            None => self.storage_time.plus_ms(s.storage_offset_ms + self.sync_offset(s)),
        }
    }

    /// Whether the time of the line lies in the range of the calendar.
    pub open spec fn line_time_defined(&self, config: DltTimestampSource, s: DltStateView) -> bool {
        match self.inferred_parts(config, s) {
            Some((boot, us)) => {
                &&& boot.can_move(us * 1000)
                &&& self.sync_offset(s) > i64::MIN
                &&& boot.plus_us(us as int).can_move(self.sync_offset(s) * 1_000_000)
            },
            None => {
                let sum = s.storage_offset_ms + self.sync_offset(s);
                &&& i64::MIN < sum <= i64::MAX
                &&& self.storage_time.can_move(sum * 1_000_000)
            },
        }
    }

    /// The name of the control unit that stored the message.
    pub open spec fn storage_ecu(&self) -> Seq<char> {
        match self.dlt_message.storage_header {
            Some(h) => h.ecu_id@,
            None => Seq::empty(),
        }
    }

    /// Whether a text is the time at which the line was stored, in the machine's time zone,
    /// with what it differs from the inferred time.
    pub open spec fn is_time_prefix(
        &self,
        inferred: Timestamp,
        diff: filetype::SpanTexts,
        prefix: Seq<char>,
    ) -> bool {
        exists|clock: Seq<char>, span: TimeSpan, d: Seq<char>|
            time::is_date_time_of(self.storage_time, clock) && span.total()
                == self.storage_time.since(inferred) && #[trigger] diff(span, d) && prefix
                == #[trigger] bracketed(clock, d, self.storage_ecu())
    }

    fn format_time_prefix<D: Fn(TimeSpan) -> String>(&self, inferred: Timestamp, diff: &D) -> (r:
        String)
        requires
            self.storage_time.valid(),
            inferred.valid(),
            forall|d: TimeSpan| #[trigger] call_requires(*diff, (d,)),
        ensures
            self.is_time_prefix(inferred, filetype::span_texts(*diff), r@),
    {
        let clock = time::date_time_text(self.storage_time);
        let span = time::signed_duration_since(self.storage_time, inferred);
        let d = diff(span);
        let mut s = String::from_str("[");
        s.append(clock.as_str());
        s.append(" (");
        s.append(d.as_str());
        s.append(") ");
        match &self.dlt_message.storage_header {
            Some(h) => s.append(h.ecu_id.as_str()),
            None => {
                assert(s@ =~= s@ + self.storage_ecu());
            },
        }
        s.append("]");
        assert(call_ensures(*diff, (span,), d));
        assert(filetype::span_texts(*diff)(span, d@));
        assert(s@ == bracketed(clock@, d@, self.storage_ecu()));
        s
    }

    fn current_time(&self, config: &DltTimestampSource, s: &DltFileState) -> (r: Timestamp)
        requires
            self.can_show_current(*config, s@),
        ensures
            r == self.current(*config, s@),
    {
        match (config, self.header_timestamp_us) {
            (DltTimestampSource::InferredMonotonic, Some(us)) => match s.boot_time(
                &self.ecu_id,
                &self.app_id,
            ) {
                Some(boot) => time::add_microseconds(boot, us),
                None => self.storage_time,
            },
            _ => time::add_milliseconds(self.storage_time, s.storage_offset_ms()),
        }
    }

    /// Whether the line goes by the start time of its sender.
    pub open spec fn is_inferred(&self, config: DltTimestampSource) -> bool {
        config == DltTimestampSource::InferredMonotonic && self.header_timestamp_us is Some
    }

    /// The time of the line without the offset of a point of synchronisation.
    pub open spec fn current(&self, config: DltTimestampSource, s: DltStateView) -> Timestamp {
        match (config, self.header_timestamp_us) {
            (DltTimestampSource::InferredMonotonic, Some(us)) => match boot_times::boot_time_of(
                s.boot_times,
                self.ecu_id@,
                self.app_id@,
            ) {
                Some(boot) => boot.plus_us(us as int),
                None => self.storage_time,
            },
            _ => self.storage_time.plus_ms(s.storage_offset_ms as int),
        }
    }

    /// Whether that time lies in the range of the calendar.
    pub open spec fn can_show_current(&self, config: DltTimestampSource, s: DltStateView) -> bool {
        match (config, self.header_timestamp_us) {
            (DltTimestampSource::InferredMonotonic, Some(us)) => match boot_times::boot_time_of(
                s.boot_times,
                self.ecu_id@,
                self.app_id@,
            ) {
                Some(boot) => boot.can_move(us * 1000),
                None => true,
            },
            _ => filetype::offset_fits(self.storage_time, s.storage_offset_ms),
        }
    }

    /// Decides whether the calibration window can be opened for the line.
    pub fn can_start_calibration(&self, config: &DltTimestampSource, s: &DltFileState) -> (r: bool)
        ensures
            r == self.can_show_current(*config, s@),
    {
        match (config, self.header_timestamp_us) {
            (DltTimestampSource::InferredMonotonic, Some(us)) => match s.boot_time(
                &self.ecu_id,
                &self.app_id,
            ) {
                Some(boot) => boot.is_valid() && boot.can_add_us(us),
                None => true,
            },
            _ => s.storage_offset_ms() > i64::MIN && self.storage_time.is_valid()
                && self.storage_time.can_add_ms(s.storage_offset_ms()),
        }
    }

    /// Opens the calibration window for the line.
    pub fn start_calibration(&self, config: &DltTimestampSource, s: &mut DltFileState)
        requires
            self.can_show_current(*config, old(s)@),
        ensures
            final(s)@ == (DltStateView { calibration: final(s)@.calibration, ..old(s)@ }),
            final(s)@.calibration matches Some(c) && {
                &&& c.ecu_id@ == self.ecu_id@
                &&& c.app_id@ == self.app_id@
                &&& c.header_timestamp_us == match self.header_timestamp_us {
                    Some(us) => us,
                    None => 0,
                }
                &&& c.is_inferred == self.is_inferred(*config)
                &&& c.storage_time == self.storage_time
                &&& c.window == (CalibrationWindow {
                    target_time: self.current(*config, old(s)@),
                    asks_for_all_apps: self.is_inferred(*config),
                    current_time: Some(self.current(*config, old(s)@)),
                    raw_time: self.storage_time,
                })
            },
    {
        let is_inferred: bool = match (config, self.header_timestamp_us) {
            (DltTimestampSource::InferredMonotonic, Some(_)) => true,
            _ => false,
        };
        let current = self.current_time(config, s);
        s.open_calibration(
            DltCalibrationState {
                ecu_id: self.ecu_id.clone(),
                app_id: self.app_id.clone(),
                header_timestamp_us: match self.header_timestamp_us {
                    Some(us) => us,
                    None => 0,
                },
                is_inferred,
                storage_time: self.storage_time,
                window: CalibrationWindow::new(
                    current,
                    is_inferred,
                    Some(current),
                    self.storage_time,
                ),
            },
        );
    }

    /// Opens the window for a point of synchronisation from the line on.
    pub fn start_sync_calibration(&self, config: &DltTimestampSource, s: &mut DltFileState)
        requires
            self.line_time_defined(*config, old(s)@),
        ensures
            final(s)@ == (DltStateView {
                sync_point_calibration: final(s)@.sync_point_calibration,
                ..old(s)@
            }),
            final(s)@.sync_point_calibration matches Some(c) && {
                &&& c.from_line == self.line_number
                &&& c.storage_time == self.storage_time
                &&& c.header_timestamp_us == self.header_timestamp_us
                &&& c.ecu_id@ == self.ecu_id@
                &&& c.app_id@ == self.app_id@
                &&& c.is_inferred == self.is_inferred(*config)
                &&& c.window == (CalibrationWindow {
                    target_time: self.line_time(*config, old(s)@),
                    asks_for_all_apps: false,
                    current_time: Some(self.line_time(*config, old(s)@)),
                    raw_time: self.storage_time,
                })
            },
    {
        let is_inferred: bool = match (config, self.header_timestamp_us) {
            (DltTimestampSource::InferredMonotonic, Some(_)) => true,
            _ => false,
        };
        let current = self.timestamp(config, s);
        s.open_sync_calibration(
            DltSyncPointCalibration {
                from_line: self.line_number,
                storage_time: self.storage_time,
                header_timestamp_us: self.header_timestamp_us,
                ecu_id: self.ecu_id.clone(),
                app_id: self.app_id.clone(),
                is_inferred,
                window: CalibrationWindow::new(current, false, Some(current), self.storage_time),
            },
        );
    }

    /// The state of a log of which only a time offset is saved.
    pub fn file_state_from_v2(time_offset_ms: i64) -> (r: DltFileState)
        ensures
            r@ == (DltStateView {
                storage_offset_ms: time_offset_ms,
                boot_times: boot_times::BootMap::empty(),
                sync_points: Seq::empty(),
                calibration: None,
                sync_point_calibration: None,
                shows_sync_points: false,
                pending_jump_line: None,
            }),
    {
        let none: Vec<(String, Timestamp)> = Vec::new();
        let r = DltFileState::restore(time_offset_ms, &none, Vec::new());
        assert(r@.sync_points =~= Seq::empty());
        r
    }
}

/// Whether the start times of the senders of lines are known, where they need one.
pub open spec fn are_seeded(lines: Seq<DltLogLine>, s: DltStateView) -> bool {
    forall|i: int| 0 <= i < lines.len() ==> (#[trigger] lines[i]).is_seeded(s)
}

/// Start times that become known move no line that has one.
pub proof fn seeding_moves_no_line(
    line: DltLogLine,
    config: DltTimestampSource,
    before: DltStateView,
    after: DltStateView,
)
    requires
        line.is_seeded(before),
        state::only_seeded(before, after),
    ensures
        line.is_seeded(after),
        line.line_time(config, after) == line.line_time(config, before),
        line.line_time_defined(config, after) == line.line_time_defined(config, before),
{
    assert(line.header_timestamp_us is Some ==> after.boot_times.contains_key(
        (line.ecu_id@, line.app_id@),
    ));
}

/// A time at which a line was stored, in brackets with a difference and a name.
pub open spec fn bracketed(clock: Seq<char>, diff: Seq<char>, ecu: Seq<char>) -> Seq<char> {
    "["@ + clock + " ("@ + diff + ") "@ + ecu + "]"@
}

/// Whether a text is the offset of a point of synchronisation in brackets, or nothing
/// where there is none.
pub open spec fn is_sync_prefix(offset_ms: i64, diff: filetype::SpanTexts, prefix: Seq<char>) -> bool {
    if offset_ms == 0 {
        prefix == Seq::<char>::empty()
    } else {
        exists|span: TimeSpan, t: Seq<char>|
            span.valid() && span.total() == offset_ms * 1_000_000 && #[trigger] diff(span, t)
                && prefix == "[sync:"@ + t + "] "@
    }
}

fn format_sync_prefix<D: Fn(TimeSpan) -> String>(offset_ms: i64, diff: &D) -> (r: String)
    requires
        offset_ms > i64::MIN,
        forall|d: TimeSpan| #[trigger] call_requires(*diff, (d,)),
    ensures
        is_sync_prefix(offset_ms, filetype::span_texts(*diff), r@),
{
    if offset_ms == 0 {
        return String::new();
    }
    let span = TimeSpan::milliseconds(offset_ms);
    let t = diff(span);
    let mut s = String::from_str("[sync:");
    s.append(t.as_str());
    s.append("] ");
    assert(call_ensures(*diff, (span,), t));
    assert(filetype::span_texts(*diff)(span, t@));
    s
}

impl LineType for DltLogLine {
    type Config = DltTimestampSource;

    type FileState = DltFileState;

    open spec fn time(&self, config: DltTimestampSource, state: DltFileState) -> Timestamp {
        self.line_time(config, state@)
    }

    open spec fn time_defined(&self, config: DltTimestampSource, state: DltFileState) -> bool {
        self.line_time_defined(config, state@)
    }

    open spec fn message_text(&self) -> Seq<char> {
        message::body_text(self.dlt_message)
    }

    open spec fn display_defined(&self, config: DltTimestampSource, state: DltFileState) -> bool {
        &&& self.sync_offset(state@) > i64::MIN
        &&& match config {
            DltTimestampSource::InferredMonotonic => self.line_time_defined(config, state@)
                && self.storage_time.valid(),
            DltTimestampSource::StorageTime => state@.storage_offset_ms > i64::MIN,
        }
    }

    open spec fn displays(
        &self,
        config: DltTimestampSource,
        state: DltFileState,
        diff: filetype::SpanTexts,
        shown: Seq<char>,
    ) -> bool {
        let body = message::body_text(self.dlt_message);
        exists|sync: Seq<char>, rest: Seq<char>|
            #![trigger sync + rest]
            is_sync_prefix(self.sync_offset(state@), diff, sync) && shown == sync + rest
                && match config {
                DltTimestampSource::InferredMonotonic => exists|prefix: Seq<char>|
                    #[trigger] self.is_time_prefix(
                        self.line_time(config, state@),
                        diff,
                        prefix,
                    ) && rest == prefix + " "@ + body,
                DltTimestampSource::StorageTime => filetype::with_offset(
                    state@.storage_offset_ms,
                    body,
                    diff,
                    rest,
                ),
            }
    }

    open spec fn state_after_display(
        &self,
        config: DltTimestampSource,
        state: DltFileState,
        after: DltFileState,
    ) -> bool {
        after == state
    }

    open spec fn is_raw(&self, raw: Seq<char>) -> bool {
        raw == self.dlt_message.detail@
    }

    open spec fn raw_defined(&self) -> bool {
        true
    }

    open spec fn number(&self) -> usize {
        self.line_number
    }

    proof fn display_keeps_times(
        &self,
        config: DltTimestampSource,
        state: DltFileState,
        after: DltFileState,
        other: Self,
        other_config: DltTimestampSource,
    ) {
    }

    fn timestamp(&self, config: &DltTimestampSource, state: &DltFileState) -> (r: Timestamp) {
        let sync_offset: i64 = state.sync_point_offset_ms(self.line_number);
        match config {
            DltTimestampSource::InferredMonotonic => {
                if let Some(us) = self.header_timestamp_us {
                    if let Some(boot) = state.boot_time(&self.ecu_id, &self.app_id) {
                        return time::add_milliseconds(
                            time::add_microseconds(boot, us),
                            sync_offset,
                        );
                    }
                }
            },
            DltTimestampSource::StorageTime => {},
        }
        time::add_milliseconds(self.storage_time, state.storage_offset_ms() + sync_offset)
    }

    fn has_time(&self, config: &DltTimestampSource, state: &DltFileState) -> (r: bool) {
        let sync_offset: i64 = state.sync_point_offset_ms(self.line_number);
        match config {
            DltTimestampSource::InferredMonotonic => {
                if let Some(us) = self.header_timestamp_us {
                    if let Some(boot) = state.boot_time(&self.ecu_id, &self.app_id) {
                        return boot.is_valid() && boot.can_add_us(us) && sync_offset > i64::MIN
                            && time::add_microseconds(boot, us).can_add_ms(sync_offset);
                    }
                }
            },
            DltTimestampSource::StorageTime => {},
        }
        match state.storage_offset_ms().checked_add(sync_offset) {
            Some(sum) => sum > i64::MIN && self.storage_time.is_valid()
                && self.storage_time.can_add_ms(sum),
            None => false,
        }
    }

    fn can_display(&self, config: &DltTimestampSource, state: &DltFileState) -> (r: bool) {
        let sync_offset: i64 = state.sync_point_offset_ms(self.line_number);
        sync_offset > i64::MIN && match config {
            DltTimestampSource::InferredMonotonic => self.has_time(config, state)
                && self.storage_time.is_valid(),
            DltTimestampSource::StorageTime => state.storage_offset_ms() > i64::MIN,
        }
    }

    fn has_raw(&self) -> (r: bool) {
        true
    }

    fn message(&self) -> (r: String) {
        self.dlt_message.format_body()
    }

    fn display_message<D: Fn(TimeSpan) -> String>(
        &self,
        config: &DltTimestampSource,
        state: &mut DltFileState,
        diff: &D,
    ) -> (r: String) {
        let body = self.dlt_message.format_body();
        let sync_offset: i64 = state.sync_point_offset_ms(self.line_number);
        let mut s = format_sync_prefix(sync_offset, diff);
        let ghost sync = s@;
        match config {
            DltTimestampSource::InferredMonotonic => {
                let inferred = self.timestamp(config, state);
                let prefix = self.format_time_prefix(inferred, diff);
                s.append(prefix.as_str());
                s.append(" ");
                s.append(body.as_str());
                proof {
                    let rest = prefix@ + " "@ + body@;
                    assert(self.is_time_prefix(
                        self.line_time(*config, state@),
                        filetype::span_texts(*diff),
                        prefix@,
                    ));
                    assert(s@ =~= sync + rest);
                }
                s
            },
            DltTimestampSource::StorageTime => {
                let rest = filetype::prepend_offset(state.storage_offset_ms(), body, diff);
                s.append(rest.as_str());
                assert(s@ == sync + rest@);
                s
            },
        }
    }

    fn raw(&self) -> (r: String) {
        self.dlt_message.detail.clone()
    }

    fn line_number(&self) -> (r: usize) {
        self.line_number
    }
}

/// Whether a calibration window was opened for a line.
pub open spec fn is_calibration_of(
    c: DltCalibrationState,
    line: DltLogLine,
    config: DltTimestampSource,
) -> bool {
    &&& c.ecu_id@ == line.ecu_id@
    &&& c.app_id@ == line.app_id@
    &&& c.is_inferred == line.is_inferred(config)
    &&& c.storage_time == line.storage_time
    &&& line.header_timestamp_us matches Some(us) ==> c.header_timestamp_us == us
}

/// A line that was calibrated shows the time that the user set, if no point of
/// synchronisation moves it.
///
/// Left out are times to which no offset leads for a leap second. Where the line goes by the
/// time at which it was stored, so are times that differ from it by a part of a millisecond.
pub proof fn calibrated_line_shows_the_time(
    line: DltLogLine,
    config: DltTimestampSource,
    s: DltStateView,
    target_time: Timestamp,
    apply_to_all_apps: bool,
)
    requires
        s.calibration matches Some(c) && is_calibration_of(c, line, config),
        s.can_calibrate(CalibrationResult::Confirmed { target_time, apply_to_all_apps }),
        line.sync_offset(s) == 0,
        if line.is_inferred(config) {
            target_time.is_leap() ==> target_time.plus_us(
                -line.header_timestamp_us->0,
            ).is_leap()
        } else {
            &&& time::reaches(line.storage_time, target_time)
            &&& (target_time.total() - line.storage_time.total()) % 1_000_000 == 0
        },
    ensures
        line.line_time(
            config,
            s.calibrated(CalibrationResult::Confirmed { target_time, apply_to_all_apps }),
        ) == target_time,
{
    let after = s.calibrated(CalibrationResult::Confirmed { target_time, apply_to_all_apps });
    time::lemma_of_total(target_time, 0);
    if line.is_inferred(config) {
        let us = line.header_timestamp_us->0;
        time::lemma_of_total(target_time, target_time.total() - us * 1000);
        let boot = target_time.plus_us(-us);
        assert(after.boot_times.contains_key((line.ecu_id@, line.app_id@)));
        assert(boot_times::boot_time_of(after.boot_times, line.ecu_id@, line.app_id@) == Some(
            boot,
        ));
        assert(boot.plus_us(us as int) == target_time);
    } else {
        time::moving_by_the_difference_arrives(line.storage_time, target_time);
    }
}

/// Whether a window for a point of synchronisation was opened for a line.
pub open spec fn is_sync_of(
    c: DltSyncPointCalibration,
    line: DltLogLine,
    config: DltTimestampSource,
) -> bool {
    &&& c.from_line == line.line_number
    &&& c.storage_time == line.storage_time
    &&& c.header_timestamp_us == line.header_timestamp_us
    &&& c.ecu_id@ == line.ecu_id@
    &&& c.app_id@ == line.app_id@
    &&& c.is_inferred == line.is_inferred(config)
}

/// A line for which a point of synchronisation was set shows the time that the user set.
///
/// Left out are times to which no offset leads for a leap second, times that differ from
/// that of the line by a part of a millisecond, lines for which a leap second keeps the two
/// offsets from adding up, and lines that should go by a start time that is not known while
/// the log has an offset.
pub proof fn synced_line_shows_the_time(
    line: DltLogLine,
    config: DltTimestampSource,
    s: DltStateView,
    target_time: Timestamp,
    apply_to_all_apps: bool,
)
    requires
        state::in_order(s.sync_points),
        s.sync_point_calibration matches Some(c) && is_sync_of(c, line, config) && {
            &&& time::reaches(s.unsynced_time(c), target_time)
            &&& (target_time.total() - s.unsynced_time(c).total()) % 1_000_000 == 0
            &&& !line.is_inferred(config) ==> time::offsets_add_up(
                line.storage_time,
                s.storage_offset_ms as int,
                target_time.ms_since(s.unsynced_time(c)) as int,
            )
        },
        s.can_sync(CalibrationResult::Confirmed { target_time, apply_to_all_apps }),
        line.is_inferred(config) && line.inferred_parts(config, s) is None
            ==> s.storage_offset_ms == 0,
    ensures
        line.line_time(
            config,
            s.synced(CalibrationResult::Confirmed { target_time, apply_to_all_apps }),
        ) == target_time,
{
    let c = s.sync_point_calibration->0;
    let base = s.unsynced_time(c);
    let p = state::SyncPoint {
        from_line: c.from_line,
        offset_ms: target_time.ms_since(base),
    };
    state::point_sets_offsets(s.sync_points, p, line.line_number);
    let after = s.synced(CalibrationResult::Confirmed { target_time, apply_to_all_apps });
    assert(line.sync_offset(after) == p.offset_ms);
    time::moving_by_the_difference_arrives(base, target_time);
}

/// A calibration that is confirmed for one application moves no line of another: it shows the
/// time that it showed before.
pub proof fn calibration_moves_no_line_of_another_application(
    line: DltLogLine,
    config: DltTimestampSource,
    s: DltStateView,
    c: DltCalibrationState,
    target_time: Timestamp,
)
    requires
        s.calibration == Some(c),
        c.is_inferred,
        config == DltTimestampSource::InferredMonotonic,
        (line.ecu_id@, line.app_id@) != (c.ecu_id@, c.app_id@),
        !target_time.is_leap(),
        s.can_calibrate(
            CalibrationResult::Confirmed { target_time, apply_to_all_apps: false },
        ),
    ensures
        line.line_time(
            config,
            s.calibrated(CalibrationResult::Confirmed { target_time, apply_to_all_apps: false }),
        ) == line.line_time(config, s),
{
    state::calibration_moves_only_what_was_chosen(
        s,
        c,
        target_time,
        false,
        (line.ecu_id@, line.app_id@),
    );
}

/// The time of a line is the sum of its parts. Where lines go by the start times of their
/// senders and that of its sender is known, it is the start time, the time since then and the
/// offset of the point of synchronisation that holds for it. Else it is the time at which the
/// line was stored, the offset of the log and that of the point.
pub proof fn times_of_lines_are_sums(
    line: DltLogLine,
    config: DltTimestampSource,
    s: DltStateView,
)
    requires
        line.line_time_defined(config, s),
    ensures
        ({
            let key = (line.ecu_id@, line.app_id@);
            let point = state::offset_at(s.sync_points, line.line_number) * 1_000_000;
            let inferred = config == DltTimestampSource::InferredMonotonic
                && line.header_timestamp_us is Some && s.boot_times.contains_key(key);
            &&& inferred && !s.boot_times[key].is_leap() ==> line.line_time(config, s).total()
                == s.boot_times[key].total() + line.header_timestamp_us->0 * 1000 + point
            &&& !inferred && !line.storage_time.is_leap() ==> line.line_time(config, s).total()
                == line.storage_time.total() + s.storage_offset_ms * 1_000_000 + point
        }),
{
    let key = (line.ecu_id@, line.app_id@);
    let offset = line.sync_offset(s);
    match line.inferred_parts(config, s) {
        Some((boot, us)) => {
            if !boot.is_leap() {
                time::moving_adds_the_length(boot, us as int);
                time::lemma_of_total(boot, boot.total() + us * 1000);
                time::moving_adds_the_length(boot.plus_us(us as int), offset as int);
            }
        },
        None => {
            if !line.storage_time.is_leap() {
                time::moving_adds_the_length(line.storage_time, s.storage_offset_ms + offset);
            }
        },
    }
}

/// A line shows its message at the end. Before it stands the offset of a point of
/// synchronisation where one holds, and behind that either the offset of the log, where there
/// is one, or the time at which the line was stored with what it differs from the time that it
/// goes by and the name of the unit that stored it.
pub proof fn lines_show_their_message_behind_times(
    line: DltLogLine,
    config: DltTimestampSource,
    state: DltFileState,
    diff: filetype::SpanTexts,
    shown: Seq<char>,
)
    requires
        line.displays(config, state, diff, shown),
    ensures
        ({
            let body = message::body_text(line.dlt_message);
            let point = state::offset_at(state@.sync_points, line.line_number);
            &&& shown.len() >= body.len() && shown.skip(shown.len() - body.len()) == body
            &&& config == DltTimestampSource::StorageTime && point == 0
                && state@.storage_offset_ms == 0 ==> shown == body
            &&& config == DltTimestampSource::StorageTime && point == 0
                && state@.storage_offset_ms != 0 ==> exists|span: TimeSpan, t: Seq<char>|
                span.total() == state@.storage_offset_ms * 1_000_000 && #[trigger] diff(span, t)
                    && shown == "["@ + t + "] "@ + body
            &&& config == DltTimestampSource::StorageTime && point != 0
                && state@.storage_offset_ms == 0 ==> exists|span: TimeSpan, t: Seq<char>|
                span.total() == point * 1_000_000 && #[trigger] diff(span, t) && shown
                    == "[sync:"@ + t + "] "@ + body
            &&& config == DltTimestampSource::InferredMonotonic && point == 0 ==> exists|
                clock: Seq<char>,
                span: TimeSpan,
                t: Seq<char>,
            |
                #![trigger time::is_date_time_of(line.storage_time, clock), diff(span, t)]
                {
                    &&& time::is_date_time_of(line.storage_time, clock)
                    &&& diff(span, t)
                    &&& span.total() == line.storage_time.since(line.line_time(config, state@))
                    &&& shown == "["@ + clock + " ("@ + t + ") "@ + (
                    match line.dlt_message.storage_header {
                        Some(h) => h.ecu_id@,
                        None => Seq::empty(),
                    }) + "]"@ + " "@ + body
                }
        }),
{
    let body = message::body_text(line.dlt_message);
    let point = state::offset_at(state@.sync_points, line.line_number);
    assert(point == line.sync_offset(state@));
    let (sync, rest): (Seq<char>, Seq<char>) = choose|sync: Seq<char>, rest: Seq<char>|
        #![trigger sync + rest]
        is_sync_prefix(line.sync_offset(state@), diff, sync) && shown == sync + rest
            && match config {
            DltTimestampSource::InferredMonotonic => exists|prefix: Seq<char>|
                #[trigger] line.is_time_prefix(line.line_time(config, state@), diff, prefix) && rest
                    == prefix + " "@ + body,
            DltTimestampSource::StorageTime => filetype::with_offset(
                state@.storage_offset_ms,
                body,
                diff,
                rest,
            ),
        };
    assert(point == 0 ==> shown =~= rest);
    match config {
        DltTimestampSource::InferredMonotonic => {
            let prefix = choose|prefix: Seq<char>|
                #[trigger] line.is_time_prefix(line.line_time(config, state@), diff, prefix) && rest
                    == prefix + " "@ + body;
            let (clock, span, t): (Seq<char>, TimeSpan, Seq<char>) = choose|
                clock: Seq<char>,
                span: TimeSpan,
                t: Seq<char>,
            |
                time::is_date_time_of(line.storage_time, clock) && span.total()
                    == line.storage_time.since(line.line_time(config, state@)) && #[trigger] diff(
                    span,
                    t,
                ) && prefix == #[trigger] bracketed(clock, t, line.storage_ecu());
            assert(time::is_date_time_of(line.storage_time, clock) && diff(span, t));
            assert(shown.skip(shown.len() - body.len()) =~= body);
        },
        DltTimestampSource::StorageTime => {
            filetype::offsets_stand_before_the_line(state@.storage_offset_ms, body, diff, rest);
            assert(shown.skip(shown.len() - body.len()) =~= body) by {
                assert(rest.skip(rest.len() - body.len()) =~= body);
            }
            if point != 0 && state@.storage_offset_ms == 0 {
                let (span, t): (TimeSpan, Seq<char>) = choose|span: TimeSpan, t: Seq<char>|
                    span.valid() && span.total() == point * 1_000_000 && #[trigger] diff(span, t)
                        && sync == "[sync:"@ + t + "] "@;
                assert(diff(span, t));
                assert(shown == "[sync:"@ + t + "] "@ + body);
            }
            if point == 0 && state@.storage_offset_ms != 0 {
                let (span, t): (TimeSpan, Seq<char>) = choose|span: TimeSpan, t: Seq<char>|
                    span.secs * 1_000_000_000 + span.nanos == state@.storage_offset_ms * 1_000_000
                        && #[trigger] diff(span, t) && rest == "["@ + t + "] "@ + body;
                assert(diff(span, t) && span.total() == state@.storage_offset_ms * 1_000_000);
                assert(shown == "["@ + t + "] "@ + body);
            }
        },
    }
}

/// The time with which the windows of a line begin: that of its storing, moved by the offset
/// of the log, or the start of its sender and the time since then where lines go by that;
/// where the start is not known, the time of storing as it is.
pub proof fn windows_begin_at_the_time_of_the_line(
    line: DltLogLine,
    config: DltTimestampSource,
    s: DltStateView,
)
    requires
        line.can_show_current(config, s),
        line.storage_time.valid() && !line.storage_time.is_leap(),
        forall|k: boot_times::AppKey| #[trigger]
            s.boot_times.contains_key(k) ==> s.boot_times[k].valid() && !s.boot_times[k].is_leap(),
    ensures
        config is StorageTime || line.header_timestamp_us is None ==> line.current(
            config,
            s,
        ).total() == line.storage_time.total() + s.storage_offset_ms * 1_000_000,
        config is InferredMonotonic && line.header_timestamp_us is Some
            && s.boot_times.contains_key((line.ecu_id@, line.app_id@)) ==> line.current(
            config,
            s,
        ).total() == s.boot_times[(line.ecu_id@, line.app_id@)].total() + line.header_timestamp_us->0
            * 1000,
        config is InferredMonotonic && line.header_timestamp_us is Some
            && !s.boot_times.contains_key((line.ecu_id@, line.app_id@)) ==> line.current(config, s)
            == line.storage_time,
        line.is_inferred(config) == (config is InferredMonotonic && line.header_timestamp_us
            is Some),
{
    let key = (line.ecu_id@, line.app_id@);
    time::moving_adds_the_length(line.storage_time, s.storage_offset_ms as int);
    if s.boot_times.contains_key(key) && line.header_timestamp_us is Some {
        time::moving_adds_the_length(s.boot_times[key], (line.header_timestamp_us->0) as int);
    }
}

} // verus!
