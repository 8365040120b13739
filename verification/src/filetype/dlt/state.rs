//! What is kept for one DLT log: offsets, start times and points of synchronisation.

use super::boot_times;
use super::boot_times::BootTimes;
use crate::filetype::{CalibrationResult, CalibrationWindow};
use crate::time;
use crate::time::Timestamp;
use vstd::prelude::*;

verus! {

/// An offset in time that holds from a line on, up to the next such point.
#[derive(Debug, Clone, Copy, PartialEq, Eq, Structural)]
pub struct SyncPoint {
    /// The first line for which the offset holds.
    pub from_line: usize,
    pub offset_ms: i64,
}

/// Whether points of synchronisation stand in the order of their lines, one for a line.
pub open spec fn in_order(points: Seq<SyncPoint>) -> bool {
    forall|i: int, j: int|
        0 <= i < j < points.len() ==> (#[trigger] points[i]).from_line < (
        #[trigger] points[j]).from_line
}

/// How many points at the start of a list stand before a line.
pub open spec fn points_before(points: Seq<SyncPoint>, line: int) -> int
    decreases points.len(),
{
    if points.len() == 0 || points[0].from_line >= line {
        0
    } else {
        1 + points_before(points.drop_first(), line)
    }
}

/// The offset that holds for a line: that of the last point at or before it, or zero.
pub open spec fn offset_at(points: Seq<SyncPoint>, line: usize) -> i64 {
    let k = points_before(points, line + 1);
    if k == 0 {
        0
    } else {
        points[k - 1].offset_ms
    }
}

/// A list of points with one set for a line, in place of one for the same line.
pub open spec fn with_point(points: Seq<SyncPoint>, p: SyncPoint) -> Seq<SyncPoint> {
    let k = points_before(points, p.from_line as int);
    if k < points.len() && points[k].from_line == p.from_line {
        points.update(k, p)
    } else {
        points.insert(k, p)
    }
}

proof fn lemma_points_before(points: Seq<SyncPoint>, line: int)
    requires
        in_order(points),
    ensures
        0 <= points_before(points, line) <= points.len(),
        forall|i: int|
            0 <= i < points.len() ==> ((#[trigger] points[i]).from_line < line <==> i
                < points_before(points, line)),
    decreases points.len(),
{
    if points.len() > 0 && points[0].from_line < line {
        let rest = points.drop_first();
        assert(forall|i: int| 0 <= i < rest.len() ==> rest[i] == points[i + 1]);
        assert(in_order(rest)) by {
            assert forall|i: int, j: int| 0 <= i < j < rest.len() implies (
            #[trigger] rest[i]).from_line < (#[trigger] rest[j]).from_line by {
                assert(points[i + 1].from_line < points[j + 1].from_line);
            }
        }
        lemma_points_before(rest, line);
        assert forall|i: int| 0 <= i < points.len() implies ((#[trigger] points[i]).from_line
            < line <==> i < points_before(points, line)) by {
            if i > 0 {
                assert(rest[i - 1] == points[i]);
            }
        }
    } else if points.len() > 0 {
        assert forall|i: int| 0 <= i < points.len() implies (#[trigger] points[i]).from_line
            >= line by {
            if i > 0 {
                assert(points[0].from_line < points[i].from_line);
            }
        }
    }
}

proof fn lemma_points_before_unique(points: Seq<SyncPoint>, line: int, k: int)
    requires
        in_order(points),
        0 <= k <= points.len(),
        forall|i: int| 0 <= i < k ==> (#[trigger] points[i]).from_line < line,
        forall|i: int| k <= i < points.len() ==> (#[trigger] points[i]).from_line >= line,
    ensures
        points_before(points, line) == k,
{
    lemma_points_before(points, line);
    let n = points_before(points, line);
    if n < k {
        assert(points[n].from_line < line);
    } else if k < n {
        assert(points[k].from_line >= line);
    }
}

proof fn lemma_with_point(points: Seq<SyncPoint>, p: SyncPoint)
    requires
        in_order(points),
    ensures
        in_order(with_point(points, p)),
{
    lemma_points_before(points, p.from_line as int);
    let k = points_before(points, p.from_line as int);
    let after = with_point(points, p);
    assert forall|i: int, j: int| 0 <= i < j < after.len() implies (#[trigger] after[i]).from_line < (
    #[trigger] after[j]).from_line by {
        if k < points.len() && points[k].from_line == p.from_line {
            assert(points[i].from_line < points[j].from_line);
        } else {
            if j < k {
                assert(points[i].from_line < points[j].from_line);
            } else if j == k {
                assert(points[i].from_line < p.from_line);
            } else if i == k {
                assert(points[j - 1].from_line >= p.from_line);
                if j - 1 > k {
                    assert(points[k].from_line < points[j - 1].from_line);
                    assert(points[k].from_line >= p.from_line);
                }
            } else if i < k {
                assert(points[i].from_line < points[j - 1].from_line);
            } else {
                assert(points[i - 1].from_line < points[j - 1].from_line);
            }
        }
    }
}

/// A point of synchronisation sets the offset of the lines from its own up to the next
/// point, and leaves that of all others.
pub proof fn point_sets_offsets(points: Seq<SyncPoint>, p: SyncPoint, line: usize)
    requires
        in_order(points),
    ensures
        offset_at(with_point(points, p), line) == if line < p.from_line || exists|i: int|
            0 <= i < points.len() && p.from_line < (#[trigger] points[i]).from_line <= line {
            offset_at(points, line)
        } else {
            p.offset_ms
        },
{
    let after = with_point(points, p);
    let k = points_before(points, p.from_line as int);
    let n = points_before(points, line + 1);
    lemma_points_before(points, p.from_line as int);
    lemma_points_before(points, line + 1);
    lemma_with_point(points, p);
    let replaced = k < points.len() && points[k].from_line == p.from_line;
    if line < p.from_line {
        assert(n <= k) by {
            if n > k {
                assert(points[k].from_line < line + 1);
            }
        }
        assert(forall|i: int| 0 <= i < n ==> after[i] == points[i]);
        assert forall|i: int| n <= i < after.len() implies (#[trigger] after[i]).from_line >= line
            + 1 by {
            if i < k {
                assert(after[i] == points[i]);
            } else if i > k {
                if replaced {
                    assert(after[i] == points[i]);
                } else {
                    assert(after[i] == points[i - 1]);
                }
            }
        }
        lemma_points_before_unique(after, line + 1, n);
    } else if replaced {
        assert(forall|i: int| 0 <= i < after.len() && i != k ==> after[i] == points[i]);
        assert(k < n) by {
            assert(points[k].from_line < line + 1);
        }
        assert forall|i: int| 0 <= i < n implies (#[trigger] after[i]).from_line < line + 1 by {
            assert(points[i].from_line < line + 1);
        }
        assert forall|i: int| n <= i < after.len() implies (#[trigger] after[i]).from_line >= line
            + 1 by {
            assert(points[i].from_line >= line + 1);
        }
        lemma_points_before_unique(after, line + 1, n);
        if n - 1 > k {
            assert(points[k].from_line < points[n - 1].from_line);
            assert(p.from_line < points[n - 1].from_line <= line);
        } else {
            assert forall|i: int| 0 <= i < points.len() implies !(p.from_line < (
            #[trigger] points[i]).from_line <= line) by {
                if i > k {
                    assert(points[i].from_line >= line + 1);
                } else if i < k {
                    assert(points[i].from_line < p.from_line);
                }
            }
        }
    } else {
        assert(forall|i: int| 0 <= i < k ==> after[i] == points[i]);
        assert(forall|i: int| k < i < after.len() ==> after[i] == points[i - 1]);
        assert(k <= n) by {
            if n < k {
                assert(points[n].from_line < p.from_line);
            }
        }
        assert forall|i: int| 0 <= i < n + 1 implies (#[trigger] after[i]).from_line < line + 1 by {
            if i < k {
                assert(points[i].from_line < line + 1);
            } else if i > k {
                assert(points[i - 1].from_line < line + 1);
            }
        }
        assert forall|i: int| n + 1 <= i < after.len() implies (#[trigger] after[i]).from_line
            >= line + 1 by {
            assert(points[i - 1].from_line >= line + 1);
        }
        lemma_points_before_unique(after, line + 1, n + 1);
        if n > k {
            assert(points[n - 1].from_line >= p.from_line);
            assert(points[k].from_line >= p.from_line);
            if n - 1 > k {
                assert(points[k].from_line < points[n - 1].from_line);
            }
            assert(p.from_line < points[n - 1].from_line <= line);
        } else {
            assert forall|i: int| 0 <= i < points.len() implies !(p.from_line < (
            #[trigger] points[i]).from_line <= line) by {
                if i >= n {
                    assert(points[i].from_line >= line + 1);
                } else {
                    assert(points[i].from_line < p.from_line);
                }
            }
        }
    }
}

/// An open window in which the user sets the time of a line.
#[derive(Debug)]
pub struct DltCalibrationState {
    pub ecu_id: String,
    pub app_id: String,
    /// Microseconds since the start of the sender, at the line.
    pub header_timestamp_us: i64,
    /// Whether the start time of the sender is set, rather than the offset of the log.
    pub is_inferred: bool,
    /// The time at which the line was stored, without any offset.
    pub storage_time: Timestamp,
    pub window: CalibrationWindow,
}

/// An open window in which the user sets a point of synchronisation.
#[derive(Debug)]
pub struct DltSyncPointCalibration {
    /// The line from which the point will hold.
    pub from_line: usize,
    /// The time at which the line was stored, without any offset.
    pub storage_time: Timestamp,
    /// Microseconds since the start of the sender, at the line.
    pub header_timestamp_us: Option<i64>,
    pub ecu_id: String,
    pub app_id: String,
    /// Whether the lines go by the start time of their sender.
    pub is_inferred: bool,
    pub window: CalibrationWindow,
}

/// What the user does in the list of points of synchronisation.
#[derive(Debug, Clone, Copy, PartialEq, Eq, Structural)]
pub enum SyncPanelAction {
    /// Jump to the line of a point.
    Jump(usize),
    /// Set the offset of a point.
    Edit(usize, i64),
    /// Remove a point.
    Remove(usize),
    ClearAll,
    Close,
}

/// What is kept for one DLT log.
pub struct DltFileState {
    storage_offset_ms: i64,
    boot_times: BootTimes,
    sync_points: Vec<SyncPoint>,
    calibration: Option<DltCalibrationState>,
    sync_point_calibration: Option<DltSyncPointCalibration>,
    show_sync_points_window: bool,
    pending_jump_line: Option<usize>,
}

/// What is kept for one DLT log, in mathematical terms.
pub struct DltStateView {
    pub storage_offset_ms: i64,
    pub boot_times: boot_times::BootMap,
    pub sync_points: Seq<SyncPoint>,
    pub calibration: Option<DltCalibrationState>,
    pub sync_point_calibration: Option<DltSyncPointCalibration>,
    pub shows_sync_points: bool,
    pub pending_jump_line: Option<usize>,
}

/// Whether start times became known, none that was known changed, and nothing else did.
pub open spec fn only_seeded(before: DltStateView, after: DltStateView) -> bool {
    &&& after == (DltStateView { boot_times: after.boot_times, ..before })
    &&& forall|k: boot_times::AppKey| #[trigger]
        before.boot_times.contains_key(k) ==> after.boot_times.contains_key(k)
            && after.boot_times[k] == before.boot_times[k]
}

impl View for DltFileState {
    type V = DltStateView;

    closed spec fn view(&self) -> DltStateView {
        DltStateView {
            storage_offset_ms: self.storage_offset_ms,
            boot_times: self.boot_times@,
            sync_points: self.sync_points@,
            calibration: self.calibration,
            sync_point_calibration: self.sync_point_calibration,
            shows_sync_points: self.show_sync_points_window,
            pending_jump_line: self.pending_jump_line,
        }
    }
}

impl DltStateView {
    /// Whether the calibration window can be left with a result: the time that is set
    /// must lie in the range of the calendar.
    pub open spec fn can_calibrate(self, result: CalibrationResult) -> bool {
        match (self.calibration, result) {
            (Some(c), CalibrationResult::Confirmed { target_time, .. }) => if c.is_inferred {
                c.header_timestamp_us > i64::MIN && target_time.can_move(
                    -c.header_timestamp_us * 1000,
                )
            } else {
                target_time.valid() && c.storage_time.valid()
            },
            _ => true,
        }
    }

    /// After the calibration window was left with a result. A start time can be set for
    /// all applications of the control unit.
    pub open spec fn calibrated(self, result: CalibrationResult) -> DltStateView {
        match (self.calibration, result) {
            (
                Some(c),
                CalibrationResult::Confirmed { target_time, apply_to_all_apps },
            ) => if c.is_inferred {
                let key = (c.ecu_id@, c.app_id@);
                let boot = target_time.plus_us(-c.header_timestamp_us);
                DltStateView {
                    boot_times: if apply_to_all_apps {
                        boot_times::with_all_apps(self.boot_times, key.0, boot).insert(key, boot)
                    } else {
                        self.boot_times.insert(key, boot)
                    },
                    calibration: None,
                    ..self
                }
            } else {
                DltStateView {
                    storage_offset_ms: target_time.ms_since(c.storage_time),
                    calibration: None,
                    ..self
                }
            },
            (Some(_), CalibrationResult::Cancelled) => DltStateView { calibration: None, ..self },
            _ => self,
        }
    }

    /// The time of a line without the offset of a point of synchronisation.
    pub open spec fn unsynced_time(self, c: DltSyncPointCalibration) -> Timestamp {
        match (c.is_inferred, c.header_timestamp_us) {
            (true, Some(us)) => match boot_times::boot_time_of(
                self.boot_times,
                c.ecu_id@,
                c.app_id@,
            ) {
                Some(boot) => boot.plus_us(us as int),
                None => c.storage_time,
            },
            _ => c.storage_time.plus_ms(self.storage_offset_ms as int),
        }
    }

    /// Whether the window for a point of synchronisation can be left with a result: the
    /// times must lie in the range of the calendar.
    pub open spec fn can_sync(self, result: CalibrationResult) -> bool {
        match (self.sync_point_calibration, result) {
            (Some(c), CalibrationResult::Confirmed { target_time, .. }) => {
                &&& target_time.valid()
                &&& match (c.is_inferred, c.header_timestamp_us) {
                    (true, Some(us)) => match boot_times::boot_time_of(
                        self.boot_times,
                        c.ecu_id@,
                        c.app_id@,
                    ) {
                        Some(boot) => boot.can_move(us * 1000),
                        None => c.storage_time.valid(),
                    },
                    _ => self.storage_offset_ms > i64::MIN && c.storage_time.can_move(
                        self.storage_offset_ms * 1_000_000,
                    ),
                }
            },
            _ => true,
        }
    }

    /// After the window for a point of synchronisation was left with a result. The list
    /// of points opens where one was set.
    pub open spec fn synced(self, result: CalibrationResult) -> DltStateView {
        match (self.sync_point_calibration, result) {
            (Some(c), CalibrationResult::Confirmed { target_time, .. }) => DltStateView {
                sync_points: with_point(
                    self.sync_points,
                    SyncPoint {
                        from_line: c.from_line,
                        offset_ms: target_time.ms_since(self.unsynced_time(c)),
                    },
                ),
                sync_point_calibration: None,
                shows_sync_points: true,
                ..self
            },
            (Some(_), CalibrationResult::Cancelled) => DltStateView {
                sync_point_calibration: None,
                ..self
            },
            _ => self,
        }
    }

    /// Whether the user can do something in the list of points.
    pub open spec fn can_act(self, action: SyncPanelAction) -> bool {
        match action {
            SyncPanelAction::Jump(i) => i < self.sync_points.len()
                && self.sync_points[i as int].from_line > 0,
            SyncPanelAction::Edit(i, _) => i < self.sync_points.len(),
            SyncPanelAction::Remove(i) => i < self.sync_points.len(),
            SyncPanelAction::ClearAll => true,
            SyncPanelAction::Close => true,
        }
    }

    /// After the user did something in the list of points.
    pub open spec fn acted(self, action: SyncPanelAction) -> DltStateView {
        match action {
            SyncPanelAction::Jump(i) => DltStateView {
                pending_jump_line: Some((self.sync_points[i as int].from_line - 1) as usize),
                ..self
            },
            SyncPanelAction::Edit(i, offset_ms) => DltStateView {
                sync_points: self.sync_points.update(
                    i as int,
                    SyncPoint { from_line: self.sync_points[i as int].from_line, offset_ms },
                ),
                ..self
            },
            SyncPanelAction::Remove(i) => DltStateView {
                sync_points: self.sync_points.remove(i as int),
                ..self
            },
            SyncPanelAction::ClearAll => DltStateView { sync_points: Seq::empty(), ..self },
            SyncPanelAction::Close => DltStateView { shows_sync_points: false, ..self },
        }
    }
}

impl DltFileState {
    #[verifier::type_invariant]
    spec fn wf(&self) -> bool {
        in_order(self.sync_points@)
    }

    /// The state of a log with saved settings.
    pub fn restore(
        storage_offset_ms: i64,
        boot_times: &Vec<(String, Timestamp)>,
        sync_points: Vec<SyncPoint>,
    ) -> (r: Self)
        requires
            in_order(sync_points@),
        ensures
            r@ == (DltStateView {
                storage_offset_ms,
                boot_times: boot_times::saved_boot_times(boot_times::saved_views(boot_times@)),
                sync_points: sync_points@,
                calibration: None,
                sync_point_calibration: None,
                shows_sync_points: false,
                pending_jump_line: None,
            }),
    {
        DltFileState {
            storage_offset_ms,
            boot_times: BootTimes::from_saved(boot_times),
            sync_points,
            calibration: None,
            sync_point_calibration: None,
            show_sync_points_window: false,
            pending_jump_line: None,
        }
    }

    /// A copy without open calibration windows and without a pending jump.
    pub fn duplicate(&self) -> (r: Self)
        ensures
            r@ == (DltStateView {
                calibration: None,
                sync_point_calibration: None,
                pending_jump_line: None,
                ..self@
            }),
    {
        proof {
            use_type_invariant(&*self);
        }
        DltFileState {
            storage_offset_ms: self.storage_offset_ms,
            boot_times: self.boot_times.duplicate(),
            sync_points: self.sync_point_list(),
            calibration: None,
            sync_point_calibration: None,
            show_sync_points_window: self.show_sync_points_window,
            pending_jump_line: None,
        }
    }

    /// The points of synchronisation.
    pub fn sync_point_list(&self) -> (r: Vec<SyncPoint>)
        ensures
            r@ == self@.sync_points,
            in_order(r@),
    {
        proof {
            use_type_invariant(&*self);
        }
        let mut out: Vec<SyncPoint> = Vec::new();
        let mut i: usize = 0;
        while i < self.sync_points.len()
            invariant
                i <= self.sync_points@.len(),
                out@ == self.sync_points@.take(i as int),
            decreases self.sync_points.len() - i,
        {
            out.push(self.sync_points[i]);
            assert(out@ =~= self.sync_points@.take(i + 1));
            i += 1;
        }
        assert(out@ =~= self.sync_points@);
        out
    }

    /// The start times as they are saved.
    pub fn saved_boot_times(&self) -> (r: Vec<(String, Timestamp)>)
        ensures
            boot_times::is_saved(self@.boot_times, boot_times::saved_views(r@)),
    {
        self.boot_times.to_saved()
    }

    /// The offset of the whole log in milliseconds.
    pub fn storage_offset_ms(&self) -> (r: i64)
        ensures
            r == self@.storage_offset_ms,
    {
        self.storage_offset_ms
    }

    /// When an application was started, where it is known.
    pub fn boot_time(&self, ecu: &String, app: &String) -> (r: Option<Timestamp>)
        ensures
            r == boot_times::boot_time_of(self@.boot_times, ecu@, app@),
    {
        self.boot_times.get(ecu, app)
    }

    /// Sets when an application was started, unless that is known.
    pub fn seed_boot_time(&mut self, ecu: &String, app: &String, t: Timestamp)
        ensures
            final(self)@ == (DltStateView {
                boot_times: if old(self)@.boot_times.contains_key((ecu@, app@)) {
                    old(self)@.boot_times
                } else {
                    old(self)@.boot_times.insert((ecu@, app@), t)
                },
                ..old(self)@
            }),
    {
        proof {
            use_type_invariant(&*self);
        }
        let mut boot = BootTimes::new();
        std::mem::swap(&mut boot, &mut self.boot_times);
        boot.insert_if_absent(ecu, app, t);
        self.boot_times = boot;
    }

    /// How many points stand before a line.
    fn count_before(&self, line: usize, inclusive: bool) -> (r: usize)
        ensures
            r == points_before(
                self.sync_points@,
                if inclusive {
                    line + 1
                } else {
                    line as int
                },
            ),
            r <= self.sync_points@.len(),
    {
        proof {
            use_type_invariant(&*self);
        }
        let ghost bound: int = if inclusive {
            line + 1
        } else {
            line as int
        };
        let mut low: usize = 0;
        let mut high: usize = self.sync_points.len();
        while low < high
            invariant
                low <= high <= self.sync_points@.len(),
                in_order(self.sync_points@),
                bound == if inclusive {
                    line + 1
                } else {
                    line as int
                },
                forall|i: int| 0 <= i < low ==> (#[trigger] self.sync_points@[i]).from_line < bound,
                forall|i: int|
                    high <= i < self.sync_points@.len() ==> (
                    #[trigger] self.sync_points@[i]).from_line >= bound,
            decreases high - low,
        {
            let mid: usize = low + (high - low) / 2;
            let at: usize = self.sync_points[mid].from_line;
            if at < line || (inclusive && at == line) {
                assert forall|i: int| 0 <= i < mid + 1 implies (
                #[trigger] self.sync_points@[i]).from_line < bound by {
                    if i < mid {
                        assert(self.sync_points@[i].from_line < self.sync_points@[mid as int].from_line);
                    }
                }
                low = mid + 1;
            } else {
                assert forall|i: int| mid <= i < self.sync_points@.len() implies (
                #[trigger] self.sync_points@[i]).from_line >= bound by {
                    if mid < i {
                        assert(self.sync_points@[mid as int].from_line < self.sync_points@[i].from_line);
                    }
                }
                high = mid;
            }
        }
        proof {
            lemma_points_before_unique(self.sync_points@, bound, low as int);
        }
        low
    }

    /// The offset of the point of synchronisation that holds for a line, or zero.
    pub fn sync_point_offset_ms(&self, line_number: usize) -> (r: i64)
        ensures
            r == offset_at(self@.sync_points, line_number),
    {
        let k: usize = self.count_before(line_number, true);
        if k == 0 {
            0
        } else {
            self.sync_points[k - 1].offset_ms
        }
    }

    fn set_sync_point(&mut self, p: SyncPoint)
        ensures
            final(self)@ == (DltStateView {
                sync_points: with_point(old(self)@.sync_points, p),
                ..old(self)@
            }),
    {
        let k: usize = self.count_before(p.from_line, false);
        proof {
            use_type_invariant(&*self);
            lemma_with_point(self.sync_points@, p);
        }
        let mut points: Vec<SyncPoint> = Vec::new();
        std::mem::swap(&mut points, &mut self.sync_points);
        if k < points.len() && points[k].from_line == p.from_line {
            points.set(k, p);
        } else {
            points.insert(k, p);
        }
        self.sync_points = points;
    }

    /// Opens the calibration window.
    pub fn open_calibration(&mut self, c: DltCalibrationState)
        ensures
            final(self)@ == (DltStateView { calibration: Some(c), ..old(self)@ }),
    {
        proof {
            use_type_invariant(&*self);
        }
        self.calibration = Some(c);
    }

    /// Opens the window for a point of synchronisation.
    pub fn open_sync_calibration(&mut self, c: DltSyncPointCalibration)
        ensures
            final(self)@ == (DltStateView { sync_point_calibration: Some(c), ..old(self)@ }),
    {
        proof {
            use_type_invariant(&*self);
        }
        self.sync_point_calibration = Some(c);
    }

    /// Opens or closes the list of points of synchronisation.
    pub fn toggle_sync_points_window(&mut self)
        ensures
            final(self)@ == (DltStateView {
                shows_sync_points: !old(self)@.shows_sync_points,
                ..old(self)@
            }),
    {
        proof {
            use_type_invariant(&*self);
        }
        self.show_sync_points_window = !self.show_sync_points_window;
    }

    /// The open calibration window, where there is one.
    pub fn calibration_window(&self) -> (r: Option<CalibrationWindow>)
        ensures
            r == match self@.calibration {
                Some(c) => Some(c.window),
                None => None,
            },
    {
        match &self.calibration {
            Some(c) => Some(c.window),
            None => None,
        }
    }

    /// The open window for a point of synchronisation, where there is one.
    pub fn sync_calibration_window(&self) -> (r: Option<CalibrationWindow>)
        ensures
            r == match self@.sync_point_calibration {
                Some(c) => Some(c.window),
                None => None,
            },
    {
        match &self.sync_point_calibration {
            Some(c) => Some(c.window),
            None => None,
        }
    }

    /// Whether the list of points of synchronisation is open.
    pub fn shows_sync_points(&self) -> (r: bool)
        ensures
            r == self@.shows_sync_points,
    {
        self.show_sync_points_window
    }

    /// The line to jump to, once.
    pub fn take_pending_jump_line(&mut self) -> (r: Option<usize>)
        ensures
            r == old(self)@.pending_jump_line,
            final(self)@ == (DltStateView { pending_jump_line: None, ..old(self)@ }),
    {
        proof {
            use_type_invariant(&*self);
        }
        let line = self.pending_jump_line;
        self.pending_jump_line = None;
        line
    }

    /// Decides whether the calibration window can be left with a result.
    pub fn can_finish_calibration(&self, result: CalibrationResult) -> (r: bool)
        ensures
            r == self@.can_calibrate(result),
    {
        match (&self.calibration, result) {
            (Some(c), CalibrationResult::Confirmed { target_time, .. }) => {
                if c.is_inferred {
                    c.header_timestamp_us > i64::MIN && target_time.is_valid()
                        && target_time.can_add_us(-c.header_timestamp_us)
                } else {
                    target_time.is_valid() && c.storage_time.is_valid()
                }
            },
            _ => true,
        }
    }

    /// Leaves the calibration window with a result, and says whether any time changed.
    pub fn finish_calibration(&mut self, result: CalibrationResult) -> (r: bool)
        requires
            old(self)@.can_calibrate(result),
        ensures
            final(self)@ == old(self)@.calibrated(result),
            r == (old(self)@.calibration is Some && result is Confirmed),
    {
        proof {
            use_type_invariant(&*self);
        }
        let mut open: Option<DltCalibrationState> = None;
        std::mem::swap(&mut open, &mut self.calibration);
        match open {
            None => false,
            Some(cal) => match result {
                CalibrationResult::Confirmed { target_time, apply_to_all_apps } => {
                    if cal.is_inferred {
                        let boot_time = time::add_microseconds(
                            target_time,
                            -cal.header_timestamp_us,
                        );
                        let mut boot = BootTimes::new();
                        std::mem::swap(&mut boot, &mut self.boot_times);
                        let ghost before = boot@;
                        let ghost key = (cal.ecu_id@, cal.app_id@);
                        if apply_to_all_apps {
                            boot.set_all_apps(&cal.ecu_id, boot_time);
                            let ghost mid = boot@;
                            boot.insert_if_absent(&cal.ecu_id, &cal.app_id, boot_time);
                            assert(boot@ =~= mid.insert(key, boot_time));
                        } else {
                            boot.insert(cal.ecu_id, cal.app_id, boot_time);
                        }
                        self.boot_times = boot;
                    } else {
                        self.storage_offset_ms = target_time.milliseconds_since(&cal.storage_time);
                    }
                    true
                },
                CalibrationResult::Pending => {
                    self.calibration = Some(cal);
                    false
                },
                CalibrationResult::Cancelled => false,
            },
        }
    }

    /// Decides whether the window for a point of synchronisation can be left with a
    /// result.
    pub fn can_finish_sync_calibration(&self, result: CalibrationResult) -> (r: bool)
        ensures
            r == self@.can_sync(result),
    {
        match (&self.sync_point_calibration, result) {
            (Some(c), CalibrationResult::Confirmed { target_time, .. }) => {
                if !target_time.is_valid() {
                    return false;
                }
                match (c.is_inferred, c.header_timestamp_us) {
                    (true, Some(us)) => match self.boot_times.get(&c.ecu_id, &c.app_id) {
                        Some(boot) => boot.is_valid() && boot.can_add_us(us),
                        None => c.storage_time.is_valid(),
                    },
                    _ => self.storage_offset_ms > i64::MIN && c.storage_time.is_valid()
                        && c.storage_time.can_add_ms(self.storage_offset_ms),
                }
            },
            _ => true,
        }
    }

    /// Leaves the window for a point of synchronisation with a result, and says whether
    /// any time changed.
    pub fn finish_sync_calibration(&mut self, result: CalibrationResult) -> (r: bool)
        requires
            old(self)@.can_sync(result),
        ensures
            final(self)@ == old(self)@.synced(result),
            r == (old(self)@.sync_point_calibration is Some && result is Confirmed),
    {
        proof {
            use_type_invariant(&*self);
        }
        let mut open: Option<DltSyncPointCalibration> = None;
        std::mem::swap(&mut open, &mut self.sync_point_calibration);
        match open {
            None => false,
            Some(cal) => match result {
                CalibrationResult::Confirmed { target_time, .. } => {
                    let raw_time = match (cal.is_inferred, cal.header_timestamp_us) {
                        (true, Some(us)) => match self.boot_times.get(&cal.ecu_id, &cal.app_id) {
                            Some(boot) => time::add_microseconds(boot, us),
                            None => cal.storage_time,
                        },
                        _ => time::add_milliseconds(cal.storage_time, self.storage_offset_ms),
                    };
                    let offset_ms: i64 = target_time.milliseconds_since(&raw_time);
                    self.set_sync_point(SyncPoint { from_line: cal.from_line, offset_ms });
                    proof {
                        use_type_invariant(&*self);
                    }
                    self.show_sync_points_window = true;
                    true
                },
                CalibrationResult::Pending => {
                    self.sync_point_calibration = Some(cal);
                    false
                },
                CalibrationResult::Cancelled => false,
            },
        }
    }

    /// Does what the user does in the list of points, and says whether any time changed.
    pub fn apply_panel_action(&mut self, action: SyncPanelAction) -> (r: bool)
        requires
            old(self)@.can_act(action),
        ensures
            final(self)@ == old(self)@.acted(action),
            r == (action is Edit || action is Remove || action is ClearAll),
    {
        proof {
            use_type_invariant(&*self);
        }
        match action {
            SyncPanelAction::Jump(i) => {
                self.pending_jump_line = Some(self.sync_points[i].from_line - 1);
                false
            },
            SyncPanelAction::Edit(i, offset_ms) => {
                let mut points: Vec<SyncPoint> = Vec::new();
                std::mem::swap(&mut points, &mut self.sync_points);
                let from_line: usize = points[i].from_line;
                points.set(i, SyncPoint { from_line, offset_ms });
                assert(in_order(points@)) by {
                    let before = old(self)@.sync_points;
                    assert forall|a: int, b: int| 0 <= a < b < points@.len() implies (
                    #[trigger] points@[a]).from_line < (#[trigger] points@[b]).from_line by {
                        assert(before[a].from_line < before[b].from_line);
                    }
                }
                self.sync_points = points;
                true
            },
            SyncPanelAction::Remove(i) => {
                let mut points: Vec<SyncPoint> = Vec::new();
                std::mem::swap(&mut points, &mut self.sync_points);
                points.remove(i);
                assert(in_order(points@)) by {
                    let before = old(self)@.sync_points;
                    assert forall|a: int, b: int| 0 <= a < b < points@.len() implies (
                    #[trigger] points@[a]).from_line < (#[trigger] points@[b]).from_line by {
                        let a0 = if a < i {
                            a
                        } else {
                            a + 1
                        };
                        let b0 = if b < i {
                            b
                        } else {
                            b + 1
                        };
                        assert(before[a0].from_line < before[b0].from_line);
                    }
                }
                self.sync_points = points;
                true
            },
            SyncPanelAction::ClearAll => {
                self.sync_points = Vec::new();
                assert(self.sync_points@ =~= Seq::empty());
                true
            },
            SyncPanelAction::Close => {
                self.show_sync_points_window = false;
                false
            },
        }
    }
}

impl Default for DltFileState {
    fn default() -> (r: Self)
        ensures
            r@ == (DltStateView {
                storage_offset_ms: 0,
                boot_times: boot_times::BootMap::empty(),
                sync_points: Seq::empty(),
                calibration: None,
                sync_point_calibration: None,
                shows_sync_points: false,
                pending_jump_line: None,
            }),
    {
        let r = DltFileState {
            storage_offset_ms: 0,
            boot_times: BootTimes::new(),
            sync_points: Vec::new(),
            calibration: None,
            sync_point_calibration: None,
            show_sync_points_window: false,
            pending_jump_line: None,
        };
        assert(r@.sync_points =~= Seq::empty());
        r
    }
}

/// A calibration of an application sets the start time from which its line is reached at the
/// time that was set. Where it is not applied to all applications, the start time of every
/// other pair of control unit and application stays as it was. Where it is, those of the same
/// control unit that are known become the same, and those of other units stay. Offsets and
/// points of synchronisation stay in either case.
pub proof fn calibration_moves_only_what_was_chosen(
    s: DltStateView,
    c: DltCalibrationState,
    target_time: Timestamp,
    all: bool,
    other: boot_times::AppKey,
)
    requires
        s.calibration == Some(c),
        c.is_inferred,
        !target_time.is_leap(),
        s.can_calibrate(CalibrationResult::Confirmed { target_time, apply_to_all_apps: all }),
    ensures
        ({
            let after = s.calibrated(
                CalibrationResult::Confirmed { target_time, apply_to_all_apps: all },
            );
            let key = (c.ecu_id@, c.app_id@);
            &&& after.boot_times.contains_key(key)
            &&& after.boot_times[key].total() + c.header_timestamp_us * 1000
                == target_time.total()
            &&& other != key ==> after.boot_times.contains_key(other)
                == s.boot_times.contains_key(other)
            &&& !all && other != key && s.boot_times.contains_key(other)
                ==> after.boot_times[other] == s.boot_times[other]
            &&& all && other.0 == key.0 && s.boot_times.contains_key(other)
                ==> after.boot_times[other] == after.boot_times[key]
            &&& other.0 != key.0 && s.boot_times.contains_key(other) ==> after.boot_times[other]
                == s.boot_times[other]
            &&& after.storage_offset_ms == s.storage_offset_ms
            &&& after.sync_points == s.sync_points
            &&& after.calibration is None
            &&& after.sync_point_calibration == s.sync_point_calibration
            &&& after.shows_sync_points == s.shows_sync_points
            &&& after.pending_jump_line == s.pending_jump_line
        }),
{
    time::moving_adds_the_length(target_time, -c.header_timestamp_us);
    assert((-c.header_timestamp_us) * 1000 == -(c.header_timestamp_us * 1000));
}

/// A calibration of a log that goes by the times at which its lines were stored sets the offset
/// of the log, and no start time. One that is cancelled sets nothing, and closes the window.
pub proof fn calibration_of_a_log_sets_its_offset(
    s: DltStateView,
    c: DltCalibrationState,
    target_time: Timestamp,
    all: bool,
)
    requires
        s.calibration == Some(c),
        !target_time.is_leap(),
        !c.storage_time.is_leap(),
        target_time.valid(),
        c.storage_time.valid(),
    ensures
        ({
            let after = s.calibrated(
                CalibrationResult::Confirmed { target_time, apply_to_all_apps: all },
            );
            !c.is_inferred ==> {
                &&& after == (DltStateView {
                    storage_offset_ms: after.storage_offset_ms,
                    calibration: None,
                    ..s
                })
                &&& -1_000_000 < after.storage_offset_ms * 1_000_000 - (target_time.total()
                    - c.storage_time.total()) < 1_000_000
            }
        }),
        s.calibrated(CalibrationResult::Cancelled) == (DltStateView { calibration: None, ..s }),
{
    time::lengths_are_differences(target_time, c.storage_time);
    time::parts_of_milliseconds_are_left_out(target_time.since(c.storage_time));
}

/// Without an open window a result changes nothing.
pub proof fn results_without_a_window_change_nothing(s: DltStateView, result: CalibrationResult)
    ensures
        s.calibration is None ==> s.calibrated(result) == s,
        s.sync_point_calibration is None ==> s.synced(result) == s,
{
}

/// The offset that holds for a line is that of the last point of synchronisation at or before
/// it, and there is none where all points stand behind it.
pub proof fn the_last_point_before_a_line_holds(points: Seq<SyncPoint>, line: usize, i: int)
    requires
        in_order(points),
    ensures
        (forall|k: int| 0 <= k < points.len() ==> (#[trigger] points[k]).from_line > line)
            ==> offset_at(points, line) == 0,
        0 <= i < points.len() && points[i].from_line <= line && (i + 1 < points.len() ==> points[i
            + 1].from_line > line) ==> offset_at(points, line) == points[i].offset_ms,
{
    lemma_points_before(points, line + 1);
    let k = points_before(points, line + 1);
    if 0 <= i < points.len() && points[i].from_line <= line && (i + 1 < points.len() ==> points[i
        + 1].from_line > line) {
        assert forall|j: int| 0 <= j < i + 1 implies (#[trigger] points[j]).from_line < line + 1
            by {
            if j < i {
                assert(points[j].from_line < points[i].from_line);
            }
        }
        assert forall|j: int| i + 1 <= j < points.len() implies (#[trigger] points[j]).from_line
            >= line + 1 by {
            if j > i + 1 {
                assert(points[i + 1].from_line < points[j].from_line);
            }
        }
        lemma_points_before_unique(points, line + 1, i + 1);
    }
    if forall|j: int| 0 <= j < points.len() ==> (#[trigger] points[j]).from_line > line {
        if k > 0 {
            assert(points[0].from_line > line);
        }
    }
}

/// Confirming a point of synchronisation sets the offset from the time of its line to the time
/// that was set, for the lines from its own up to the next point. Other lines keep theirs, and
/// neither start times nor the offset of the log change. Cancelling it changes no line.
pub proof fn points_of_synchronisation_move_lines_behind_them(
    s: DltStateView,
    c: DltSyncPointCalibration,
    target_time: Timestamp,
    all: bool,
    line: usize,
)
    requires
        in_order(s.sync_points),
        s.sync_point_calibration == Some(c),
        target_time.valid(),
        s.unsynced_time(c).valid(),
        !target_time.is_leap(),
        !s.unsynced_time(c).is_leap(),
    ensures
        ({
            let yes = s.synced(
                CalibrationResult::Confirmed { target_time, apply_to_all_apps: all },
            );
            let no = s.synced(CalibrationResult::Cancelled);
            &&& line < c.from_line ==> offset_at(yes.sync_points, line) == offset_at(
                s.sync_points,
                line,
            )
            &&& line >= c.from_line && (forall|i: int|
                0 <= i < s.sync_points.len() ==> !(c.from_line < (
                #[trigger] s.sync_points[i]).from_line <= line)) ==> -1_000_000 < offset_at(
                yes.sync_points,
                line,
            ) * 1_000_000 - (target_time.total() - s.unsynced_time(c).total()) < 1_000_000
            &&& line >= c.from_line && (exists|i: int|
                0 <= i < s.sync_points.len() && c.from_line < (
                #[trigger] s.sync_points[i]).from_line <= line) ==> offset_at(
                yes.sync_points,
                line,
            ) == offset_at(s.sync_points, line)
            &&& yes.boot_times == s.boot_times
            &&& yes.storage_offset_ms == s.storage_offset_ms
            &&& yes.calibration == s.calibration
            &&& yes.sync_point_calibration is None
            &&& no == (DltStateView { sync_point_calibration: None, ..s })
        }),
{
    let base = s.unsynced_time(c);
    let p = SyncPoint { from_line: c.from_line, offset_ms: target_time.ms_since(base) };
    point_sets_offsets(s.sync_points, p, line);
    time::lengths_are_differences(target_time, base);
    time::parts_of_milliseconds_are_left_out(target_time.since(base));
}

/// The time of a line without a point of synchronisation is the start time of its application
/// and the time since then, where it goes by them and the start time is known, or else the time
/// at which it was stored, with the offset of the log where it goes by that.
pub proof fn times_without_points_of_synchronisation(s: DltStateView, c: DltSyncPointCalibration)
    ensures
        c.is_inferred && c.header_timestamp_us is Some && s.boot_times.contains_key(
            (c.ecu_id@, c.app_id@),
        ) ==> s.unsynced_time(c) == s.boot_times[(c.ecu_id@, c.app_id@)].plus_us(
            c.header_timestamp_us->0 as int,
        ),
        c.is_inferred && c.header_timestamp_us is Some && !s.boot_times.contains_key(
            (c.ecu_id@, c.app_id@),
        ) ==> s.unsynced_time(c) == c.storage_time,
        !c.is_inferred || c.header_timestamp_us is None ==> s.unsynced_time(c)
            == c.storage_time.plus_ms(s.storage_offset_ms as int),
{
}

/// In the list of points of synchronisation each action does its own: editing one sets its
/// offset, and its line and the other points stay; removing one takes it out, and the others
/// stay in their order; clearing takes all out, so that no line has an offset; jumping asks for
/// the line before the number of the point; closing hides the list. Nothing else changes.
pub proof fn actions_on_points_do_their_own(s: DltStateView, i: usize, offset_ms: i64, line: usize)
    requires
        i < s.sync_points.len(),
    ensures
        ({
            let edited = s.acted(SyncPanelAction::Edit(i, offset_ms));
            let removed = s.acted(SyncPanelAction::Remove(i));
            let cleared = s.acted(SyncPanelAction::ClearAll);
            let jumped = s.acted(SyncPanelAction::Jump(i));
            let closed = s.acted(SyncPanelAction::Close);
            &&& edited == (DltStateView { sync_points: edited.sync_points, ..s })
            &&& edited.sync_points.len() == s.sync_points.len()
            &&& forall|k: int|
                0 <= k < s.sync_points.len() ==> (#[trigger] edited.sync_points[k]).from_line
                    == s.sync_points[k].from_line && edited.sync_points[k].offset_ms == if k
                    == i {
                    offset_ms
                } else {
                    s.sync_points[k].offset_ms
                }
            &&& removed == (DltStateView { sync_points: removed.sync_points, ..s })
            &&& removed.sync_points == s.sync_points.take(i as int) + s.sync_points.skip(i + 1)
            &&& cleared == (DltStateView { sync_points: cleared.sync_points, ..s })
            &&& offset_at(cleared.sync_points, line) == 0
            &&& cleared.sync_points.len() == 0
            &&& jumped == (DltStateView { pending_jump_line: jumped.pending_jump_line, ..s })
            &&& s.sync_points[i as int].from_line > 0 ==> (jumped.pending_jump_line matches Some(l)
                && l + 1 == s.sync_points[i as int].from_line)
            &&& closed == (DltStateView { shows_sync_points: false, ..s })
        }),
{
    assert(s.sync_points.remove(i as int) =~= s.sync_points.take(i as int) + s.sync_points.skip(
        i + 1,
    ));
}

} // verus!
