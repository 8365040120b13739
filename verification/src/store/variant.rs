//! A log file of any kind.

use super::ids::StoreID;
use super::source;
use super::source::{Bookmark, LogLine, SourceData};
use crate::config::DltTimestampSource;
use crate::filetype;
use crate::filetype::btsnoop::BtsnoopLogLine;
use crate::filetype::dlt::line::DltLogLine;
use crate::filetype::pcap::line::{PcapConfig, PcapLogLine};
use crate::filetype::LineType;
use crate::time::{TimeSpan, Timestamp};
use vstd::prelude::*;

verus! {

/// The settings for each kind of file.
#[derive(Debug, Clone, Copy)]
pub struct GlobalFileConfig {
    pub dlt: DltTimestampSource,
    pub pcap: PcapConfig,
}

impl Default for GlobalFileConfig {
    fn default() -> (r: Self)
        ensures
            r.dlt == DltTimestampSource::StorageTime,
            !r.pcap.show_mac_addresses,
    {
        GlobalFileConfig { dlt: DltTimestampSource::StorageTime, pcap: PcapConfig::default() }
    }
}

/// A log file of any kind.
pub enum DataSourceVariant {
    Dlt(SourceData<DltLogLine>),
    Btsnoop(SourceData<BtsnoopLogLine>),
    Pcap(SourceData<PcapLogLine>),
}

/// Whether `after` is a source whose lines were searched: each was shown in the order of
/// time and asked for, and those that answered yes are `found`.
pub open spec fn searched<L: LineType, P: Fn(&str, &str) -> bool>(
    before: SourceData<L>,
    after: SourceData<L>,
    diff: filetype::SpanTexts,
    predicate: P,
    found: Seq<usize>,
) -> bool {
    exists|states: Seq<L::FileState>, results: Seq<bool>|
        {
            &&& #[trigger] source::is_search(
                before.lines(),
                before.order(),
                before.settings(),
                states,
                diff,
                predicate,
                results,
            )
            &&& results.len() == before.lines().len()
            &&& states[0] == before.state()
            &&& states.last() == after.state()
            &&& found == source::kept(before.order(), results)
        }
}

/// Whether only the state of a file differs, in no way that moves a time.
pub open spec fn same_but_state<L: LineType>(a: SourceData<L>, b: SourceData<L>) -> bool {
    &&& a.same_file(&b)
    &&& a.lines() == b.lines()
    &&& a.order() == b.order()
    &&& a.settings() == b.settings()
    &&& a.marks() == b.marks()
    &&& a.current_version() == b.current_version()
    &&& a.times() == b.times()
    &&& a.is_timed() == b.is_timed()
    &&& a.is_searchable() == b.is_searchable()
}

/// A source with other bookmarks.
pub open spec fn remarked<L: LineType>(
    a: SourceData<L>,
    b: SourceData<L>,
    marks: Map<usize, Bookmark>,
) -> bool {
    &&& a.same_file(&b)
    &&& a.lines() == b.lines()
    &&& a.order() == b.order()
    &&& a.settings() == b.settings()
    &&& a.state() == b.state()
    &&& a.current_version() == b.current_version()
    &&& a.marks() == marks
}

/// A source with other settings, put in the order of the times that these give.
pub open spec fn reordered<L: LineType>(
    a: SourceData<L>,
    b: SourceData<L>,
    config: L::Config,
) -> bool {
    &&& a.same_file(&b)
    &&& a.lines() == b.lines()
    &&& a.settings() == config
    &&& a.state() == b.state()
    &&& a.marks() == b.marks()
    &&& a.wf()
    &&& a.in_time_order()
    &&& a.current_version() == source::bumped(b.current_version())
}

fn reorder<L: LineType>(s: &mut SourceData<L>, config: L::Config)
    requires
        old(s).wf(),
        source::times_defined(old(s).lines(), config, old(s).state()),
    ensures
        reordered(*final(s), *old(s), config),
{
    s.set_config(config);
    s.rebuild_time_index();
}

impl DataSourceVariant {
    pub open spec fn id(&self) -> u64 {
        match self {
            DataSourceVariant::Dlt(s) => s.id(),
            DataSourceVariant::Btsnoop(s) => s.id(),
            DataSourceVariant::Pcap(s) => s.id(),
        }
    }

    pub open spec fn path(&self) -> Seq<char> {
        match self {
            DataSourceVariant::Dlt(s) => s.path(),
            DataSourceVariant::Btsnoop(s) => s.path(),
            DataSourceVariant::Pcap(s) => s.path(),
        }
    }

    pub open spec fn name(&self) -> Seq<char> {
        match self {
            DataSourceVariant::Dlt(s) => s.name(),
            DataSourceVariant::Btsnoop(s) => s.name(),
            DataSourceVariant::Pcap(s) => s.name(),
        }
    }

    pub open spec fn current_version(&self) -> u64 {
        match self {
            DataSourceVariant::Dlt(s) => s.current_version(),
            DataSourceVariant::Btsnoop(s) => s.current_version(),
            DataSourceVariant::Pcap(s) => s.current_version(),
        }
    }

    /// How many lines the file has.
    pub open spec fn count(&self) -> nat {
        match self {
            DataSourceVariant::Dlt(s) => s.lines().len(),
            DataSourceVariant::Btsnoop(s) => s.lines().len(),
            DataSourceVariant::Pcap(s) => s.lines().len(),
        }
    }

    pub open spec fn wf(&self) -> bool {
        match self {
            DataSourceVariant::Dlt(s) => s.wf(),
            DataSourceVariant::Btsnoop(s) => s.wf(),
            DataSourceVariant::Pcap(s) => s.wf(),
        }
    }

    /// The times of the lines.
    pub open spec fn times(&self) -> Seq<Timestamp> {
        match self {
            DataSourceVariant::Dlt(s) => s.times(),
            DataSourceVariant::Btsnoop(s) => s.times(),
            DataSourceVariant::Pcap(s) => s.times(),
        }
    }

    /// Whether the times of all lines lie in the range of the calendar.
    pub open spec fn is_timed(&self) -> bool {
        match self {
            DataSourceVariant::Dlt(s) => s.is_timed(),
            DataSourceVariant::Btsnoop(s) => s.is_timed(),
            DataSourceVariant::Pcap(s) => s.is_timed(),
        }
    }

    /// Whether all lines can be shown.
    pub open spec fn is_searchable(&self) -> bool {
        match self {
            DataSourceVariant::Dlt(s) => s.is_searchable(),
            DataSourceVariant::Btsnoop(s) => s.is_searchable(),
            DataSourceVariant::Pcap(s) => s.is_searchable(),
        }
    }

    /// The places of the lines in the order of time.
    pub open spec fn order(&self) -> Seq<usize> {
        match self {
            DataSourceVariant::Dlt(s) => s.order(),
            DataSourceVariant::Btsnoop(s) => s.order(),
            DataSourceVariant::Pcap(s) => s.order(),
        }
    }

    pub open spec fn in_time_order(&self) -> bool {
        match self {
            DataSourceVariant::Dlt(s) => s.in_time_order(),
            DataSourceVariant::Btsnoop(s) => s.in_time_order(),
            DataSourceVariant::Pcap(s) => s.in_time_order(),
        }
    }

    /// The bookmarks by the places of their lines.
    pub open spec fn marks(&self) -> Map<usize, Bookmark> {
        match self {
            DataSourceVariant::Dlt(s) => s.marks(),
            DataSourceVariant::Btsnoop(s) => s.marks(),
            DataSourceVariant::Pcap(s) => s.marks(),
        }
    }

    /// The text of the line at a place, without settings or state.
    pub open spec fn message_at(&self, line_index: int) -> Seq<char> {
        match self {
            DataSourceVariant::Dlt(s) => s.lines()[line_index].message_text(),
            DataSourceVariant::Btsnoop(s) => s.lines()[line_index].message_text(),
            DataSourceVariant::Pcap(s) => s.lines()[line_index].message_text(),
        }
    }

    /// The word for the kind of the file.
    pub open spec fn slug(&self) -> Seq<char> {
        match self {
            DataSourceVariant::Dlt(_) => "dlt"@,
            DataSourceVariant::Btsnoop(_) => "btsnoop"@,
            DataSourceVariant::Pcap(_) => "pcap"@,
        }
    }

    /// Whether the line at a place, if there is one, can be shown.
    pub open spec fn shows(&self, line_index: usize) -> bool {
        match self {
            DataSourceVariant::Dlt(s) => s.shows(line_index),
            DataSourceVariant::Btsnoop(s) => s.shows(line_index),
            DataSourceVariant::Pcap(s) => s.shows(line_index),
        }
    }

    /// Whether a line is what the line at a place shows, without scores.
    pub open spec fn is_shown(
        &self,
        line_index: usize,
        diff: filetype::SpanTexts,
        shown: LogLine,
    ) -> bool {
        match self {
            DataSourceVariant::Dlt(s) => s.is_shown(line_index, diff, shown),
            DataSourceVariant::Btsnoop(s) => s.is_shown(line_index, diff, shown),
            DataSourceVariant::Pcap(s) => s.is_shown(line_index, diff, shown),
        }
    }

    /// Whether only the state differs, as showing the line at a place leaves it.
    pub open spec fn after_showing(&self, before: &Self, line_index: usize) -> bool {
        match (self, before) {
            (DataSourceVariant::Dlt(s), DataSourceVariant::Dlt(b)) => s.after_showing(
                b,
                line_index,
            ),
            (DataSourceVariant::Btsnoop(s), DataSourceVariant::Btsnoop(b)) => s.after_showing(
                b,
                line_index,
            ),
            (DataSourceVariant::Pcap(s), DataSourceVariant::Pcap(b)) => s.after_showing(
                b,
                line_index,
            ),
            _ => false,
        }
    }

    /// Whether the lines of `before` were searched, and those that answered yes are
    /// `found`.
    pub open spec fn searched<P: Fn(&str, &str) -> bool>(
        &self,
        before: &Self,
        diff: filetype::SpanTexts,
        predicate: P,
        found: Seq<usize>,
    ) -> bool {
        match (self, before) {
            (DataSourceVariant::Dlt(s), DataSourceVariant::Dlt(b)) => searched(
                *b,
                *s,
                diff,
                predicate,
                found,
            ),
            (DataSourceVariant::Btsnoop(s), DataSourceVariant::Btsnoop(b)) => searched(
                *b,
                *s,
                diff,
                predicate,
                found,
            ),
            (DataSourceVariant::Pcap(s), DataSourceVariant::Pcap(b)) => searched(
                *b,
                *s,
                diff,
                predicate,
                found,
            ),
            _ => false,
        }
    }

    /// Whether only the state of the file differs, in no way that moves a time.
    pub open spec fn same_but_state(&self, before: &Self) -> bool {
        match (self, before) {
            (DataSourceVariant::Dlt(s), DataSourceVariant::Dlt(b)) => same_but_state(*s, *b),
            (DataSourceVariant::Btsnoop(s), DataSourceVariant::Btsnoop(b)) => same_but_state(
                *s,
                *b,
            ),
            (DataSourceVariant::Pcap(s), DataSourceVariant::Pcap(b)) => same_but_state(*s, *b),
            _ => false,
        }
    }

    /// Whether only the bookmarks differ.
    pub open spec fn remarked(&self, before: &Self, marks: Map<usize, Bookmark>) -> bool {
        match (self, before) {
            (DataSourceVariant::Dlt(s), DataSourceVariant::Dlt(b)) => remarked(*s, *b, marks),
            (DataSourceVariant::Btsnoop(s), DataSourceVariant::Btsnoop(b)) => remarked(
                *s,
                *b,
                marks,
            ),
            (DataSourceVariant::Pcap(s), DataSourceVariant::Pcap(b)) => remarked(*s, *b, marks),
            _ => false,
        }
    }

    /// Whether the times of all lines lie in the range of the calendar under settings.
    pub open spec fn timed_with(&self, config: GlobalFileConfig) -> bool {
        match self {
            DataSourceVariant::Dlt(s) => source::times_defined(s.lines(), config.dlt, s.state()),
            DataSourceVariant::Btsnoop(s) => source::times_defined(s.lines(), (), s.state()),
            DataSourceVariant::Pcap(s) => source::times_defined(
                s.lines(),
                config.pcap,
                s.state(),
            ),
        }
    }

    /// Whether only the settings differ, and the order and version that follow from them.
    pub open spec fn reordered(&self, before: &Self, config: GlobalFileConfig) -> bool {
        match (self, before) {
            (DataSourceVariant::Dlt(s), DataSourceVariant::Dlt(b)) => reordered(
                *s,
                *b,
                config.dlt,
            ),
            (DataSourceVariant::Btsnoop(s), DataSourceVariant::Btsnoop(b)) => reordered(
                *s,
                *b,
                (),
            ),
            (DataSourceVariant::Pcap(s), DataSourceVariant::Pcap(b)) => reordered(
                *s,
                *b,
                config.pcap,
            ),
            _ => false,
        }
    }

    pub fn source_id(&self) -> (r: u64)
        ensures
            r == self.id(),
    {
        match self {
            DataSourceVariant::Dlt(s) => s.source_id(),
            DataSourceVariant::Btsnoop(s) => s.source_id(),
            DataSourceVariant::Pcap(s) => s.source_id(),
        }
    }

    pub fn version(&self) -> (r: u64)
        ensures
            r == self.current_version(),
    {
        match self {
            DataSourceVariant::Dlt(s) => s.version(),
            DataSourceVariant::Btsnoop(s) => s.version(),
            DataSourceVariant::Pcap(s) => s.version(),
        }
    }

    pub fn len(&self) -> (r: usize)
        ensures
            r == self.count(),
    {
        match self {
            DataSourceVariant::Dlt(s) => s.len(),
            DataSourceVariant::Btsnoop(s) => s.len(),
            DataSourceVariant::Pcap(s) => s.len(),
        }
    }

    pub fn file_path(&self) -> (r: &String)
        ensures
            r@ == self.path(),
    {
        match self {
            DataSourceVariant::Dlt(s) => s.file_path(),
            DataSourceVariant::Btsnoop(s) => s.file_path(),
            DataSourceVariant::Pcap(s) => s.file_path(),
        }
    }

    pub fn file_name(&self) -> (r: &String)
        ensures
            r@ == self.name(),
    {
        match self {
            DataSourceVariant::Dlt(s) => s.file_name(),
            DataSourceVariant::Btsnoop(s) => s.file_name(),
            DataSourceVariant::Pcap(s) => s.file_name(),
        }
    }

    /// The word for the kind of the file.
    pub fn filetype_slug(&self) -> (r: &'static str)
        ensures
            r@ == self.slug(),
    {
        match self {
            DataSourceVariant::Dlt(_) => "dlt",
            DataSourceVariant::Btsnoop(_) => "btsnoop",
            DataSourceVariant::Pcap(_) => "pcap",
        }
    }

    /// The time of the line at a place.
    pub fn adjusted_timestamp(&self, line_index: usize) -> (r: Option<Timestamp>)
        requires
            self.is_timed(),
        ensures
            r == if line_index < self.count() {
                Some(self.times()[line_index as int])
            } else {
                None
            },
            r matches Some(t) ==> t.valid(),
    {
        match self {
            DataSourceVariant::Dlt(s) => s.adjusted_timestamp(line_index),
            DataSourceVariant::Btsnoop(s) => s.adjusted_timestamp(line_index),
            DataSourceVariant::Pcap(s) => s.adjusted_timestamp(line_index),
        }
    }

    /// Decides whether the times of all lines lie in the range of the calendar.
    pub fn check_timed(&self) -> (r: bool)
        ensures
            r == self.is_timed(),
    {
        match self {
            DataSourceVariant::Dlt(s) => s.check_timed(),
            DataSourceVariant::Btsnoop(s) => s.check_timed(),
            DataSourceVariant::Pcap(s) => s.check_timed(),
        }
    }

    /// Decides whether the times of all lines would lie in the range of the calendar under
    /// other settings.
    pub fn check_timed_with(&self, config: &GlobalFileConfig) -> (r: bool)
        ensures
            r == self.timed_with(*config),
    {
        match self {
            DataSourceVariant::Dlt(s) => s.check_timed_with(&config.dlt),
            DataSourceVariant::Btsnoop(s) => s.check_timed_with(&()),
            DataSourceVariant::Pcap(s) => s.check_timed_with(&config.pcap),
        }
    }

    /// Decides whether all lines can be shown.
    pub fn check_searchable(&self) -> (r: bool)
        ensures
            r == self.is_searchable(),
    {
        match self {
            DataSourceVariant::Dlt(s) => s.check_searchable(),
            DataSourceVariant::Btsnoop(s) => s.check_searchable(),
            DataSourceVariant::Pcap(s) => s.check_searchable(),
        }
    }

    /// What the scoring service gets of the line at a place: its time in milliseconds
    /// since 1970, and its text without settings or state.
    pub fn get_sidecar_message(&self, line_index: usize) -> (r: Option<(u64, String)>)
        requires
            self.is_timed(),
        ensures
            r is Some == (line_index < self.count()),
            r matches Some((ms, message)) ==> {
                &&& ms == self.times()[line_index as int].unix_ms()
                &&& message@ == self.message_at(line_index as int)
            },
    {
        match self {
            DataSourceVariant::Dlt(s) => s.get_sidecar_message(line_index),
            DataSourceVariant::Btsnoop(s) => s.get_sidecar_message(line_index),
            DataSourceVariant::Pcap(s) => s.get_sidecar_message(line_index),
        }
    }

    /// Shows the line at a place. It has no scores yet.
    pub fn get_log_line<D: Fn(TimeSpan) -> String>(
        &mut self,
        line_index: usize,
        diff: &D,
    ) -> (r: Option<LogLine>)
        requires
            old(self).shows(line_index),
            forall|d: TimeSpan| #[trigger] call_requires(*diff, (d,)),
        ensures
            r is Some == (line_index < old(self).count()),
            r matches Some(shown) ==> {
                &&& old(self).is_shown(line_index, filetype::span_texts(*diff), shown)
                &&& shown.anomaly_score == 0
                &&& shown.sidecar_anomaly_score == 0
                &&& !shown.sidecar_score_is_unk
                &&& !shown.sidecar_score_is_rare
                &&& !shown.sidecar_scored
            },
            final(self).after_showing(old(self), line_index),
    {
        match self {
            DataSourceVariant::Dlt(s) => s.get_as_log_line(line_index, diff),
            DataSourceVariant::Btsnoop(s) => s.get_as_log_line(line_index, diff),
            DataSourceVariant::Pcap(s) => s.get_as_log_line(line_index, diff),
        }
    }

    /// The places of the lines for which a predicate answers yes, in the order of time;
    /// `None` where the search was cancelled.
    pub fn filter_sorted_by_search<D, P, C>(
        &mut self,
        diff: &D,
        predicate: &P,
        should_cancel: &C,
    ) -> (r: Option<Vec<usize>>) where
        D: Fn(TimeSpan) -> String,
        P: Fn(&str, &str) -> bool,
        C: Fn() -> bool,

        requires
            old(self).wf(),
            old(self).is_searchable(),
            forall|d: TimeSpan| #[trigger] call_requires(*diff, (d,)),
            forall|a: &str, b: &str| #[trigger] call_requires(*predicate, (a, b)),
            call_requires(*should_cancel, ()),
        ensures
            r matches Some(found) ==> final(self).searched(
                old(self),
                filetype::span_texts(*diff),
                *predicate,
                found@,
            ),
            old(self).count() == 0 ==> (r matches Some(found) && found@.len() == 0),
            r is None ==> call_ensures(*should_cancel, (), true),
            r is Some && old(self).count() > 0 ==> call_ensures(*should_cancel, (), false),
            final(self).same_but_state(old(self)),
    {
        match self {
            DataSourceVariant::Dlt(s) => s.filter_sorted_by_search(diff, predicate, should_cancel),
            DataSourceVariant::Btsnoop(s) => s.filter_sorted_by_search(
                diff,
                predicate,
                should_cancel,
            ),
            DataSourceVariant::Pcap(s) => s.filter_sorted_by_search(
                diff,
                predicate,
                should_cancel,
            ),
        }
    }

    /// Takes the settings for the kind of the file over, and puts the lines in the order
    /// of the times that these give.
    pub fn apply_file_config_and_rebuild(&mut self, config: &GlobalFileConfig)
        requires
            old(self).wf(),
            old(self).timed_with(*config),
        ensures
            final(self).reordered(old(self), *config),
    {
        match self {
            DataSourceVariant::Dlt(s) => reorder(s, config.dlt),
            DataSourceVariant::Btsnoop(s) => reorder(s, ()),
            DataSourceVariant::Pcap(s) => reorder(s, config.pcap),
        }
    }

    /// Marks a line, in place of an earlier mark.
    pub fn set_bookmark(&mut self, line_index: usize, name: String)
        requires
            old(self).wf(),
        ensures
            final(self).remarked(
                old(self),
                old(self).marks().insert(line_index, Bookmark { line_index, name }),
            ),
            final(self).wf(),
    {
        match self {
            DataSourceVariant::Dlt(s) => s.set_bookmark(line_index, name),
            DataSourceVariant::Btsnoop(s) => s.set_bookmark(line_index, name),
            DataSourceVariant::Pcap(s) => s.set_bookmark(line_index, name),
        }
    }

    /// Takes the mark of a line away, and gives it.
    pub fn remove_bookmark(&mut self, line_index: usize) -> (r: Option<Bookmark>)
        requires
            old(self).wf(),
        ensures
            r == source::mark_at(old(self).marks(), line_index),
            final(self).remarked(old(self), old(self).marks().remove(line_index)),
            final(self).wf(),
    {
        match self {
            DataSourceVariant::Dlt(s) => s.remove_bookmark(line_index),
            DataSourceVariant::Btsnoop(s) => s.remove_bookmark(line_index),
            DataSourceVariant::Pcap(s) => s.remove_bookmark(line_index),
        }
    }

    /// Decides whether a line is marked.
    pub fn has_bookmark(&self, line_index: usize) -> (r: bool)
        ensures
            r == self.marks().contains_key(line_index),
    {
        match self {
            DataSourceVariant::Dlt(s) => s.has_bookmark(line_index),
            DataSourceVariant::Btsnoop(s) => s.has_bookmark(line_index),
            DataSourceVariant::Pcap(s) => s.has_bookmark(line_index),
        }
    }

    /// The mark of a line.
    pub fn get_bookmark(&self, line_index: usize) -> (r: Option<Bookmark>)
        ensures
            r == source::mark_at(self.marks(), line_index),
    {
        match self {
            DataSourceVariant::Dlt(s) => s.get_bookmark(line_index),
            DataSourceVariant::Btsnoop(s) => s.get_bookmark(line_index),
            DataSourceVariant::Pcap(s) => s.get_bookmark(line_index),
        }
    }

    /// All marks, each once and in no known order.
    pub fn get_bookmarks(&self) -> (r: Vec<Bookmark>)
        requires
            self.wf(),
        ensures
            source::is_bookmark_list(self.marks(), r@),
    {
        match self {
            DataSourceVariant::Dlt(s) => s.get_bookmarks(),
            DataSourceVariant::Btsnoop(s) => s.get_bookmarks(),
            DataSourceVariant::Pcap(s) => s.get_bookmarks(),
        }
    }

    /// Ends a frame in which the user may have moved times or asked for a line: where
    /// times changed, all lines are put in order anew. Gives the line to jump to.
    pub fn finish_frame(&mut self, changed: bool, jump_line: Option<usize>) -> (r: (
        bool,
        Option<StoreID>,
    ))
        requires
            old(self).wf(),
            changed ==> old(self).is_timed(),
        ensures
            r.0 == changed,
            r.1 is Some == jump_line is Some,
            r.1 matches Some(id) ==> id.source() == old(self).id() && jump_line == Some(
                id.index(),
            ),
            final(self).wf(),
            final(self).id() == old(self).id(),
            final(self).path() == old(self).path(),
            final(self).name() == old(self).name(),
            final(self).count() == old(self).count(),
            final(self).times() == old(self).times(),
            final(self).marks() == old(self).marks(),
            !changed ==> *final(self) == *old(self),
            changed ==> {
                &&& final(self).in_time_order()
                &&& final(self).current_version() == source::bumped(old(self).current_version())
            },
    {
        match self {
            DataSourceVariant::Dlt(s) => s.finish_frame(changed, jump_line),
            DataSourceVariant::Btsnoop(s) => s.finish_frame(changed, jump_line),
            DataSourceVariant::Pcap(s) => s.finish_frame(changed, jump_line),
        }
    }
}

/// A search finds the lines of a source by what they show and by their full detail: each line
/// is found exactly where the predicate answers yes for texts with which it can be shown. All
/// lines are asked, and none is found twice.
pub proof fn searches_ask_every_line<L: LineType, P: Fn(&str, &str) -> bool>(
    before: SourceData<L>,
    after: SourceData<L>,
    diff: filetype::SpanTexts,
    predicate: P,
    found: Seq<usize>,
    p: usize,
)
    requires
        searched(before, after, diff, predicate, found),
        before.wf(),
        before.lines().len() <= usize::MAX,
        p < before.lines().len(),
    ensures
        exists|state: L::FileState, shown: &str, raw: &str, answer: bool|
            #![trigger before.lines()[p as int].displays(before.settings(), state, diff, shown@), call_ensures(predicate, (shown, raw), answer)]
            {
                &&& before.lines()[p as int].displays(before.settings(), state, diff, shown@)
                &&& before.lines()[p as int].is_raw(raw@)
                &&& call_ensures(predicate, (shown, raw), answer)
                &&& found.contains(p) == answer
            },
        found.no_duplicates(),
        forall|k: int| 0 <= k < found.len() ==> #[trigger] found[k] < before.lines().len(),
{
    let (states, results): (Seq<L::FileState>, Seq<bool>) = choose|
        states: Seq<L::FileState>,
        results: Seq<bool>,
    |
        {
            &&& #[trigger] source::is_search(
                before.lines(),
                before.order(),
                before.settings(),
                states,
                diff,
                predicate,
                results,
            )
            &&& results.len() == before.lines().len()
            &&& states[0] == before.state()
            &&& states.last() == after.state()
            &&& found == source::kept(before.order(), results)
        };
    let n = before.lines().len() as int;
    crate::store::order::lemma_in_range(before.order(), 0, n);
    crate::store::order::permutations_repeat_nothing(before.order(), 0, n);
    source::a_search_finds_every_match(before.order(), results);
    assert(before.order().contains(p));
    let i = choose|i: int| 0 <= i < before.order().len() && before.order()[i] == p;
    source::lines_are_asked_for_what_they_show(
        before.lines(),
        before.order(),
        before.settings(),
        states,
        diff,
        predicate,
        results,
        i,
    );
    let (shown, raw): (&str, &str) = choose|shown: &str, raw: &str|
        before.lines()[p as int].displays(before.settings(), states[i], diff, shown@)
            && before.lines()[p as int].is_raw(raw@) && #[trigger] call_ensures(
            predicate,
            (shown, raw),
            results[i],
        );
    assert(found.contains(p) == results[i]);
    assert(before.lines()[p as int].displays(before.settings(), states[i], diff, shown@));
    assert(call_ensures(predicate, (shown, raw), results[i]));
    assert forall|k: int| 0 <= k < found.len() implies #[trigger] found[k] < before.lines().len() by {
        assert(before.order().contains(found[k]));
    }
}

/// A search of a file of any kind is a search of its lines.
pub proof fn files_of_all_kinds_are_searched<P: Fn(&str, &str) -> bool>(
    before: DataSourceVariant,
    after: DataSourceVariant,
    diff: filetype::SpanTexts,
    predicate: P,
    found: Seq<usize>,
)
    requires
        after.searched(&before, diff, predicate, found),
    ensures
        before matches DataSourceVariant::Dlt(b) ==> (after matches DataSourceVariant::Dlt(a)
            && searched(b, a, diff, predicate, found)),
        before matches DataSourceVariant::Btsnoop(b) ==> (after matches DataSourceVariant::Btsnoop(
            a,
        ) && searched(b, a, diff, predicate, found)),
        before matches DataSourceVariant::Pcap(b) ==> (after matches DataSourceVariant::Pcap(a)
            && searched(b, a, diff, predicate, found)),
{
}

/// Setting bookmarks changes nothing of a file but its bookmarks.
pub proof fn bookmarks_change_nothing_else(
    a: DataSourceVariant,
    b: DataSourceVariant,
    marks: Map<usize, Bookmark>,
)
    requires
        a.remarked(&b, marks),
    ensures
        a.marks() == marks,
        a.id() == b.id(),
        a.path() == b.path(),
        a.name() == b.name(),
        a.count() == b.count(),
        a.order() == b.order(),
        a.times() == b.times(),
        a.current_version() == b.current_version(),
{
}

/// New settings put the lines of a file in the order of the times that they then have, and
/// change neither lines nor bookmarks. The version goes up, so that searches are made anew.
pub proof fn new_settings_put_lines_in_order(
    a: DataSourceVariant,
    b: DataSourceVariant,
    config: GlobalFileConfig,
    i: int,
    j: int,
)
    requires
        a.reordered(&b, config),
        0 <= i < j < a.count() <= usize::MAX,
    ensures
        a.order().len() == a.count(),
        a.times()[a.order()[i] as int].le(a.times()[a.order()[j] as int]),
        a.order()[i] != a.order()[j],
        a.count() == b.count(),
        a.marks() == b.marks(),
        a.id() == b.id(),
        a.current_version() != b.current_version(),
        a matches DataSourceVariant::Dlt(s) ==> s.settings() == config.dlt,
        a matches DataSourceVariant::Pcap(s) ==> s.settings() == config.pcap,
{
    crate::store::order::orders_hold_every_line_by_time(a.order(), a.times(), 0, a.count() as int);
}

/// Each kind of file has its own word, and shows the messages of its own lines.
pub proof fn kinds_of_files_have_words(s: DataSourceVariant, i: int)
    ensures
        s is Dlt ==> s.slug() == "dlt"@,
        s is Btsnoop ==> s.slug() == "btsnoop"@,
        s is Pcap ==> s.slug() == "pcap"@,
        s matches DataSourceVariant::Pcap(d) ==> s.message_at(i)
            == crate::filetype::pcap::packet::message_text(d.lines()[i].packet_info@),
        s matches DataSourceVariant::Dlt(d) ==> s.message_at(i)
            == crate::filetype::dlt::message::body_text(d.lines()[i].dlt_message),
{
}

} // verus!
