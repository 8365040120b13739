//! All log files of a session.

use super::ids::{StoreID, StoreVersion};
use super::kway;
use super::kway::TimedId;
use super::order;
use super::score_map;
use super::score_map::{ScoreMap, Sheets};
use super::scores::{ScoreBits, ScoreStore, ScoresView};
use super::source;
use super::source::{Bookmark, LogLine};
use super::source_map;
use super::source_map::{Entries, SourceMap};
use super::variant::{DataSourceVariant, GlobalFileConfig};
use crate::filetype;
use crate::sidecar::explain;
use crate::sidecar::explain::{ExplainPollStatus, ExplainResult, Received};
use crate::sidecar::model::InputLine;
use crate::sidecar::scoring::ScoringConfig;
use crate::time;
use crate::time::{TimeSpan, Timestamp};
use std::cmp::Ordering;
use std::collections::HashSet;
use vstd::prelude::*;

verus! {

/// A bookmark with the line that it marks.
#[derive(Debug)]
pub struct BookmarkData {
    pub store_id: StoreID,
    pub name: String,
}

/// All log files of a session, with the scores of their lines.
pub struct LogStore {
    sources: SourceMap,
    sources_version: u64,
    scores: ScoreMap,
    sidecar_scores: ScoreMap,
    sidecar_config: Option<ScoringConfig>,
    explain_sessions: HashSet<u64>,
}

/// The time of a line, where its source and the line are there.
pub open spec fn time_of(sources: Entries, id: StoreID) -> Option<Timestamp> {
    let place = source_map::place_of(sources, id.source());
    if source_map::has_key(sources, id.source()) && id.index() < sources[place].1.count() {
        Some(sources[place].1.times()[id.index() as int])
    } else {
        None
    }
}

/// Lines with their times, without those that have none.
pub open spec fn timed_ids(sources: Entries, list: Seq<StoreID>) -> Seq<TimedId>
    decreases list.len(),
{
    if list.len() == 0 {
        Seq::empty()
    } else {
        let before = timed_ids(sources, list.drop_last());
        match time_of(sources, list.last()) {
            Some(t) => before.push((t, list.last())),
            None => before,
        }
    }
}

/// The sum of the versions of sources.
pub open spec fn version_sum(sources: Entries) -> nat
    decreases sources.len(),
{
    if sources.len() == 0 {
        0
    } else {
        version_sum(sources.drop_last()) + sources.last().1.current_version() as nat
    }
}

/// How many lines sources have together.
pub open spec fn line_sum(sources: Entries) -> nat
    decreases sources.len(),
{
    if sources.len() == 0 {
        0
    } else {
        line_sum(sources.drop_last()) + sources.last().1.count()
    }
}

/// The lines at places of a source.
pub open spec fn ids_of(source_id: u64, places: Seq<usize>, ids: Seq<StoreID>) -> bool {
    &&& ids.len() == places.len()
    &&& forall|i: int|
        0 <= i < ids.len() ==> (#[trigger] ids[i]).source() == source_id && ids[i].index()
            == places[i]
}

/// Whether a path names the file of a source: by the canonical paths where both are
/// known, else by the paths as they were given.
pub open spec fn names_file(
    path: Seq<char>,
    canonical: Option<Seq<char>>,
    source_path: Seq<char>,
    source_canonical: Option<Seq<char>>,
) -> bool {
    match (canonical, source_canonical) {
        (Some(a), Some(b)) => a == b,
        _ => source_path == path,
    }
}

/// Whether bookmarks are those of a source.
pub open spec fn are_marks_of(source_id: u64, list: Seq<Bookmark>, data: Seq<BookmarkData>) -> bool {
    &&& data.len() == list.len()
    &&& forall|i: int|
        0 <= i < list.len() ==> (#[trigger] data[i]).store_id.source() == source_id
            && data[i].store_id.index() == list[i].line_index && data[i].name == list[i].name
}

/// Whether bookmarks are those of all sources, source by source.
pub open spec fn are_all_marks(sources: Entries, data: Seq<BookmarkData>) -> bool
    decreases sources.len(),
{
    if sources.len() == 0 {
        data.len() == 0
    } else {
        exists|list: Seq<Bookmark>|
            {
                &&& list.len() <= data.len()
                &&& #[trigger] source::is_bookmark_list(sources.last().1.marks(), list)
                &&& are_marks_of(sources.last().0, list, data.skip(data.len() - list.len()))
                &&& are_all_marks(sources.drop_last(), data.take(data.len() - list.len()))
            }
    }
}

/// Whether a frame of a source has ended.
pub open spec fn frame_ended(
    before: (u64, DataSourceVariant),
    after: (u64, DataSourceVariant),
    changed: bool,
) -> bool {
    &&& after.0 == before.0
    &&& after.1.wf()
    &&& after.1.id() == before.1.id()
    &&& after.1.times() == before.1.times()
    &&& after.1.marks() == before.1.marks()
    &&& !changed ==> after == before
    &&& changed ==> after.1.in_time_order() && after.1.current_version() == source::bumped(
        before.1.current_version(),
    )
}

/// The last line that was asked for, with the place of its source.
pub open spec fn last_jump(frames: Seq<(bool, Option<usize>)>) -> Option<(int, usize)>
    decreases frames.len(),
{
    if frames.len() == 0 {
        None
    } else {
        match frames.last().1 {
            Some(line) => Some((frames.len() - 1, line)),
            None => last_jump(frames.drop_last()),
        }
    }
}

/// Whether a place of a list is that of the line closest in time: the first one that is
/// not earlier, or the one before it where that is at least as close.
pub open spec fn is_closest(
    times: Seq<Option<Timestamp>>,
    target: Timestamp,
    split: int,
    r: Option<usize>,
) -> bool {
    if times.len() == 0 {
        r is None
    } else if split == 0 {
        r == Some(0usize)
    } else if split == times.len() {
        r == Some((times.len() - 1) as usize)
    } else {
        match (times[split - 1], times[split]) {
            (Some(before), Some(after)) => r == Some(
                if distance(target, before) <= distance(after, target) {
                    (split - 1) as usize
                } else {
                    split as usize
                },
            ),
            _ => r is None,
        }
    }
}

/// How far two points in time lie apart, in nanoseconds.
pub open spec fn distance(t: Timestamp, from: Timestamp) -> int {
    let d = t.since(from);
    if d < 0 {
        -d
    } else {
        d
    }
}

/// Whether a line has a time and that is before another.
pub open spec fn is_earlier(t: Option<Timestamp>, target: Timestamp) -> bool {
    t matches Some(t) && t.lt(target)
}

/// The times of lines.
pub open spec fn times_of(sources: Entries, list: Seq<StoreID>) -> Seq<Option<Timestamp>> {
    list.map_values(|id: StoreID| time_of(sources, id))
}

/// Whether the lines that are earlier than a time come before all others.
pub open spec fn splits_at(
    times: Seq<Option<Timestamp>>,
    target: Timestamp,
    split: int,
) -> bool {
    &&& 0 <= split <= times.len()
    &&& forall|i: int| 0 <= i < split ==> is_earlier(#[trigger] times[i], target)
    &&& forall|i: int| split <= i < times.len() ==> !is_earlier(#[trigger] times[i], target)
}

/// Whether lines stand in an order in which those earlier than a time come first.
pub open spec fn is_split(times: Seq<Option<Timestamp>>, target: Timestamp) -> bool {
    forall|i: int, j: int|
        0 <= i < j < times.len() && is_earlier(#[trigger] times[j], target) ==> is_earlier(
            #[trigger] times[i],
            target,
        )
}

/// Whether a line to be scored is that at a place of a source.
pub open spec fn is_input_line<N: Fn(&str) -> String>(
    s: DataSourceVariant,
    i: int,
    normalize: N,
    line: InputLine,
) -> bool {
    &&& line.line_id.source_id == 0
    &&& line.line_id.line_number == i
    &&& line.line_id.timestamp_unix_ms == s.times()[i].unix_ms()
    &&& line.message@ == s.message_at(i)
    &&& exists|message: &str, key: String| #[trigger]
        call_ensures(normalize, (message,), key) && message@ == line.message@
            && line.template_key == Some(key)
    &&& line.source_file is None
    &&& line.filetype matches Some(f) && f@ == s.slug()
}

/// A line that is shown, with its scores.
pub open spec fn with_scores(
    shown: LogLine,
    scores: Sheets,
    sidecar: Sheets,
    id: StoreID,
) -> bool {
    let (score, unk, rare, scored) = score_map::line_scores(
        sidecar,
        id.source(),
        id.index() as int,
    );
    &&& shown.anomaly_score == score_map::line_scores(scores, id.source(), id.index() as int).0
    &&& shown.sidecar_anomaly_score == score
    &&& shown.sidecar_score_is_unk == unk
    &&& shown.sidecar_score_is_rare == rare
    &&& shown.sidecar_scored == scored
}

impl LogStore {
    /// The sources with their numbers, in the order in which they are shown.
    pub closed spec fn sources(&self) -> Entries {
        self.sources@
    }

    /// How often sources came or went or scores were set.
    pub closed spec fn structure_version(&self) -> u64 {
        self.sources_version
    }

    pub closed spec fn score_sheets(&self) -> Sheets {
        self.scores@
    }

    pub closed spec fn sidecar_sheets(&self) -> Sheets {
        self.sidecar_scores@
    }

    pub closed spec fn scoring(&self) -> Option<ScoringConfig> {
        self.sidecar_config
    }

    /// The sources that have a session in which explanations can be asked for.
    pub closed spec fn explained(&self) -> Set<u64> {
        self.explain_sessions@
    }

    /// Each source is well-formed and stands under its own number, and no number occurs
    /// twice.
    pub open spec fn wf(&self) -> bool {
        &&& source_map::keys_match(self.sources())
        &&& source_map::all_wf(self.sources())
    }

    /// Whether the times of all lines lie in the range of the calendar.
    pub open spec fn is_timed(&self) -> bool {
        forall|i: int| 0 <= i < self.sources().len() ==> (#[trigger] self.sources()[i]).1.is_timed()
    }

    /// Whether all lines can be shown.
    pub open spec fn is_searchable(&self) -> bool {
        forall|i: int|
            0 <= i < self.sources().len() ==> (#[trigger] self.sources()[i]).1.is_searchable()
    }

    /// Whether only the sources differ.
    pub open spec fn same_but_sources(&self, other: &Self) -> bool {
        &&& self.structure_version() == other.structure_version()
        &&& self.same_analysis(other)
    }

    /// Whether the scores, the settings for scoring and the sessions for explanations are
    /// the same.
    pub open spec fn same_analysis(&self, other: &Self) -> bool {
        &&& self.score_sheets() == other.score_sheets()
        &&& self.sidecar_sheets() == other.sidecar_sheets()
        &&& self.scoring() == other.scoring()
        &&& self.explained() == other.explained()
    }

    /// The source of a line.
    pub open spec fn source_of(&self, source_id: u64) -> Option<DataSourceVariant> {
        if source_map::has_key(self.sources(), source_id) {
            Some(self.sources()[source_map::place_of(self.sources(), source_id)].1)
        } else {
            None
        }
    }

    /// A store without sources.
    pub fn new() -> (r: Self)
        ensures
            r.wf(),
            r.sources() == Entries::empty(),
            r.structure_version() == 1,
            r.score_sheets() == Sheets::empty(),
            r.sidecar_sheets() == Sheets::empty(),
            r.scoring() is None,
            r.explained() == Set::<u64>::empty(),
    {
        LogStore {
            sources: SourceMap::new(),
            sources_version: 1,
            scores: ScoreMap::new(),
            sidecar_scores: ScoreMap::new(),
            sidecar_config: None,
            explain_sessions: HashSet::new(),
        }
    }

    /// How many sources there are.
    pub fn source_count(&self) -> (r: usize)
        ensures
            r == self.sources().len(),
    {
        self.sources.len()
    }

    /// The source at a place.
    pub fn source_at(&self, index: usize) -> (r: &DataSourceVariant)
        requires
            index < self.sources().len(),
        ensures
            *r == self.sources()[index as int].1,
    {
        self.sources.at(index)
    }

    /// The place of the source with a number.
    pub fn source_place(&self, source_id: u64) -> (r: Option<usize>)
        ensures
            r is Some == source_map::has_key(self.sources(), source_id),
            r matches Some(i) ==> i == source_map::place_of(self.sources(), source_id) && i
                < self.sources().len(),
    {
        self.sources.place(source_id)
    }

    /// The source at a place, to be changed.
    pub fn source_at_mut(&mut self, index: usize) -> (r: &mut DataSourceVariant)
        requires
            index < old(self).sources().len(),
        ensures
            *r == old(self).sources()[index as int].1,
            final(self).sources() == old(self).sources().update(
                index as int,
                (old(self).sources()[index as int].0, *final(r)),
            ),
            final(self).same_but_sources(old(self)),
    {
        self.sources.at_mut(index)
    }

    /// Decides whether the times of all lines lie in the range of the calendar.
    pub fn check_timed(&self) -> (r: bool)
        ensures
            r == self.is_timed(),
    {
        let mut i: usize = 0;
        while i < self.sources.len()
            invariant
                i <= self.sources().len(),
                forall|k: int| 0 <= k < i ==> (#[trigger] self.sources()[k]).1.is_timed(),
            decreases self.sources().len() - i,
        {
            if !self.sources.at(i).check_timed() {
                assert(!self.sources()[i as int].1.is_timed());
                return false;
            }
            i += 1;
        }
        true
    }

    /// Decides whether the times of all lines would lie in the range of the calendar under
    /// other settings.
    pub fn check_timed_with(&self, config: &GlobalFileConfig) -> (r: bool)
        ensures
            r == forall|i: int|
                0 <= i < self.sources().len() ==> (#[trigger] self.sources()[i]).1.timed_with(
                    *config,
                ),
    {
        let mut i: usize = 0;
        while i < self.sources.len()
            invariant
                i <= self.sources().len(),
                forall|k: int|
                    0 <= k < i ==> (#[trigger] self.sources()[k]).1.timed_with(*config),
            decreases self.sources().len() - i,
        {
            if !self.sources.at(i).check_timed_with(config) {
                assert(!self.sources()[i as int].1.timed_with(*config));
                return false;
            }
            i += 1;
        }
        true
    }

    /// Decides whether all lines can be shown.
    pub fn check_searchable(&self) -> (r: bool)
        ensures
            r == self.is_searchable(),
    {
        let mut i: usize = 0;
        while i < self.sources.len()
            invariant
                i <= self.sources().len(),
                forall|k: int| 0 <= k < i ==> (#[trigger] self.sources()[k]).1.is_searchable(),
            decreases self.sources().len() - i,
        {
            if !self.sources.at(i).check_searchable() {
                assert(!self.sources()[i as int].1.is_searchable());
                return false;
            }
            i += 1;
        }
        true
    }

    /// Adds a source.
    pub fn add_source(&mut self, variant: DataSourceVariant)
        requires
            old(self).wf(),
            variant.wf(),
        ensures
            final(self).wf(),
            final(self).sources() == source_map::with_entry(
                old(self).sources(),
                variant.id(),
                variant,
            ),
            final(self).structure_version() == source::bumped(old(self).structure_version()),
            final(self).same_analysis(old(self)),
    {
        self.sources.insert(variant);
        self.sources_version = self.sources_version.wrapping_add(1);
    }

    /// Takes a source out, with its scores and its session for explanations, and gives its
    /// path. Nothing of it is found any more; the other sources keep their order and all
    /// that is known of them.
    pub fn remove_source(&mut self, source_id: u64) -> (r: Option<String>)
        requires
            old(self).wf(),
        ensures
            final(self).wf(),
            final(self).sources() == source_map::without_key(old(self).sources(), source_id),
            match old(self).source_of(source_id) {
                Some(s) => {
                    &&& r matches Some(path) && path@ == s.path()
                    &&& final(self).structure_version() == source::bumped(
                        old(self).structure_version(),
                    )
                    &&& final(self).score_sheets() == old(self).score_sheets().remove(source_id)
                    &&& final(self).sidecar_sheets() == old(self).sidecar_sheets().remove(
                        source_id,
                    )
                    &&& final(self).explained() == old(self).explained().remove(source_id)
                    &&& final(self).scoring() == old(self).scoring()
                    &&& final(self).sources() == old(self).sources().remove(
                        source_map::place_of(old(self).sources(), source_id),
                    )
                },
                None => {
                    &&& r is None
                    &&& final(self).sources() == old(self).sources()
                    &&& final(self).same_but_sources(old(self))
                },
            },
            final(self).source_of(source_id) is None,
            forall|other: u64|
                other != source_id ==> #[trigger] final(self).source_of(other) == old(
                    self,
                ).source_of(other),
    {
        broadcast use vstd::std_specs::hash::group_hash_axioms;

        proof {
            source_map::removed_source_is_gone(self.sources(), source_id);
            source_map::lemma_place(self.sources(), source_id);
        }
        match self.sources.remove(source_id) {
            Some(removed) => {
                let path = removed.file_path().clone();
                self.scores.remove(source_id);
                self.sidecar_scores.remove(source_id);
                self.explain_sessions.remove(&source_id);
                self.sources_version = self.sources_version.wrapping_add(1);
                Some(path)
            },
            None => None,
        }
    }

    /// Decides whether a file is in the store.
    ///
    /// The canonical paths are `None` where the file system does not tell them.
    pub fn contains_file(
        &self,
        path: &String,
        canonical: &Option<String>,
        source_canonical: &Vec<Option<String>>,
    ) -> (r: bool)
        requires
            source_canonical@.len() == self.sources().len(),
        ensures
            r == exists|i: int|
                0 <= i < self.sources().len() && names_file(
                    path@,
                    crate::text::opt_text(*canonical),
                    (#[trigger] self.sources()[i]).1.path(),
                    crate::text::opt_text(source_canonical@[i]),
                ),
    {
        let mut i: usize = 0;
        while i < self.sources.len()
            invariant
                i <= self.sources().len(),
                source_canonical@.len() == self.sources().len(),
                forall|k: int|
                    0 <= k < i ==> !names_file(
                        path@,
                        crate::text::opt_text(*canonical),
                        (#[trigger] self.sources()[k]).1.path(),
                        crate::text::opt_text(source_canonical@[k]),
                    ),
            decreases self.sources().len() - i,
        {
            let same = match (canonical, &source_canonical[i]) {
                (Some(a), Some(b)) => *a == *b,
                _ => *self.sources.at(i).file_path() == *path,
            };
            if same {
                assert(names_file(
                    path@,
                    crate::text::opt_text(*canonical),
                    self.sources()[i as int].1.path(),
                    crate::text::opt_text(source_canonical@[i as int]),
                ));
                return true;
            }
            i += 1;
        }
        false
    }

    /// The version of the store.
    pub fn version(&self) -> (r: StoreVersion)
        ensures
            r.sources == self.structure_version(),
            r.lines == version_sum(self.sources()) % 0x1_0000_0000_0000_0000,
    {
        let mut lines: u64 = 0;
        let mut i: usize = 0;
        while i < self.sources.len()
            invariant
                i <= self.sources().len(),
                lines == version_sum(self.sources().take(i as int)) % 0x1_0000_0000_0000_0000,
            decreases self.sources().len() - i,
        {
            assert(self.sources().take(i + 1).drop_last() =~= self.sources().take(i as int));
            lines = lines.wrapping_add(self.sources.at(i).version());
            i += 1;
        }
        assert(self.sources().take(i as int) =~= self.sources());
        StoreVersion { sources: self.sources_version, lines }
    }

    /// How many lines there are.
    pub fn total_lines(&self) -> (r: usize)
        ensures
            r == line_sum(self.sources()) % (usize::MAX + 1) as nat,
            line_sum(self.sources()) <= usize::MAX ==> r == line_sum(self.sources()),
    {
        let mut lines: usize = 0;
        let mut i: usize = 0;
        proof {
            vstd::arithmetic::div_mod::lemma_small_mod(0, (usize::MAX + 1) as nat);
        }
        while i < self.sources.len()
            invariant
                i <= self.sources().len(),
                lines == line_sum(self.sources().take(i as int)) % (usize::MAX + 1) as nat,
            decreases self.sources().len() - i,
        {
            assert(self.sources().take(i + 1).drop_last() =~= self.sources().take(i as int));
            let ghost sum = line_sum(self.sources().take(i as int));
            let n: usize = self.sources.at(i).len();
            proof {
                vstd::arithmetic::div_mod::lemma_add_mod_noop(
                    sum as int,
                    n as int,
                    usize::MAX + 1,
                );
                vstd::arithmetic::div_mod::lemma_small_mod(n as nat, (usize::MAX + 1) as nat);
            }
            lines = lines.wrapping_add(n);
            i += 1;
        }
        assert(self.sources().take(i as int) =~= self.sources());
        proof {
            if line_sum(self.sources()) <= usize::MAX {
                vstd::arithmetic::div_mod::lemma_small_mod(
                    line_sum(self.sources()),
                    (usize::MAX + 1) as nat,
                );
            }
        }
        lines
    }

    /// The name of the file of a line.
    pub fn get_source_name(&self, id: &StoreID) -> (r: Option<String>)
        ensures
            crate::text::opt_text(r) == match self.source_of(id.source()) {
                Some(s) => Some(s.name()),
                None => None,
            },
    {
        match self.sources.place(id.source_id()) {
            Some(i) => Some(self.sources.at(i).file_name().clone()),
            None => None,
        }
    }

    /// The absolute path of the file of a line.
    ///
    /// `absolute` makes a path absolute; where it cannot, the path is given as it is.
    pub fn get_source_path<A: Fn(&String) -> Option<String>>(
        &self,
        id: &StoreID,
        absolute: &A,
    ) -> (r: Option<String>)
        requires
            forall|p: &String| #[trigger] call_requires(*absolute, (p,)),
        ensures
            match self.source_of(id.source()) {
                Some(s) => {
                    &&& r matches Some(path)
                    &&& exists|p: &String, a: Option<String>|
                        {
                            &&& p@ == s.path()
                            &&& #[trigger] call_ensures(*absolute, (p,), a)
                            &&& path@ == match a {
                                Some(t) => t@,
                                None => p@,
                            }
                        }
                },
                None => r is None,
            },
    {
        match self.sources.place(id.source_id()) {
            Some(i) => {
                let path = self.sources.at(i).file_path();
                let made = absolute(path);
                assert(call_ensures(*absolute, (path,), made));
                match made {
                    Some(a) => Some(a),
                    None => Some(path.clone()),
                }
            },
            None => None,
        }
    }

    /// The names of all files, with the numbers of the sources.
    pub fn get_source_filenames(&self) -> (r: Vec<(u64, String)>)
        ensures
            r@.len() == self.sources().len(),
            forall|i: int|
                0 <= i < r@.len() ==> (#[trigger] r@[i]).0 == self.sources()[i].1.id()
                    && r@[i].1@ == self.sources()[i].1.name(),
    {
        let mut out: Vec<(u64, String)> = Vec::new();
        let mut i: usize = 0;
        while i < self.sources.len()
            invariant
                i <= self.sources().len(),
                out@.len() == i,
                forall|k: int|
                    0 <= k < i ==> (#[trigger] out@[k]).0 == self.sources()[k].1.id()
                        && out@[k].1@ == self.sources()[k].1.name(),
            decreases self.sources().len() - i,
        {
            let s = self.sources.at(i);
            out.push((s.source_id(), s.file_name().clone()));
            i += 1;
        }
        out
    }

    /// The paths of all files.
    pub fn get_source_file_paths(&self) -> (r: Vec<String>)
        ensures
            r@.len() == self.sources().len(),
            forall|i: int|
                0 <= i < r@.len() ==> (#[trigger] r@[i])@ == self.sources()[i].1.path(),
    {
        let mut out: Vec<String> = Vec::new();
        let mut i: usize = 0;
        while i < self.sources.len()
            invariant
                i <= self.sources().len(),
                out@.len() == i,
                forall|k: int|
                    0 <= k < i ==> (#[trigger] out@[k])@ == self.sources()[k].1.path(),
            decreases self.sources().len() - i,
        {
            out.push(self.sources.at(i).file_path().clone());
            i += 1;
        }
        out
    }

    /// Sets the scores of the lines of a source.
    pub fn set_scores(&mut self, source_id: u64, scores: &[ScoreBits])
        ensures
            final(self).sources() == old(self).sources(),
            final(self).structure_version() == source::bumped(old(self).structure_version()),
            final(self).score_sheets() == old(self).score_sheets().insert(
                source_id,
                ScoresView { scores: scores@, ..ScoresView::none() },
            ),
            final(self).sidecar_sheets() == old(self).sidecar_sheets(),
            final(self).scoring() == old(self).scoring(),
            final(self).explained() == old(self).explained(),
    {
        let mut s = ScoreStore::new();
        s.set_all(scores);
        self.scores.insert(source_id, s);
        self.sources_version = self.sources_version.wrapping_add(1);
    }

    /// The score of a line.
    pub fn get_score(&self, source_id: u64, line_index: usize) -> (r: ScoreBits)
        ensures
            r == score_map::line_scores(self.score_sheets(), source_id, line_index as int).0,
    {
        self.scores.line(source_id, line_index).0
    }

    /// Sets the scores that the scoring service gave the lines of a source.
    pub fn set_sidecar_scores(&mut self, source_id: u64, scores: &[ScoreBits])
        ensures
            final(self).sources() == old(self).sources(),
            final(self).structure_version() == source::bumped(old(self).structure_version()),
            final(self).sidecar_sheets() == old(self).sidecar_sheets().insert(
                source_id,
                ScoresView { scores: scores@, ..ScoresView::none() },
            ),
            final(self).score_sheets() == old(self).score_sheets(),
            final(self).scoring() == old(self).scoring(),
            final(self).explained() == old(self).explained(),
    {
        let mut s = ScoreStore::new();
        s.set_all(scores);
        self.sidecar_scores.insert(source_id, s);
        self.sources_version = self.sources_version.wrapping_add(1);
    }

    /// Sets the scores and flags that the scoring service gave the lines of a source.
    pub fn set_sidecar_scores_with_unk(
        &mut self,
        source_id: u64,
        scores: &[ScoreBits],
        unk_flags: &[bool],
        rare_flags: &[bool],
        scored_flags: &[bool],
    )
        ensures
            final(self).sources() == old(self).sources(),
            final(self).structure_version() == source::bumped(old(self).structure_version()),
            final(self).sidecar_sheets() == old(self).sidecar_sheets().insert(
                source_id,
                ScoresView {
                    scores: scores@,
                    unk_flags: unk_flags@,
                    rare_flags: rare_flags@,
                    scored_flags: scored_flags@,
                },
            ),
            final(self).score_sheets() == old(self).score_sheets(),
            final(self).scoring() == old(self).scoring(),
            final(self).explained() == old(self).explained(),
    {
        let mut s = ScoreStore::new();
        s.set_all_with_unk(scores, unk_flags, rare_flags, scored_flags);
        self.sidecar_scores.insert(source_id, s);
        self.sources_version = self.sources_version.wrapping_add(1);
    }

    /// The score that the scoring service gave a line.
    pub fn get_sidecar_score(&self, source_id: u64, line_index: usize) -> (r: ScoreBits)
        ensures
            r == score_map::line_scores(self.sidecar_sheets(), source_id, line_index as int).0,
    {
        self.sidecar_scores.line(source_id, line_index).0
    }

    /// Whether a line was unknown to the scoring service.
    pub fn get_sidecar_unk(&self, source_id: u64, line_index: usize) -> (r: bool)
        ensures
            r == score_map::line_scores(self.sidecar_sheets(), source_id, line_index as int).1,
    {
        self.sidecar_scores.line(source_id, line_index).1
    }

    /// Whether a line was rare for the scoring service.
    pub fn get_sidecar_rare(&self, source_id: u64, line_index: usize) -> (r: bool)
        ensures
            r == score_map::line_scores(self.sidecar_sheets(), source_id, line_index as int).2,
    {
        self.sidecar_scores.line(source_id, line_index).2
    }

    /// Whether the scoring service scored a line.
    pub fn get_sidecar_scored(&self, source_id: u64, line_index: usize) -> (r: bool)
        ensures
            r == score_map::line_scores(self.sidecar_sheets(), source_id, line_index as int).3,
    {
        self.sidecar_scores.line(source_id, line_index).3
    }

    /// Decides whether the scoring service scored a source.
    pub fn has_sidecar_scores(&self, source_id: u64) -> (r: bool)
        ensures
            r == self.sidecar_sheets().contains_key(source_id),
    {
        self.sidecar_scores.contains(source_id)
    }

    /// Sets whether and how a scoring service is used.
    pub fn set_sidecar_config(&mut self, config: ScoringConfig)
        ensures
            final(self).scoring() == Some(config),
            final(self).sources() == old(self).sources(),
            final(self).structure_version() == old(self).structure_version(),
            final(self).score_sheets() == old(self).score_sheets(),
            final(self).sidecar_sheets() == old(self).sidecar_sheets(),
            final(self).explained() == old(self).explained(),
    {
        self.sidecar_config = Some(config);
    }

    /// Whether and how a scoring service is used.
    pub fn sidecar_config(&self) -> (r: Option<ScoringConfig>)
        ensures
            r == self.scoring(),
    {
        match &self.sidecar_config {
            Some(c) => Some(c.clone()),
            None => None,
        }
    }

    /// Notes that a source has a session in which explanations can be asked for, in place
    /// of an earlier one.
    pub fn set_explain_session(&mut self, source_id: u64)
        ensures
            final(self).explained() == old(self).explained().insert(source_id),
            final(self).sources() == old(self).sources(),
            final(self).structure_version() == old(self).structure_version(),
            final(self).score_sheets() == old(self).score_sheets(),
            final(self).sidecar_sheets() == old(self).sidecar_sheets(),
            final(self).scoring() == old(self).scoring(),
    {
        broadcast use vstd::std_specs::hash::group_hash_axioms;

        self.explain_sessions.insert(source_id);
    }

    fn has_explain_session(&self, source_id: u64) -> (r: bool)
        ensures
            r == self.explained().contains(source_id),
    {
        broadcast use vstd::std_specs::hash::group_hash_axioms;

        self.explain_sessions.contains(&source_id)
    }

    /// Whether the explanation of a line is asked for; `accepted` says whether the session
    /// of the source took the request, and counts only where there is one.
    pub fn request_explanation(&self, source_id: u64, accepted: bool) -> (r: bool)
        ensures
            r == (self.explained().contains(source_id) && accepted),
    {
        self.has_explain_session(source_id) && accepted
    }

    /// The explanation that came in the session of a source; none where there is no session.
    pub fn poll_explanation(&self, source_id: u64, received: Received) -> (r: Option<
        ExplainResult,
    >)
        ensures
            r == match received {
                Received::Result(e) if self.explained().contains(source_id) => Some(e),
                _ => None,
            },
    {
        if self.has_explain_session(source_id) {
            match received {
                Received::Result(e) => Some(e),
                _ => None,
            }
        } else {
            None
        }
    }

    /// Whether an explanation has come in the session of a source; without a session none
    /// will.
    pub fn poll_explain_status(&self, source_id: u64, received: Received) -> (r:
        ExplainPollStatus)
        ensures
            r == if self.explained().contains(source_id) {
                explain::status_of(received)
            } else {
                ExplainPollStatus::Dead
            },
    {
        if self.has_explain_session(source_id) {
            explain::poll_status(received)
        } else {
            ExplainPollStatus::Dead
        }
    }

    /// Marks a line, in place of an earlier mark.
    pub fn set_bookmark(&mut self, id: &StoreID, name: String)
        requires
            old(self).wf(),
        ensures
            final(self).wf(),
            final(self).same_but_sources(old(self)),
            match old(self).source_of(id.source()) {
                Some(s) => {
                    let p = source_map::place_of(old(self).sources(), id.source());
                    &&& final(self).sources()[p].1.remarked(
                        &s,
                        s.marks().insert(
                            id.index(),
                            (Bookmark { line_index: id.index(), name }),
                        ),
                    )
                    &&& final(self).sources() == old(self).sources().update(
                        p,
                        (id.source(), final(self).sources()[p].1),
                    )
                },
                None => final(self).sources() == old(self).sources(),
            },
    {
        if let Some(i) = self.sources.place(id.source_id()) {
            self.sources.at_mut(i).set_bookmark(id.line_index_within_source(), name);
        }
    }

    /// Takes the mark of a line away, and gives it.
    pub fn remove_bookmark(&mut self, id: &StoreID) -> (r: Option<Bookmark>)
        requires
            old(self).wf(),
        ensures
            final(self).wf(),
            final(self).same_but_sources(old(self)),
            match old(self).source_of(id.source()) {
                Some(s) => {
                    let p = source_map::place_of(old(self).sources(), id.source());
                    &&& r == source::mark_at(s.marks(), id.index())
                    &&& final(self).sources()[p].1.remarked(&s, s.marks().remove(id.index()))
                    &&& final(self).sources() == old(self).sources().update(
                        p,
                        (id.source(), final(self).sources()[p].1),
                    )
                },
                None => r is None && final(self).sources() == old(self).sources(),
            },
    {
        match self.sources.place(id.source_id()) {
            Some(i) => self.sources.at_mut(i).remove_bookmark(id.line_index_within_source()),
            None => None,
        }
    }

    /// Decides whether a line is marked.
    pub fn has_bookmark(&self, id: &StoreID) -> (r: bool)
        ensures
            r == (self.source_of(id.source()) matches Some(s) && s.marks().contains_key(
                id.index(),
            )),
    {
        match self.sources.place(id.source_id()) {
            Some(i) => self.sources.at(i).has_bookmark(id.line_index_within_source()),
            None => false,
        }
    }

    /// The mark of a line.
    pub fn get_bookmark(&self, id: &StoreID) -> (r: Option<BookmarkData>)
        ensures
            r == match self.source_of(id.source()) {
                Some(s) => match source::mark_at(s.marks(), id.index()) {
                    Some(b) => Some(BookmarkData { store_id: *id, name: b.name }),
                    None => None,
                },
                None => None,
            },
    {
        match self.sources.place(id.source_id()) {
            Some(i) => match self.sources.at(i).get_bookmark(id.line_index_within_source()) {
                Some(b) => Some(BookmarkData { store_id: *id, name: b.name }),
                None => None,
            },
            None => None,
        }
    }

    /// All marks, source by source.
    pub fn get_all_bookmarks(&self) -> (r: Vec<BookmarkData>)
        requires
            self.wf(),
        ensures
            are_all_marks(self.sources(), r@),
    {
        let mut out: Vec<BookmarkData> = Vec::new();
        let mut i: usize = 0;
        assert(self.sources().take(0) =~= Seq::empty());
        while i < self.sources.len()
            invariant
                i <= self.sources().len(),
                self.wf(),
                are_all_marks(self.sources().take(i as int), out@),
            decreases self.sources().len() - i,
        {
            let ghost before = out@;
            let ghost done = self.sources().take(i as int);
            let source = self.sources.at(i);
            assert(self.sources()[i as int].1.wf());
            let source_id: u64 = source.source_id();
            let list = source.get_bookmarks();
            let mut k: usize = 0;
            while k < list.len()
                invariant
                    k <= list@.len(),
                    out@.len() == before.len() + k,
                    out@.take(before.len() as int) == before,
                    forall|j: int|
                        0 <= j < k ==> (#[trigger] out@[before.len() + j]).store_id.source()
                            == source_id && out@[before.len() + j].store_id.index()
                            == list@[j].line_index && out@[before.len() + j].name
                            == list@[j].name,
                decreases list.len() - k,
            {
                let ghost o = out@;
                out.push(
                    BookmarkData {
                        store_id: StoreID::make(source_id, list[k].line_index),
                        name: list[k].name.clone(),
                    },
                );
                assert(out@.take(before.len() as int) =~= o.take(before.len() as int));
                assert forall|j: int| 0 <= j < k + 1 implies (
                #[trigger] out@[before.len() + j]).store_id.source() == source_id && out@[before.len()
                    + j].store_id.index() == list@[j].line_index && out@[before.len() + j].name
                    == list@[j].name by {
                    if j < k {
                        assert(out@[before.len() + j] == o[before.len() + j]);
                    }
                }
                k += 1;
            }
            proof {
                let now = self.sources().take(i + 1);
                assert(now.drop_last() =~= done);
                let tail = out@.skip(out@.len() - list@.len());
                assert forall|j: int| 0 <= j < list@.len() implies (
                #[trigger] tail[j]).store_id.source() == source_id && tail[j].store_id.index()
                    == list@[j].line_index && tail[j].name == list@[j].name by {
                    assert(tail[j] == out@[before.len() + j]);
                }
                assert(are_marks_of(source_id, list@, tail));
                assert(source::is_bookmark_list(now.last().1.marks(), list@));
                assert(out@.take(out@.len() - list@.len()) =~= before);
            }
            i += 1;
        }
        assert(self.sources().take(i as int) =~= self.sources());
        out
    }

    /// Takes the settings for each kind of file over, and puts the lines of all sources in
    /// the order of the times that these give.
    pub fn rebuild_all_time_indices(&mut self, config: &GlobalFileConfig)
        requires
            old(self).wf(),
            forall|i: int|
                0 <= i < old(self).sources().len() ==> (
                #[trigger] old(self).sources()[i]).1.timed_with(*config),
        ensures
            final(self).wf(),
            final(self).same_but_sources(old(self)),
            final(self).sources().len() == old(self).sources().len(),
            forall|i: int|
                0 <= i < old(self).sources().len() ==> {
                    &&& (#[trigger] final(self).sources()[i]).0 == old(self).sources()[i].0
                    &&& final(self).sources()[i].1.reordered(&old(self).sources()[i].1, *config)
                },
    {
        let ghost before = self.sources();
        let mut i: usize = 0;
        while i < self.sources.len()
            invariant
                i <= self.sources().len(),
                before == old(self).sources(),
                old(self).wf(),
                self.same_but_sources(old(self)),
                self.sources().len() == before.len(),
                forall|k: int|
                    0 <= k < before.len() ==> (#[trigger] before[k]).1.timed_with(*config),
                forall|k: int|
                    0 <= k < i ==> {
                        &&& (#[trigger] self.sources()[k]).0 == before[k].0
                        &&& self.sources()[k].1.reordered(&before[k].1, *config)
                    },
                forall|k: int| i <= k < before.len() ==> #[trigger] self.sources()[k] == before[k],
            decreases self.sources().len() - i,
        {
            assert(self.sources()[i as int] == before[i as int]);
            assert(before[i as int].1.timed_with(*config));
            assert(before[i as int].1.wf());
            self.sources.at_mut(i).apply_file_config_and_rebuild(config);
            i += 1;
        }
        assert forall|k: int| 0 <= k < self.sources().len() implies (
        #[trigger] self.sources()[k]).1.wf() && self.sources()[k].1.id() == before[k].1.id() by {
            assert(self.sources()[k].1.reordered(&before[k].1, *config));
        }
        assert(source_map::keys_match(before));
    }

    /// Ends a frame in which the user may have moved times of sources or asked for lines:
    /// where times changed, the lines of the source are put in order anew. Gives whether
    /// anything changed and the last line that was asked for.
    pub fn finish_frames(&mut self, frames: &Vec<(bool, Option<usize>)>) -> (r: (
        bool,
        Option<StoreID>,
    ))
        requires
            old(self).wf(),
            frames@.len() == old(self).sources().len(),
            forall|i: int|
                0 <= i < frames@.len() && (#[trigger] frames@[i]).0 ==> old(
                    self,
                ).sources()[i].1.is_timed(),
        ensures
            final(self).wf(),
            final(self).same_but_sources(old(self)),
            r.0 == exists|i: int| 0 <= i < frames@.len() && (#[trigger] frames@[i]).0,
            match last_jump(frames@) {
                Some((place, line)) => {
                    &&& r.1 matches Some(id) && id.source() == old(self).sources()[place].0
                        && id.index() == line
                },
                None => r.1 is None,
            },
            final(self).sources().len() == old(self).sources().len(),
            forall|i: int|
                0 <= i < frames@.len() ==> frame_ended(
                    old(self).sources()[i],
                    #[trigger] final(self).sources()[i],
                    frames@[i].0,
                ),
    {
        let ghost before = self.sources();
        let mut changed = false;
        let mut jump: Option<StoreID> = None;
        let mut i: usize = 0;
        assert(frames@.take(0) =~= Seq::empty());
        while i < self.sources.len()
            invariant
                i <= self.sources().len(),
                before == old(self).sources(),
                old(self).wf(),
                self.same_but_sources(old(self)),
                self.sources().len() == before.len(),
                frames@.len() == before.len(),
                forall|k: int|
                    0 <= k < frames@.len() && (#[trigger] frames@[k]).0 ==> before[k].1.is_timed(),
                forall|k: int|
                    0 <= k < i ==> frame_ended(
                        before[k],
                        #[trigger] self.sources()[k],
                        frames@[k].0,
                    ),
                forall|k: int| i <= k < before.len() ==> #[trigger] self.sources()[k] == before[k],
                changed == exists|k: int| 0 <= k < i && (#[trigger] frames@[k]).0,
                match last_jump(frames@.take(i as int)) {
                    Some((place, line)) => {
                        &&& 0 <= place < i
                        &&& jump matches Some(id) && id.source() == before[place].0 && id.index()
                            == line
                    },
                    None => jump is None,
                },
            decreases self.sources().len() - i,
        {
            assert(self.sources()[i as int] == before[i as int]);
            assert(before[i as int].1.wf());
            assert(before[i as int].0 == before[i as int].1.id());
            assert(frames@.take(i + 1).drop_last() =~= frames@.take(i as int));
            let (c, line) = frames[i];
            assert(frames@[i as int].0 == c);
            let (c, j) = self.sources.at_mut(i).finish_frame(c, line);
            if c {
                changed = true;
            }
            if j.is_some() {
                jump = j;
            }
            i += 1;
        }
        assert(frames@.take(i as int) =~= frames@);
        assert forall|k: int| 0 <= k < self.sources().len() implies (
        #[trigger] self.sources()[k]).1.wf() && self.sources()[k].1.id() == before[k].1.id()
            && self.sources()[k].0 == before[k].0 by {
            assert(frame_ended(before[k], self.sources()[k], frames@[k].0));
        }
        assert(source_map::keys_match(before));
        (changed, jump)
    }

    /// The time of a line.
    pub fn adjusted_timestamp(&self, id: &StoreID) -> (r: Option<Timestamp>)
        requires
            self.is_timed(),
        ensures
            r == time_of(self.sources(), *id),
            r matches Some(t) ==> t.valid(),
    {
        match self.sources.place(id.source_id()) {
            Some(i) => {
                assert(self.sources()[i as int].1.is_timed());
                self.sources.at(i).adjusted_timestamp(id.line_index_within_source())
            },
            None => None,
        }
    }

    /// Merges lists of lines by time; lines without a time are left out. `None` where the
    /// work was cancelled.
    pub fn merge_sorted_sources<C: Fn() -> bool>(
        &self,
        lists: &Vec<Vec<StoreID>>,
        should_cancel: &C,
    ) -> (r: Option<Vec<StoreID>>)
        requires
            self.is_timed(),
            call_requires(*should_cancel, ()),
        ensures
            r matches Some(merged) ==> merged@ == merged_ids(self.sources(), id_lists(lists@)),
            r is None ==> !all_empty(lists@) && call_ensures(*should_cancel, (), true),
            r is Some && !all_empty(lists@) ==> call_ensures(*should_cancel, (), false),
    {
        let ghost all = id_lists(lists@);
        let mut timed: Vec<Vec<TimedId>> = Vec::new();
        let mut i: usize = 0;
        while i < lists.len()
            invariant
                i <= lists@.len(),
                self.is_timed(),
                call_requires(*should_cancel, ()),
                all == id_lists(lists@),
                timed@.len() == i,
                kway::contents(timed@) == timed_lists(self.sources(), all).take(i as int),
                forall|j: int|
                    0 <= j < i && (#[trigger] lists@[j])@.len() > 0 ==> call_ensures(
                        *should_cancel,
                        (),
                        false,
                    ),
            decreases lists.len() - i,
        {
            let mut one: Vec<TimedId> = Vec::new();
            let mut k: usize = 0;
            while k < lists[i].len()
                invariant
                    i < lists@.len(),
                    k <= lists@[i as int]@.len(),
                    self.is_timed(),
                    call_requires(*should_cancel, ()),
                    k > 0 ==> call_ensures(*should_cancel, (), false),
                    one@ == timed_ids(self.sources(), lists@[i as int]@.take(k as int)),
                decreases lists@[i as int]@.len() - k,
            {
                if should_cancel() {
                    assert(lists@[i as int]@.len() > 0);
                    return None;
                }
                let id = lists[i][k];
                assert(lists@[i as int]@.take(k + 1).drop_last() =~= lists@[i as int]@.take(
                    k as int,
                ));
                if let Some(t) = self.adjusted_timestamp(&id) {
                    one.push((t, id));
                }
                k += 1;
            }
            assert(lists@[i as int]@.take(k as int) =~= lists@[i as int]@);
            let ghost done = kway::contents(timed@);
            timed.push(one);
            proof {
                let now = kway::contents(timed@);
                let want = timed_lists(self.sources(), all).take(i + 1);
                assert forall|k: int| 0 <= k < now.len() implies now[k] == want[k] by {
                    if k < i {
                        assert(now[k] == done[k]);
                        assert(want[k] == timed_lists(self.sources(), all).take(i as int)[k]);
                    } else {
                        assert(all[k] == lists@[k]@);
                    }
                }
                assert(now =~= want);
            }
            i += 1;
        }
        assert(kway::contents(timed@) =~= timed_lists(self.sources(), all));
        proof {
            if all_empty(lists@) {
                let t = kway::contents(timed@);
                assert forall|i: int| 0 <= i < t.len() implies (#[trigger] t[i]).len() == 0 by {
                    assert(all[i] == lists@[i]@);
                    assert(t[i] == timed_ids(self.sources(), all[i]));
                }
                kway::lemma_nothing_to_merge(t);
            }
        }
        kway::merge_lists(&timed, should_cancel)
    }

    /// The lines for which a predicate on what a line shows and on its full detail answers
    /// yes, in the order of time; `None` where the search was cancelled.
    pub fn get_matching_ids<D, P, C>(&mut self, diff: &D, predicate: &P, should_cancel: &C) -> (r:
        Option<Vec<StoreID>>) where
        D: Fn(TimeSpan) -> String,
        P: Fn(&str, &str) -> bool,
        C: Fn() -> bool,

        requires
            old(self).wf(),
            old(self).is_timed(),
            old(self).is_searchable(),
            forall|d: TimeSpan| #[trigger] call_requires(*diff, (d,)),
            forall|a: &str, b: &str| #[trigger] call_requires(*predicate, (a, b)),
            call_requires(*should_cancel, ()),
        ensures
            r matches Some(ids) ==> exists|lists: Seq<Seq<StoreID>>|
                {
                    &&& #[trigger] are_found(
                        old(self).sources(),
                        final(self).sources(),
                        filetype::span_texts(*diff),
                        *predicate,
                        lists,
                    )
                    &&& ids@ == merged_ids(old(self).sources(), lists)
                },
            r is None ==> old(self).sources().len() > 0 && call_ensures(*should_cancel, (), true),
            r is Some && old(self).sources().len() > 0 ==> call_ensures(
                *should_cancel,
                (),
                false,
            ),
            final(self).wf(),
            final(self).is_timed(),
            final(self).is_searchable(),
            final(self).same_but_sources(old(self)),
            same_but_states(old(self).sources(), final(self).sources()),
    {
        let ghost before = self.sources();
        let mut lists: Vec<Vec<StoreID>> = Vec::new();
        let mut i: usize = 0;
        while i < self.sources.len()
            invariant
                i <= self.sources().len(),
                before == old(self).sources(),
                source_map::keys_match(before),
                source_map::all_wf(before),
                forall|k: int| 0 <= k < before.len() ==> (#[trigger] before[k]).1.is_timed(),
                forall|k: int| 0 <= k < before.len() ==> (#[trigger] before[k]).1.is_searchable(),
                self.same_but_sources(old(self)),
                same_but_states(before, self.sources()),
                lists@.len() == i,
                forall|k: int|
                    0 <= k < i ==> is_found(
                        before[k],
                        self.sources()[k],
                        filetype::span_texts(*diff),
                        *predicate,
                        #[trigger] id_lists(lists@)[k],
                    ),
                forall|k: int| i <= k < before.len() ==> #[trigger] self.sources()[k] == before[k],
                i > 0 ==> call_ensures(*should_cancel, (), false),
                forall|d: TimeSpan| #[trigger] call_requires(*diff, (d,)),
                forall|a: &str, b: &str| #[trigger] call_requires(*predicate, (a, b)),
                call_requires(*should_cancel, ()),
            decreases self.sources().len() - i,
        {
            if should_cancel() {
                proof {
                    lemma_same_but_states(before, self.sources());
                }
                return None;
            }
            let ghost now = self.sources();
            assert(self.sources()[i as int] == before[i as int]);
            assert(before[i as int].1.wf());
            assert(before[i as int].1.is_searchable());
            let source = self.sources.at_mut(i);
            let source_id: u64 = source.source_id();
            let found = source.filter_sorted_by_search(diff, predicate, should_cancel);
            assert(self.sources()[i as int].1.same_but_state(&before[i as int].1));
            assert(same_but_states(before, self.sources())) by {
                assert forall|k: int| 0 <= k < before.len() implies (
                #[trigger] self.sources()[k]).0 == before[k].0
                    && self.sources()[k].1.same_but_state(&before[k].1) by {
                    if k != i {
                        assert(self.sources()[k] == now[k]);
                    }
                }
            }
            match found {
                Some(places) => {
                    let mut ids: Vec<StoreID> = Vec::new();
                    let mut k: usize = 0;
                    while k < places.len()
                        invariant
                            k <= places@.len(),
                            ids@.len() == k,
                            forall|j: int|
                                0 <= j < k ==> (#[trigger] ids@[j]).source() == source_id
                                    && ids@[j].index() == places@[j],
                        decreases places.len() - k,
                    {
                        ids.push(StoreID::make(source_id, places[k]));
                        k += 1;
                    }
                    assert(ids_of(source_id, places@, ids@));
                    let ghost old_lists = id_lists(lists@);
                    lists.push(ids);
                    proof {
                        let all = id_lists(lists@);
                        assert(is_found(
                            before[i as int],
                            self.sources()[i as int],
                            filetype::span_texts(*diff),
                            *predicate,
                            ids@,
                        ));
                        assert forall|j: int| 0 <= j < i + 1 implies is_found(
                            before[j],
                            self.sources()[j],
                            filetype::span_texts(*diff),
                            *predicate,
                            #[trigger] all[j],
                        ) by {
                            if j < i {
                                assert(all[j] == old_lists[j]);
                                assert(self.sources()[j] == now[j]);
                            } else {
                                assert(all[j] == ids@);
                            }
                        }
                    }
                },
                None => {
                    proof {
                        lemma_same_but_states(before, self.sources());
                    }
                    return None;
                },
            }
            i += 1;
        }
        proof {
            lemma_same_but_states(before, self.sources());
            let all = id_lists(lists@);
            assert(are_found(
                before,
                self.sources(),
                filetype::span_texts(*diff),
                *predicate,
                all,
            ));
            lemma_same_times(before, self.sources(), all);
        }
        self.merge_sorted_sources(&lists, should_cancel)
    }

    /// The place in a list of the line that is closest to a time.
    ///
    /// The list stands in the order of time.
    pub fn find_closest_line_position_by_time(
        &self,
        filtered_indices: &Vec<StoreID>,
        target_time: Timestamp,
    ) -> (r: Option<usize>)
        requires
            self.is_timed(),
            target_time.valid(),
            is_split(times_of(self.sources(), filtered_indices@), target_time),
        ensures
            exists|split: int| #[trigger]
                splits_at(times_of(self.sources(), filtered_indices@), target_time, split)
                    && is_closest(
                    times_of(self.sources(), filtered_indices@),
                    target_time,
                    split,
                    r,
                ),
    {
        let ghost times = times_of(self.sources(), filtered_indices@);
        let mut low: usize = 0;
        let mut high: usize = filtered_indices.len();
        while low < high
            invariant
                low <= high <= filtered_indices@.len(),
                self.is_timed(),
                times == times_of(self.sources(), filtered_indices@),
                is_split(times, target_time),
                forall|i: int| 0 <= i < low ==> is_earlier(#[trigger] times[i], target_time),
                forall|i: int|
                    high <= i < times.len() ==> !is_earlier(#[trigger] times[i], target_time),
            decreases high - low,
        {
            let mid: usize = low + (high - low) / 2;
            let earlier = match self.adjusted_timestamp(&filtered_indices[mid]) {
                Some(t) => t.is_before(&target_time),
                None => false,
            };
            assert(earlier == is_earlier(times[mid as int], target_time));
            if earlier {
                low = mid + 1;
            } else {
                high = mid;
            }
        }
        assert(splits_at(times, target_time, low as int));
        let n: usize = filtered_indices.len();
        if n == 0 {
            return None;
        }
        if low == 0 {
            return Some(0);
        }
        if low >= n {
            return Some(n - 1);
        }
        match (
            self.adjusted_timestamp(&filtered_indices[low - 1]),
            self.adjusted_timestamp(&filtered_indices[low]),
        ) {
            (Some(before), Some(after)) => {
                let dist_before = time::signed_duration_since(target_time, before);
                let dist_after = time::signed_duration_since(after, target_time);
                if dist_before.is_not_longer(&dist_after) {
                    Some(low - 1)
                } else {
                    Some(low)
                }
            },
            _ => None,
        }
    }

    /// Shows a line, with its scores.
    pub fn get_by_id<D: Fn(TimeSpan) -> String>(&mut self, id: &StoreID, diff: &D) -> (r: Option<
        LogLine,
    >)
        requires
            old(self).wf(),
            old(self).source_of(id.source()) matches Some(s) ==> s.shows(id.index()),
            forall|d: TimeSpan| #[trigger] call_requires(*diff, (d,)),
        ensures
            r is Some == (old(self).source_of(id.source()) matches Some(s) && id.index()
                < s.count()),
            r matches Some(shown) ==> {
                &&& old(self).source_of(id.source()) matches Some(s) && s.is_shown(
                    id.index(),
                    filetype::span_texts(*diff),
                    shown,
                )
                &&& with_scores(
                    shown,
                    old(self).score_sheets(),
                    old(self).sidecar_sheets(),
                    *id,
                )
            },
            final(self).same_but_sources(old(self)),
            match old(self).source_of(id.source()) {
                Some(s) => {
                    let p = source_map::place_of(old(self).sources(), id.source());
                    &&& final(self).sources()[p].1.after_showing(&s, id.index())
                    &&& final(self).sources() == old(self).sources().update(
                        p,
                        (id.source(), final(self).sources()[p].1),
                    )
                },
                None => final(self).sources() == old(self).sources(),
            },
    {
        let source_id: u64 = id.source_id();
        let line_index: usize = id.line_index_within_source();
        match self.sources.place(source_id) {
            Some(i) => match self.sources.at_mut(i).get_log_line(line_index, diff) {
                Some(line) => {
                    let mut line = line;
                    line.anomaly_score = self.get_score(source_id, line_index);
                    let (score, unk, rare, scored) = self.sidecar_scores.line(
                        source_id,
                        line_index,
                    );
                    line.sidecar_anomaly_score = score;
                    line.sidecar_score_is_unk = unk;
                    line.sidecar_score_is_rare = rare;
                    line.sidecar_scored = scored;
                    Some(line)
                },
                None => None,
            },
            None => None,
        }
    }

    /// The lines of a source as the scoring service gets them; `normalize` makes messages
    /// that differ only in details alike.
    pub fn get_sidecar_input_lines_for_source<N: Fn(&str) -> String>(
        &self,
        source_id: u64,
        normalize: &N,
    ) -> (r: Option<Vec<InputLine>>)
        requires
            self.is_timed(),
            forall|m: &str| #[trigger] call_requires(*normalize, (m,)),
        ensures
            match self.source_of(source_id) {
                Some(s) => {
                    &&& r matches Some(lines) && lines@.len() == s.count() && forall|i: int|
                        0 <= i < lines@.len() ==> is_input_line(
                            s,
                            i,
                            *normalize,
                            #[trigger] lines@[i],
                        )
                },
                None => r is None,
            },
    {
        match self.sources.place(source_id) {
            Some(place) => {
                let source = self.sources.at(place);
                assert(self.sources()[place as int].1.is_timed());
                let slug = source.filetype_slug();
                let count: usize = source.len();
                let mut lines: Vec<InputLine> = Vec::new();
                let mut i: usize = 0;
                while i < count
                    invariant
                        i <= count,
                        count == source.count(),
                        source.is_timed(),
                        slug@ == source.slug(),
                        lines@.len() == i,
                        forall|m: &str| #[trigger] call_requires(*normalize, (m,)),
                        forall|k: int|
                            0 <= k < i ==> is_input_line(
                                *source,
                                k,
                                *normalize,
                                #[trigger] lines@[k],
                            ),
                    decreases count - i,
                {
                    if let Some((ms, message)) = source.get_sidecar_message(i) {
                        let m = message.as_str();
                        let key = normalize(m);
                        assert(call_ensures(*normalize, (m,), key));
                        let line = InputLine::new(
                            0,
                            i,
                            ms,
                            message.clone(),
                            Some(key),
                            None,
                            Some(String::from_str(slug)),
                        );
                        assert(is_input_line(*source, i as int, *normalize, line));
                        lines.push(line);
                    }
                    i += 1;
                }
                Some(lines)
            },
            None => None,
        }
    }
}

/// Whether sources differ only in their states, in no way that moves a time.
pub open spec fn same_but_states(before: Entries, after: Entries) -> bool {
    &&& after.len() == before.len()
    &&& forall|k: int|
        0 <= k < before.len() ==> (#[trigger] after[k]).0 == before[k].0
            && after[k].1.same_but_state(&before[k].1)
}

proof fn lemma_same_but_states(before: Entries, after: Entries)
    requires
        same_but_states(before, after),
        source_map::keys_match(before),
        source_map::all_wf(before),
        forall|k: int| 0 <= k < before.len() ==> (#[trigger] before[k]).1.is_timed(),
        forall|k: int| 0 <= k < before.len() ==> (#[trigger] before[k]).1.is_searchable(),
    ensures
        source_map::keys_match(after),
        source_map::all_wf(after),
        forall|k: int| 0 <= k < after.len() ==> (#[trigger] after[k]).1.is_timed(),
        forall|k: int| 0 <= k < after.len() ==> (#[trigger] after[k]).1.is_searchable(),
{
    assert forall|k: int| 0 <= k < after.len() implies {
        &&& (#[trigger] after[k]).1.wf()
        &&& after[k].1.is_timed()
        &&& after[k].1.is_searchable()
        &&& after[k].1.id() == before[k].1.id()
        &&& after[k].0 == before[k].0
    } by {
        assert(after[k].1.same_but_state(&before[k].1));
        assert(before[k].1.wf() && before[k].1.is_timed() && before[k].1.is_searchable());
    }
}

proof fn lemma_same_places(before: Entries, after: Entries, key: u64)
    requires
        after.len() == before.len(),
        forall|k: int| 0 <= k < before.len() ==> (#[trigger] after[k]).0 == before[k].0,
    ensures
        source_map::place_of(after, key) == source_map::place_of(before, key),
    decreases before.len(),
{
    if before.len() > 0 {
        assert(after[0].0 == before[0].0);
        if before[0].0 != key {
            assert forall|k: int| 0 <= k < before.drop_first().len() implies (
            #[trigger] after.drop_first()[k]).0 == before.drop_first()[k].0 by {
                assert(after[k + 1].0 == before[k + 1].0);
            }
            lemma_same_places(before.drop_first(), after.drop_first(), key);
        }
    }
}

proof fn lemma_same_timed_ids(before: Entries, after: Entries, list: Seq<StoreID>)
    requires
        same_but_states(before, after),
    ensures
        timed_ids(after, list) == timed_ids(before, list),
    decreases list.len(),
{
    if list.len() > 0 {
        lemma_same_timed_ids(before, after, list.drop_last());
        let id = list.last();
        lemma_same_places(before, after, id.source());
        source_map::lemma_place(before, id.source());
        if source_map::has_key(before, id.source()) {
            let p = source_map::place_of(before, id.source());
            assert(after[p].1.same_but_state(&before[p].1));
        }
    }
}

proof fn lemma_same_times(before: Entries, after: Entries, lists: Seq<Seq<StoreID>>)
    requires
        same_but_states(before, after),
    ensures
        merged_ids(after, lists) == merged_ids(before, lists),
{
    assert forall|i: int| 0 <= i < lists.len() implies timed_lists(after, lists)[i]
        == timed_lists(before, lists)[i] by {
        lemma_same_timed_ids(before, after, lists[i]);
    }
    assert(timed_lists(after, lists) =~= timed_lists(before, lists));
}

/// The contents of lists of lines.
pub open spec fn id_lists(lists: Seq<Vec<StoreID>>) -> Seq<Seq<StoreID>> {
    lists.map_values(|l: Vec<StoreID>| l@)
}

/// Whether no list holds a line.
pub open spec fn all_empty(lists: Seq<Vec<StoreID>>) -> bool {
    forall|i: int| 0 <= i < lists.len() ==> (#[trigger] lists[i])@.len() == 0
}

/// Lists of lines with their times, without those that have none.
pub open spec fn timed_lists(sources: Entries, lists: Seq<Seq<StoreID>>) -> Seq<Seq<TimedId>> {
    lists.map_values(|l: Seq<StoreID>| timed_ids(sources, l))
}

/// Lists of lines in one, by time.
pub open spec fn merged_ids(sources: Entries, lists: Seq<Seq<StoreID>>) -> Seq<StoreID> {
    kway::ids(kway::kway(timed_lists(sources, lists)))
}

/// Whether lines are those that a search of a source found.
pub open spec fn is_found<P: Fn(&str, &str) -> bool>(
    before: (u64, DataSourceVariant),
    after: (u64, DataSourceVariant),
    diff: filetype::SpanTexts,
    predicate: P,
    ids: Seq<StoreID>,
) -> bool {
    exists|places: Seq<usize>| #[trigger]
        ids_of(before.0, places, ids) && after.1.searched(&before.1, diff, predicate, places)
}

/// Whether lines are those that a search of all sources found, source by source.
pub open spec fn are_found<P: Fn(&str, &str) -> bool>(
    before: Entries,
    after: Entries,
    diff: filetype::SpanTexts,
    predicate: P,
    lists: Seq<Seq<StoreID>>,
) -> bool {
    &&& lists.len() == before.len()
    &&& forall|k: int|
        0 <= k < lists.len() ==> is_found(
            before[k],
            after[k],
            diff,
            predicate,
            #[trigger] lists[k],
        )
}

/// Whether a line comes before another: by time, and by its source and place where the
/// times are equal. A line that is not there comes after those that are.
pub open spec fn id_before(sources: Entries, a: StoreID, b: StoreID) -> bool {
    match (time_of(sources, a), time_of(sources, b)) {
        (Some(x), Some(y)) => x.lt(y) || (x == y && id_lt(a, b)),
        (Some(_), None) => true,
        (None, Some(_)) => false,
        (None, None) => id_lt(a, b),
    }
}

/// Whether a line comes before another by source and place.
pub open spec fn id_lt(a: StoreID, b: StoreID) -> bool {
    a.source() < b.source() || (a.source() == b.source() && a.index() < b.index())
}

impl StoreID {
    /// Compares lines by time, and by source and place where the times are equal.
    pub fn cmp(&self, other: &Self, store: &LogStore) -> (r: Ordering)
        requires
            store.is_timed(),
        ensures
            r == Ordering::Less <==> id_before(store.sources(), *self, *other),
            r == Ordering::Greater <==> id_before(store.sources(), *other, *self),
            r == Ordering::Equal <==> *self == *other,
    {
        proof {
            StoreID::lemma_parts_equal(*self, *other);
        }
        match (store.adjusted_timestamp(self), store.adjusted_timestamp(other)) {
            (Some(a), Some(b)) => {
                if a.is_before(&b) {
                    return Ordering::Less;
                }
                if b.is_before(&a) {
                    return Ordering::Greater;
                }
            },
            (Some(_), None) => {
                return Ordering::Less;
            },
            (None, Some(_)) => {
                return Ordering::Greater;
            },
            (None, None) => {},
        }
        if self.source_id() < other.source_id() {
            Ordering::Less
        } else if self.source_id() > other.source_id() {
            Ordering::Greater
        } else if self.line_index_within_source() < other.line_index_within_source() {
            Ordering::Less
        } else if self.line_index_within_source() > other.line_index_within_source() {
            Ordering::Greater
        } else {
            Ordering::Equal
        }
    }
}

/// The order of lines is a strict total order.
pub proof fn lines_are_totally_ordered(sources: Entries, a: StoreID, b: StoreID, c: StoreID)
    ensures
        !id_before(sources, a, a),
        a != b ==> id_before(sources, a, b) || id_before(sources, b, a),
        id_before(sources, a, b) && id_before(sources, b, c) ==> id_before(sources, a, c),
{
    StoreID::lemma_parts_equal(a, b);
}

proof fn lemma_kept(list: Seq<usize>, results: Seq<bool>, times: Seq<Timestamp>)
    requires
        list.len() <= results.len(),
        order::is_ordered(list, times),
    ensures
        order::is_ordered(source::kept(list, results), times),
        forall|i: int|
            0 <= i < source::kept(list, results).len() ==> list.contains(
                #[trigger] source::kept(list, results)[i],
            ),
    decreases list.len(),
{
    if list.len() > 0 {
        let front = list.drop_last();
        let before = source::kept(front, results);
        let now = source::kept(list, results);
        assert(order::is_ordered(front, times)) by {
            assert forall|i: int, j: int| 0 <= i < j < front.len() implies order::comes_before(
                times,
                #[trigger] front[i],
                #[trigger] front[j],
            ) by {
                assert(front[i] == list[i] && front[j] == list[j]);
            }
        }
        lemma_kept(front, results, times);
        assert forall|i: int| 0 <= i < before.len() implies list.contains(#[trigger] before[i])
            && order::comes_before(times, before[i], list.last()) by {
            let k = choose|k: int| 0 <= k < front.len() && front[k] == before[i];
            assert(list[k] == before[i]);
            assert(order::comes_before(times, list[k], list[list.len() - 1]));
        }
        assert forall|i: int| 0 <= i < now.len() implies list.contains(#[trigger] now[i]) by {
            if i < before.len() {
                assert(now[i] == before[i]);
            } else {
                assert(list[list.len() - 1] == now[i]);
            }
        }
        assert forall|i: int, j: int| 0 <= i < j < now.len() implies order::comes_before(
            times,
            #[trigger] now[i],
            #[trigger] now[j],
        ) by {
            assert(now[i] == before[i]);
            if j < before.len() {
                assert(now[j] == before[j]);
            }
        }
    }
}

proof fn lemma_found_in_order<P: Fn(&str, &str) -> bool>(
    before: DataSourceVariant,
    after: DataSourceVariant,
    diff: filetype::SpanTexts,
    predicate: P,
    found: Seq<usize>,
)
    requires
        after.searched(&before, diff, predicate, found),
        before.wf(),
        before.in_time_order(),
        before.count() <= usize::MAX,
    ensures
        order::is_ordered(found, before.times()),
        forall|i: int| 0 <= i < found.len() ==> #[trigger] found[i] < before.count(),
{
    let list = before.order();
    order::lemma_in_range(list, 0, before.count() as int);
    let results = choose|results: Seq<bool>|
        results.len() == before.count() && found == #[trigger] source::kept(list, results);
    lemma_kept(list, results, before.times());
    assert forall|i: int| 0 <= i < found.len() implies #[trigger] found[i] < before.count() by {
        let k = choose|k: int| 0 <= k < list.len() && list[k] == found[i];
        assert(list[k] < before.count());
    }
}

proof fn lemma_timed_ids(sources: Entries, list: Seq<StoreID>)
    requires
        forall|i: int| 0 <= i < list.len() ==> time_of(sources, #[trigger] list[i]) is Some,
    ensures
        timed_ids(sources, list).len() == list.len(),
        forall|i: int|
            0 <= i < list.len() ==> #[trigger] timed_ids(sources, list)[i] == (
                time_of(sources, list[i])->0,
                list[i],
            ),
    decreases list.len(),
{
    if list.len() > 0 {
        let front = list.drop_last();
        assert forall|i: int| 0 <= i < front.len() implies time_of(
            sources,
            #[trigger] front[i],
        ) is Some by {
            assert(front[i] == list[i]);
        }
        lemma_timed_ids(sources, front);
        assert(time_of(sources, list[list.len() - 1]) is Some);
        assert forall|i: int| 0 <= i < list.len() implies #[trigger] timed_ids(sources, list)[i]
            == (time_of(sources, list[i])->0, list[i]) by {
            if i < front.len() {
                assert(front[i] == list[i]);
                assert(timed_ids(sources, list)[i] == timed_ids(sources, front)[i]);
            }
        }
    }
}

/// A search gives every line that it found once, and all of them in the order of time,
/// where the lines of each source stand in that order.
pub proof fn search_results_are_in_time_order<P: Fn(&str, &str) -> bool>(
    before: Entries,
    after: Entries,
    diff: filetype::SpanTexts,
    predicate: P,
    lists: Seq<Seq<StoreID>>,
)
    requires
        source_map::keys_match(before),
        source_map::all_wf(before),
        forall|i: int|
            0 <= i < before.len() ==> (#[trigger] before[i]).1.in_time_order()
                && before[i].1.count() <= usize::MAX,
        are_found(before, after, diff, predicate, lists),
    ensures
        kway::in_order(kway::kway(timed_lists(before, lists))),
        kway::kway(timed_lists(before, lists)).to_multiset() == kway::all_of(
            timed_lists(before, lists),
        ),
        forall|i: int|
            0 <= i < lists.len() ==> kway::ids(#[trigger] timed_lists(before, lists)[i])
                == lists[i],
{
    let timed = timed_lists(before, lists);
    assert forall|i: int| 0 <= i < timed.len() implies kway::in_order(#[trigger] timed[i])
        && kway::ids(timed[i]) == lists[i] by {
        let s = before[i].1;
        let list = lists[i];
        assert(is_found(before[i], after[i], diff, predicate, list));
        let places = choose|places: Seq<usize>| #[trigger]
            ids_of(before[i].0, places, list) && after[i].1.searched(
                &s,
                diff,
                predicate,
                places,
            );
        assert(s.wf() && s.in_time_order());
        lemma_found_in_order(s, after[i].1, diff, predicate, places);
        source_map::lemma_place(before, before[i].0);
        assert(source_map::place_of(before, before[i].0) == i);
        assert forall|k: int| 0 <= k < list.len() implies time_of(before, #[trigger] list[k])
            == Some(s.times()[places[k] as int]) by {
            assert(places[k] < s.count());
        }
        lemma_timed_ids(before, list);
        assert forall|x: int, y: int| 0 <= x < y < timed[i].len() implies (
        #[trigger] timed[i][x]).0.le((#[trigger] timed[i][y]).0) by {
            assert(timed[i][x] == (time_of(before, list[x])->0, list[x]));
            assert(timed[i][y] == (time_of(before, list[y])->0, list[y]));
            assert(order::comes_before(s.times(), places[x], places[y]));
        }
        assert(kway::ids(timed[i]) =~= list) by {
            assert forall|k: int| 0 <= k < list.len() implies kway::ids(timed[i])[k]
                == list[k] by {
                assert(timed[i][k] == (time_of(before, list[k])->0, list[k]));
            }
        }
    }
    kway::merging_sources_keeps_order(timed);
    kway::merging_sources_keeps_lines(timed);
}

proof fn lemma_version_sum(sources: Entries, i: int, s: DataSourceVariant)
    requires
        0 <= i < sources.len(),
    ensures
        version_sum(sources.update(i, (sources[i].0, s))) == version_sum(sources)
            - sources[i].1.current_version() + s.current_version(),
    decreases sources.len(),
{
    let changed = sources.update(i, (sources[i].0, s));
    if i < sources.len() - 1 {
        lemma_version_sum(sources.drop_last(), i, s);
        assert(changed.drop_last() =~= sources.drop_last().update(i, (sources[i].0, s)));
    } else {
        assert(changed.drop_last() =~= sources.drop_last());
    }
}

/// When the version of a source goes up, that of the store changes.
pub proof fn new_lines_change_the_version(sources: Entries, i: int, s: DataSourceVariant)
    requires
        0 <= i < sources.len(),
        s.current_version() == source::bumped(sources[i].1.current_version()),
    ensures
        version_sum(sources.update(i, (sources[i].0, s))) % 0x1_0000_0000_0000_0000 != version_sum(
            sources,
        ) % 0x1_0000_0000_0000_0000,
{
    lemma_version_sum(sources, i, s);
}

/// When a source comes or goes or scores are set, the version of the store changes.
pub proof fn new_sources_change_the_version(version: u64)
    ensures
        source::bumped(version) != version,
{
}

/// Of a source that was taken out no line, score, flag or explanation is found any more. The
/// lines of the other sources have the times, scores and flags that they had, and can be
/// explained as before.
pub proof fn removed_source_leaves_nothing(
    before: LogStore,
    after: LogStore,
    gone: StoreID,
    other: StoreID,
)
    requires
        source_map::keys_match(before.sources()),
        after.sources() == source_map::without_key(before.sources(), gone.source()),
        after.score_sheets() == before.score_sheets().remove(gone.source()),
        after.sidecar_sheets() == before.sidecar_sheets().remove(gone.source()),
        after.explained() == before.explained().remove(gone.source()),
        other.source() != gone.source(),
    ensures
        after.source_of(gone.source()) is None,
        time_of(after.sources(), gone) is None,
        score_map::line_scores(after.score_sheets(), gone.source(), gone.index() as int).0 == 0,
        !after.sidecar_sheets().contains_key(gone.source()),
        !after.explained().contains(gone.source()),
        after.source_of(other.source()) == before.source_of(other.source()),
        time_of(after.sources(), other) == time_of(before.sources(), other),
        score_map::line_scores(after.score_sheets(), other.source(), other.index() as int)
            == score_map::line_scores(before.score_sheets(), other.source(), other.index() as int),
        score_map::line_scores(after.sidecar_sheets(), other.source(), other.index() as int)
            == score_map::line_scores(
            before.sidecar_sheets(),
            other.source(),
            other.index() as int,
        ),
        after.explained().contains(other.source()) == before.explained().contains(other.source()),
{
    source_map::removed_source_is_gone(before.sources(), gone.source());
}

/// A line has the time that it has in its source, and no time where its source or the line is
/// not there.
pub proof fn lines_have_the_times_of_their_sources(sources: Entries, k: int, id: StoreID)
    requires
        source_map::keys_match(sources),
    ensures
        0 <= k < sources.len() && sources[k].0 == id.source() && id.index() < sources[k].1.count()
            ==> time_of(sources, id) == Some(sources[k].1.times()[id.index() as int]),
        0 <= k < sources.len() && sources[k].0 == id.source() && id.index()
            >= sources[k].1.count() ==> time_of(sources, id) is None,
        (forall|i: int| 0 <= i < sources.len() ==> (#[trigger] sources[i]).0 != id.source())
            ==> time_of(sources, id) is None,
{
    source_map::lemma_place(sources, id.source());
    let p = source_map::place_of(sources, id.source());
    if 0 <= k < sources.len() && sources[k].0 == id.source() {
        assert(source_map::has_key(sources, id.source()));
        assert(sources[p].0 == id.source());
        assert(p == k) by {
            if p < k {
                assert(sources[p].0 != sources[k].0);
            } else if k < p {
                assert(sources[k].0 != sources[p].0);
            }
        }
    }
    if forall|i: int| 0 <= i < sources.len() ==> (#[trigger] sources[i]).0 != id.source() {
        if source_map::has_key(sources, id.source()) {
            assert(sources[p].0 != id.source());
        }
    }
}

/// Of lists that are merged only lines without a time are left out, and the others keep their
/// order.
pub proof fn only_lines_without_a_time_are_left_out(sources: Entries, list: Seq<StoreID>, id: StoreID)
    ensures
        time_of(sources, id) matches Some(t) ==> timed_ids(sources, list).contains((t, id))
            == list.contains(id),
        time_of(sources, id) is None ==> forall|t: Timestamp|
            !(#[trigger] timed_ids(sources, list).contains((t, id))),
        (forall|i: int| 0 <= i < list.len() ==> time_of(sources, #[trigger] list[i]) is Some)
            ==> kway::ids(timed_ids(sources, list)) == list,
    decreases list.len(),
{
    if forall|i: int| 0 <= i < list.len() ==> time_of(sources, #[trigger] list[i]) is Some {
        lemma_timed_ids(sources, list);
        assert(kway::ids(timed_ids(sources, list)) =~= list);
    }
    if list.len() > 0 {
        let front = list.drop_last();
        let n = list.len() - 1;
        only_lines_without_a_time_are_left_out(sources, front, id);
        let all = timed_ids(sources, list);
        let before = timed_ids(sources, front);
        assert(forall|i: int| 0 <= i < n ==> front[i] == list[i]);
        assert(list[n] == list.last());
        match time_of(sources, id) {
            Some(t) => {
                if list.contains(id) {
                    let i = choose|i: int| 0 <= i < list.len() && list[i] == id;
                    if i < n {
                        assert(front[i] == id);
                        let k = choose|k: int| 0 <= k < before.len() && before[k] == (t, id);
                        assert(all[k] == (t, id));
                    } else {
                        assert(all[all.len() - 1] == (t, id));
                    }
                }
                if all.contains((t, id)) {
                    let k = choose|k: int| 0 <= k < all.len() && all[k] == (t, id);
                    if k < before.len() {
                        assert(before[k] == (t, id));
                        let i = choose|i: int| 0 <= i < front.len() && front[i] == id;
                        assert(list[i] == id);
                    } else {
                        assert(list[n] == id);
                    }
                }
            },
            None => {
                assert forall|t: Timestamp| !(#[trigger] all.contains((t, id))) by {
                    if all.contains((t, id)) {
                        let k = choose|k: int| 0 <= k < all.len() && all[k] == (t, id);
                        if k < before.len() {
                            assert(before[k] == (t, id));
                            assert(before.contains((t, id)));
                        }
                    }
                }
            },
        }
    }
}

/// A search of all sources gives exactly the lines that were found in each of them, and in one
/// order of time: none is left out, and none is added.
pub proof fn a_search_of_all_sources_gives_every_match<P: Fn(&str, &str) -> bool>(
    before: Entries,
    after: Entries,
    diff: filetype::SpanTexts,
    predicate: P,
    lists: Seq<Seq<StoreID>>,
    k: int,
    places: Seq<usize>,
    id: StoreID,
)
    requires
        source_map::keys_match(before),
        source_map::all_wf(before),
        forall|i: int|
            0 <= i < before.len() ==> (#[trigger] before[i]).1.in_time_order()
                && before[i].1.count() <= usize::MAX,
        are_found(before, after, diff, predicate, lists),
        0 <= k < before.len(),
        ids_of(before[k].0, places, lists[k]),
        after[k].1.searched(&before[k].1, diff, predicate, places),
        id.source() == before[k].0,
    ensures
        merged_ids(before, lists).contains(id) == places.contains(id.index()),
        forall|x: int, y: int|
            0 <= x < y < merged_ids(before, lists).len() ==> {
                let s = time_of(before, #[trigger] merged_ids(before, lists)[x]);
                let t = time_of(before, #[trigger] merged_ids(before, lists)[y]);
                s is Some && t is Some && (s->0).le(t->0)
            },
{
    search_results_are_in_time_order(before, after, diff, predicate, lists);
    let timed = timed_lists(before, lists);
    let all = kway::kway(timed);
    let merged = merged_ids(before, lists);
    assert forall|i: int, j: int| 0 <= i < lists.len() && 0 <= j < lists[i].len() implies (
    #[trigger] lists[i][j]).source() == before[i].0 by {
        assert(is_found(before[i], after[i], diff, predicate, lists[i]));
    }
    assert forall|e: TimedId| #[trigger] all.contains(e) implies time_of(before, e.1) == Some(e.0)
        && exists|i: int| 0 <= i < lists.len() && (#[trigger] lists[i]).contains(e.1) by {
        kway::merged_sources_hold_what_each_holds(timed, e);
        let i = choose|i: int| 0 <= i < timed.len() && (#[trigger] timed[i]).contains(e);
        assert(timed[i] == timed_ids(before, lists[i]));
        lemma_times_of_timed(before, lists[i], e);
        only_lines_without_a_time_are_left_out(before, lists[i], e.1);
        assert(timed_ids(before, lists[i]).contains((e.0, e.1)));
        assert(lists[i].contains(e.1));
    }
    if merged.contains(id) {
        let x = choose|x: int| 0 <= x < merged.len() && merged[x] == id;
        assert(all.contains(all[x]));
        let i = choose|i: int| 0 <= i < lists.len() && (#[trigger] lists[i]).contains(id);
        let j = choose|j: int| 0 <= j < lists[i].len() && lists[i][j] == id;
        assert(before[i].0 == before[k].0);
        assert(i == k) by {
            if i < k {
                assert(before[i].0 != before[k].0);
            } else if k < i {
                assert(before[k].0 != before[i].0);
            }
        }
        assert(places[j] == id.index());
    }
    if places.contains(id.index()) {
        let j = choose|j: int| 0 <= j < places.len() && places[j] == id.index();
        StoreID::lemma_parts_equal(lists[k][j], id);
        assert(lists[k][j] == id);
        assert(kway::ids(timed[k]) == lists[k]);
        let e = timed[k][j];
        assert(kway::ids(timed[k])[j] == e.1);
        assert(e.1 == id);
        assert(timed[k].contains(e));
        kway::merged_sources_hold_what_each_holds(timed, e);
        let x = choose|x: int| 0 <= x < all.len() && all[x] == e;
        assert(merged[x] == id);
    }
    assert forall|x: int, y: int| 0 <= x < y < merged.len() implies {
        let s = time_of(before, #[trigger] merged[x]);
        let t = time_of(before, #[trigger] merged[y]);
        s is Some && t is Some && (s->0).le(t->0)
    } by {
        assert(all.contains(all[x]) && all.contains(all[y]));
        assert(all[x].0.le(all[y].0));
    }
}

proof fn lemma_times_of_timed(sources: Entries, list: Seq<StoreID>, e: TimedId)
    requires
        timed_ids(sources, list).contains(e),
    ensures
        time_of(sources, e.1) == Some(e.0),
    decreases list.len(),
{
    if list.len() > 0 {
        let all = timed_ids(sources, list);
        let before = timed_ids(sources, list.drop_last());
        let k = choose|k: int| 0 <= k < all.len() && all[k] == e;
        if k < before.len() {
            assert(before[k] == e);
            lemma_times_of_timed(sources, list.drop_last(), e);
        }
    }
}

/// The line that is closest in time to a point is one than which none is closer. Where a line
/// has just that time, the first such line is it.
pub proof fn no_line_is_closer(
    times: Seq<Option<Timestamp>>,
    target: Timestamp,
    split: int,
    r: Option<usize>,
    i: int,
)
    requires
        splits_at(times, target, split),
        is_closest(times, target, split, r),
        times.len() <= usize::MAX,
        !target.is_leap(),
        forall|k: int|
            0 <= k < times.len() ==> (#[trigger] times[k]) is Some && !(times[k]->0).is_leap(),
        forall|a: int, b: int|
            0 <= a < b < times.len() ==> ((#[trigger] times[a])->0).le((#[trigger] times[b])->0),
        0 <= i < times.len(),
    ensures
        r matches Some(k) && k < times.len() && {
            let near = (times[k as int]->0).total() - target.total();
            let other = (times[i]->0).total() - target.total();
            &&& -near <= other || -near <= -other
            &&& near <= other || near <= -other
            &&& times[i]->0 == target ==> times[k as int]->0 == target && k <= i
        },
{
    assert forall|k: int| 0 <= k < times.len() implies (if k < split {
        (times[k]->0).total() < target.total()
    } else {
        (times[k]->0).total() >= target.total()
    }) by {
        let t = times[k]->0;
        assert(times[k] is Some);
        assert(is_earlier(times[k], target) == (k < split));
    }
    assert(times[i] is Some);
    if split > 0 {
        assert(times[split - 1] is Some);
        crate::time::lengths_are_differences(target, times[split - 1]->0);
        if i < split - 1 {
            assert((times[i]->0).le(times[split - 1]->0));
        }
    }
    if split < times.len() {
        assert(times[split] is Some);
        crate::time::lengths_are_differences(times[split]->0, target);
        if i > split {
            assert((times[split]->0).le(times[i]->0));
        }
    }
}

/// The line to jump to is that of the last source in which one was asked for.
pub proof fn the_last_jump_counts(frames: Seq<(bool, Option<usize>)>, i: int)
    ensures
        (forall|k: int| 0 <= k < frames.len() ==> (#[trigger] frames[k]).1 is None) ==> last_jump(
            frames,
        ) is None,
        0 <= i < frames.len() && frames[i].1 is Some && (forall|k: int|
            i < k < frames.len() ==> (#[trigger] frames[k]).1 is None) ==> last_jump(frames)
            == Some((i, frames[i].1->0)),
    decreases frames.len(),
{
    if frames.len() > 0 {
        let front = frames.drop_last();
        the_last_jump_counts(front, i);
        assert(forall|k: int| 0 <= k < front.len() ==> front[k] == frames[k]);
        assert(frames[frames.len() - 1] == frames.last());
    }
}

/// The lines of all sources are counted together, and their versions are added up.
pub proof fn sources_are_counted_together(sources: Entries, more: (u64, DataSourceVariant))
    ensures
        line_sum(Entries::empty()) == 0,
        line_sum(sources.push(more)) == line_sum(sources) + more.1.count(),
        version_sum(Entries::empty()) == 0,
        version_sum(sources.push(more)) == version_sum(sources) + more.1.current_version(),
{
    assert(sources.push(more).drop_last() =~= sources);
}

/// A file is known by its canonical path where both are known, whatever the paths say, and else
/// by the path as it was given.
pub proof fn files_are_known_by_their_paths(
    path: Seq<char>,
    other: Seq<char>,
    a: Seq<char>,
    b: Seq<char>,
)
    ensures
        names_file(path, Some(a), other, Some(a)),
        a != b ==> !names_file(path, Some(a), path, Some(b)),
        names_file(path, None, path, Some(b)),
        names_file(path, Some(a), path, None),
        names_file(path, None, path, None),
        path != other ==> !names_file(path, None, other, Some(b)) && !names_file(
            path,
            Some(a),
            other,
            None,
        ) && !names_file(path, None, other, None),
{
}

/// The list of all bookmarks holds those of every source, with their names and lines, and no
/// others.
pub proof fn all_bookmarks_are_listed(
    sources: Entries,
    data: Seq<BookmarkData>,
    k: int,
    line: usize,
)
    requires
        are_all_marks(sources, data),
        source_map::keys_match(sources),
        source_map::all_wf(sources),
        0 <= k < sources.len(),
    ensures
        sources[k].1.marks().contains_key(line) ==> exists|i: int|
            0 <= i < data.len() && (#[trigger] data[i]).store_id.source() == sources[k].0
                && data[i].store_id.index() == line && data[i].name
                == sources[k].1.marks()[line].name,
        (exists|i: int|
            0 <= i < data.len() && (#[trigger] data[i]).store_id.source() == sources[k].0
                && data[i].store_id.index() == line) ==> sources[k].1.marks().contains_key(line),
    decreases sources.len(),
{
    let n = sources.len() - 1;
    let front = sources.drop_last();
    let list = choose|list: Seq<Bookmark>|
        {
            &&& list.len() <= data.len()
            &&& #[trigger] source::is_bookmark_list(sources.last().1.marks(), list)
            &&& are_marks_of(sources.last().0, list, data.skip(data.len() - list.len()))
            &&& are_all_marks(front, data.take(data.len() - list.len()))
        };
    let m = data.len() - list.len();
    let tail = data.skip(m);
    let head = data.take(m);
    assert(sources[n] == sources.last());
    assert(forall|i: int| 0 <= i < n ==> front[i] == sources[i]);
    assert(source_map::keys_match(front));
    assert(source_map::all_wf(front));
    assert(sources[n].1.wf());
    let marks = sources[n].1.marks();
    assert(source::marks_match(marks));
    if k == n {
        source::lists_hold_each_bookmark_once(marks, list, line);
        if marks.contains_key(line) {
            let i = choose|i: int|
                0 <= i < list.len() && (#[trigger] list[i]).line_index == line && list[i]
                    == marks[line];
            assert(tail[i] == data[m + i]);
            assert(data[m + i].store_id.source() == sources[k].0);
        }
        if exists|i: int|
            0 <= i < data.len() && (#[trigger] data[i]).store_id.source() == sources[k].0
                && data[i].store_id.index() == line {
            let i = choose|i: int|
                0 <= i < data.len() && (#[trigger] data[i]).store_id.source() == sources[k].0
                    && data[i].store_id.index() == line;
            if i < m {
                assert(head[i] == data[i]);
                lemma_marks_have_sources(front, head, i);
                let j = choose|j: int|
                    0 <= j < front.len() && (#[trigger] front[j]).0 == head[i].store_id.source();
                assert(sources[j].0 == sources[n].0);
            } else {
                assert(tail[i - m] == data[i]);
                assert(list[i - m].line_index == line);
            }
        }
    } else {
        all_bookmarks_are_listed(front, head, k, line);
        assert(front[k] == sources[k]);
        if sources[k].1.marks().contains_key(line) {
            let i = choose|i: int|
                0 <= i < head.len() && (#[trigger] head[i]).store_id.source() == front[k].0
                    && head[i].store_id.index() == line && head[i].name
                    == front[k].1.marks()[line].name;
            assert(data[i] == head[i]);
        }
        if exists|i: int|
            0 <= i < data.len() && (#[trigger] data[i]).store_id.source() == sources[k].0
                && data[i].store_id.index() == line {
            let i = choose|i: int|
                0 <= i < data.len() && (#[trigger] data[i]).store_id.source() == sources[k].0
                    && data[i].store_id.index() == line;
            if i < m {
                assert(head[i] == data[i]);
                assert(head[i].store_id.source() == front[k].0);
            } else {
                assert(tail[i - m] == data[i]);
                assert(sources[k].0 != sources[n].0);
            }
        }
    }
}

proof fn lemma_marks_have_sources(sources: Entries, data: Seq<BookmarkData>, i: int)
    requires
        are_all_marks(sources, data),
        0 <= i < data.len(),
    ensures
        exists|j: int|
            0 <= j < sources.len() && (#[trigger] sources[j]).0 == data[i].store_id.source(),
    decreases sources.len(),
{
    let front = sources.drop_last();
    let list = choose|list: Seq<Bookmark>|
        {
            &&& list.len() <= data.len()
            &&& #[trigger] source::is_bookmark_list(sources.last().1.marks(), list)
            &&& are_marks_of(sources.last().0, list, data.skip(data.len() - list.len()))
            &&& are_all_marks(front, data.take(data.len() - list.len()))
        };
    let m = data.len() - list.len();
    if i < m {
        lemma_marks_have_sources(front, data.take(m), i);
        let j = choose|j: int|
            0 <= j < front.len() && (#[trigger] front[j]).0 == data.take(m)[i].store_id.source();
        assert(sources[j] == front[j]);
    } else {
        assert(data.skip(m)[i - m] == data[i]);
        assert(sources[sources.len() - 1].0 == data[i].store_id.source());
    }
}

/// A line is shown with its own scores: those of its source at its place, of the scorer and of
/// the scoring service, and none where there are none.
pub proof fn lines_are_shown_with_their_scores(
    shown: LogLine,
    scores: Sheets,
    sidecar: Sheets,
    id: StoreID,
)
    requires
        with_scores(shown, scores, sidecar, id),
    ensures
        ({
            let (s, i) = (id.source(), id.index() as int);
            &&& scores.contains_key(s) && i < scores[s].scores.len() ==> shown.anomaly_score
                == scores[s].scores[i]
            &&& !scores.contains_key(s) || i >= scores[s].scores.len() ==> shown.anomaly_score
                == 0
            &&& sidecar.contains_key(s) && i < sidecar[s].scores.len()
                ==> shown.sidecar_anomaly_score == sidecar[s].scores[i]
            &&& !sidecar.contains_key(s) ==> shown.sidecar_anomaly_score == 0
                && !shown.sidecar_score_is_unk && !shown.sidecar_score_is_rare
                && !shown.sidecar_scored
            &&& sidecar.contains_key(s) && i < sidecar[s].unk_flags.len()
                ==> shown.sidecar_score_is_unk == sidecar[s].unk_flags[i]
            &&& sidecar.contains_key(s) && i < sidecar[s].rare_flags.len()
                ==> shown.sidecar_score_is_rare == sidecar[s].rare_flags[i]
            &&& sidecar.contains_key(s) && i < sidecar[s].scored_flags.len()
                ==> shown.sidecar_scored == sidecar[s].scored_flags[i]
        }),
{
}

/// Where times of a source changed, its lines are put in order anew and its version goes up;
/// where none did, it stays as it is.
pub proof fn changed_sources_are_put_in_order(
    before: (u64, DataSourceVariant),
    after: (u64, DataSourceVariant),
    changed: bool,
)
    requires
        frame_ended(before, after, changed),
    ensures
        after.0 == before.0,
        after.1.marks() == before.1.marks(),
        after.1.times() == before.1.times(),
        !changed ==> after.1 == before.1,
        changed ==> after.1.in_time_order() && after.1.current_version()
            != before.1.current_version(),
{
}

/// Lines are ordered by time first, and by the number of their source and their place only where
/// the times are the same.
pub proof fn time_comes_before_place(sources: Entries, a: StoreID, b: StoreID)
    requires
        time_of(sources, a) is Some,
        time_of(sources, b) is Some,
    ensures
        (time_of(sources, a)->0).lt(time_of(sources, b)->0) ==> id_before(sources, a, b),
        time_of(sources, a) == time_of(sources, b) && a.source() < b.source() ==> id_before(
            sources,
            a,
            b,
        ),
        time_of(sources, a) == time_of(sources, b) && a.source() == b.source() && a.index()
            < b.index() ==> id_before(sources, a, b),
{
}

/// Of two lines that lie as far from a point in time, one before it and one after it, the
/// one before it is taken. Where all lines are earlier the last is taken, where none is the
/// first, and among no lines none.
pub proof fn the_line_before_is_taken(
    times: Seq<Option<Timestamp>>,
    target: Timestamp,
    split: int,
    r: Option<usize>,
    i: int,
)
    requires
        splits_at(times, target, split),
        is_closest(times, target, split, r),
        times.len() <= usize::MAX,
        !target.is_leap(),
        forall|k: int|
            0 <= k < times.len() ==> (#[trigger] times[k]) is Some && !(times[k]->0).is_leap(),
        forall|a: int, b: int|
            0 <= a < b < times.len() ==> ((#[trigger] times[a])->0).le((#[trigger] times[b])->0),
    ensures
        times.len() == 0 ==> r is None,
        times.len() > 0 ==> r is Some,
        times.len() > 0 && times.last()->0.lt(target) ==> r == Some((times.len() - 1) as usize),
        times.len() > 0 && !times[0]->0.lt(target) ==> r == Some(0usize),
        0 <= i < times.len() ==> {
            let near = (times[r->0 as int]->0).total() - target.total();
            let other = (times[i]->0).total() - target.total();
            near > 0 ==> other != -near
        },
{
    assert forall|k: int| 0 <= k < times.len() implies (if k < split {
        (times[k]->0).total() < target.total()
    } else {
        (times[k]->0).total() >= target.total()
    }) by {
        let t = times[k]->0;
        assert(times[k] is Some);
        assert(is_earlier(times[k], target) == (k < split));
    }
    if times.len() > 0 {
        assert(times[0] is Some);
        assert(times[times.len() - 1] is Some);
        assert(is_earlier(times[0], target) == (0 < split));
        assert(is_earlier(times[times.len() - 1], target) == (times.len() - 1 < split));
    }
    if 0 < split < times.len() {
        assert(times[split - 1] is Some);
        assert(times[split] is Some);
        crate::time::lengths_are_differences(target, times[split - 1]->0);
        crate::time::lengths_are_differences(times[split]->0, target);
        if 0 <= i < split - 1 {
            assert(times[i] is Some);
            assert((times[i]->0).le(times[split - 1]->0));
        }
    }
}

/// A line that is sent to be scored has the place, the time and the message of the line in
/// its source, the name of its kind of file, and a key that is made of its message alone.
pub proof fn sent_lines_say_what_the_source_has<N: Fn(&str) -> String>(
    s: DataSourceVariant,
    i: int,
    normalize: N,
    line: InputLine,
)
    requires
        is_input_line(s, i, normalize, line),
    ensures
        line.line_id.source_id == 0,
        line.line_id.line_number == i,
        line.line_id.timestamp_unix_ms == s.times()[i].unix_ms(),
        line.message@ == s.message_at(i),
        line.source_file is None,
        line.filetype matches Some(f) && f@ == s.slug(),
        line.template_key is Some,
        exists|message: &str|
            message@ == s.message_at(i) && #[trigger] call_ensures(
                normalize,
                (message,),
                line.template_key->0,
            ),
{
    let (message, key) = choose|message: &str, key: String| #[trigger]
        call_ensures(normalize, (message,), key) && message@ == line.message@ && line.template_key
            == Some(key);
    assert(call_ensures(normalize, (message,), line.template_key->0));
}

/// A version goes up by one, and after the largest it begins again.
pub proof fn versions_go_up_by_one(version: u64)
    ensures
        version < u64::MAX ==> source::bumped(version) == version + 1,
        version == u64::MAX ==> source::bumped(version) == 0,
{
}

} // verus!
