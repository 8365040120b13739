//! What is kept between sessions for one log file.
//!
//! It is written to a file beside the log file, which one running instance locks.

use super::source;
use super::source::{Bookmark, SourceData};
use crate::filetype::LineType;
use crate::text;
use vstd::prelude::*;

verus! {

/// What a session file holds; `T` is a saved filter, `H` a saved highlight and `F` the
/// state of the log file.
#[derive(Debug)]
pub struct CrabFile<T, H, F> {
    pub version: u32,
    pub bookmarks: Vec<Bookmark>,
    pub filters: Vec<T>,
    pub highlights: Vec<H>,
    pub file_state: F,
}

/// What is written to a session file.
pub struct CrabRecord<'a, T, H, F> {
    pub version: u32,
    pub bookmarks: Vec<Bookmark>,
    pub filters: &'a Vec<T>,
    pub highlights: &'a Vec<H>,
    pub file_state: &'a F,
}

/// Why a session file could not be read.
#[derive(Debug)]
pub enum SessionError {
    /// It ended too early, as one that was just made does.
    UnexpectedEof,
    /// Another error of the file system.
    Io,
    /// It is not in the form of a session file.
    Parse,
    VersionTooNew { found: u32, supported: u32 },
    StateVersionTooNew { slug: String, found: u32, supported: u32 },
}

/// What becomes of a locked session file.
#[derive(Debug)]
pub struct CrabOpening<C> {
    /// Whether the lock is kept, so that the file may be written later.
    pub keeps_lock: bool,
    pub data: Option<C>,
    /// What the user is told.
    pub warning: Option<String>,
}

/// The name of the session file of a log file.
pub open spec fn crab_name(file_name: Seq<char>) -> Seq<char> {
    file_name + ".crab"@
}

/// The name of the session file of a log file.
pub fn crab_file_name(file_name: &str) -> (r: String)
    ensures
        r@ == crab_name(file_name@),
{
    let mut r = String::from_str(file_name);
    r.append(".crab");
    r
}

/// What the user is told of a session file of a newer version.
pub open spec fn newer_file_text(crab_path: Seq<char>, found: u32, supported: u32) -> Seq<char> {
    ".crab file "@ + crab_path + " was written by a newer LogCrab (v"@ + text::dec(found as nat)
        + ", app supports up to v"@ + text::dec(supported as nat)
        + "); bookmarks and file state not loaded"@
}

/// What the user is told of a state of a newer version.
pub open spec fn newer_state_text(
    crab_path: Seq<char>,
    slug: Seq<char>,
    found: u32,
    supported: u32,
) -> Seq<char> {
    ".crab file "@ + crab_path + ": "@ + slug + " state was written by a newer LogCrab (state v"@
        + text::dec(found as nat) + ", app supports up to v"@ + text::dec(supported as nat)
        + "); calibration and file state not loaded"@
}

/// What the user is told of a file whose session file another instance has locked.
pub open spec fn read_only_text(file_name: Seq<char>) -> Seq<char> {
    "'"@ + file_name
        + "' is already open in another LogCrab instance \u{2014} opened read-only (bookmarks and filters not loaded)"@
}

/// What the user is told of a file whose session file another instance has locked.
pub fn read_only_warning(file_name: &str) -> (r: String)
    ensures
        r@ == read_only_text(file_name@),
{
    let mut r = String::from_str("'");
    r.append(file_name);
    r.append(
        "' is already open in another LogCrab instance \u{2014} opened read-only (bookmarks and filters not loaded)",
    );
    r
}

/// Decides what becomes of a locked session file once it was read.
///
/// An empty or unreadable one is kept and will be written over. One of a newer version is
/// let go, so that nothing that a newer version wrote is lost.
pub fn open_crab_file<C>(loaded: Result<C, SessionError>, crab_path: &str) -> (r: CrabOpening<C>)
    ensures
        match loaded {
            Ok(data) => r == (CrabOpening { keeps_lock: true, data: Some(data), warning: None }),
            Err(SessionError::VersionTooNew { found, supported }) => {
                &&& !r.keeps_lock
                &&& r.data is None
                &&& text::opt_text(r.warning) == Some(
                    newer_file_text(crab_path@, found, supported),
                )
            },
            Err(SessionError::StateVersionTooNew { slug, found, supported }) => {
                &&& !r.keeps_lock
                &&& r.data is None
                &&& text::opt_text(r.warning) == Some(
                    newer_state_text(crab_path@, slug@, found, supported),
                )
            },
            Err(_) => r.keeps_lock && r.data is None && r.warning is None,
        },
{
    match loaded {
        Ok(data) => CrabOpening { keeps_lock: true, data: Some(data), warning: None },
        Err(SessionError::VersionTooNew { found, supported }) => {
            let mut w = String::from_str(".crab file ");
            w.append(crab_path);
            w.append(" was written by a newer LogCrab (v");
            text::push_dec(&mut w, found as u64);
            w.append(", app supports up to v");
            text::push_dec(&mut w, supported as u64);
            w.append("); bookmarks and file state not loaded");
            CrabOpening { keeps_lock: false, data: None, warning: Some(w) }
        },
        Err(SessionError::StateVersionTooNew { slug, found, supported }) => {
            let mut w = String::from_str(".crab file ");
            w.append(crab_path);
            w.append(": ");
            w.append(slug.as_str());
            w.append(" state was written by a newer LogCrab (state v");
            text::push_dec(&mut w, found as u64);
            w.append(", app supports up to v");
            text::push_dec(&mut w, supported as u64);
            w.append("); calibration and file state not loaded");
            CrabOpening { keeps_lock: false, data: None, warning: Some(w) }
        },
        Err(_) => CrabOpening { keeps_lock: true, data: None, warning: None },
    }
}

/// Opens a log file with what its session file holds.
///
/// `opening` is `None` where the session file could not be locked: the source is
/// read-only. Gives the source, the saved filters and highlights, and what the user is
/// told.
pub fn open_source<L: LineType, T, H>(
    source_id: u64,
    file_path: String,
    file_name: String,
    config: L::Config,
    default_state: L::FileState,
    opening: Option<CrabOpening<CrabFile<T, H, L::FileState>>>,
) -> (r: (SourceData<L>, Vec<T>, Vec<H>, Option<String>))
    ensures
        r.0.wf(),
        r.0.id() == source_id,
        r.0.path() == file_path@,
        r.0.name() == file_name@,
        r.0.settings() == config,
        r.0.lines() == Seq::<L>::empty(),
        r.0.in_time_order(),
        r.0.current_version() == 1,
        !r.0.cancel_flag(),
        r.0.is_writable() == (opening matches Some(o) && o.keeps_lock),
        match opening {
            Some(CrabOpening { data: Some(crab), .. }) => {
                &&& r.0.state() == crab.file_state
                &&& r.0.marks() == source::bookmark_map(crab.bookmarks@)
                &&& r.1 == crab.filters
                &&& r.2 == crab.highlights
            },
            _ => {
                &&& r.0.state() == default_state
                &&& r.0.marks() == source::bookmark_map(Seq::empty())
                &&& r.1@ == Seq::<T>::empty()
                &&& r.2@ == Seq::<H>::empty()
            },
        },
        match opening {
            Some(o) => r.3 == o.warning,
            None => text::opt_text(r.3) == Some(read_only_text(file_name@)),
        },
{
    match opening {
        Some(o) => match o.data {
            Some(crab) => {
                let sd = SourceData::new(
                    source_id,
                    file_path,
                    file_name,
                    config,
                    crab.file_state,
                    &crab.bookmarks,
                    o.keeps_lock,
                );
                (sd, crab.filters, crab.highlights, o.warning)
            },
            None => {
                let none: Vec<Bookmark> = Vec::new();
                let sd = SourceData::new(
                    source_id,
                    file_path,
                    file_name,
                    config,
                    default_state,
                    &none,
                    o.keeps_lock,
                );
                (sd, Vec::new(), Vec::new(), o.warning)
            },
        },
        None => {
            let warning = read_only_warning(file_name.as_str());
            let none: Vec<Bookmark> = Vec::new();
            let sd = SourceData::new(
                source_id,
                file_path,
                file_name,
                config,
                default_state,
                &none,
                false,
            );
            (sd, Vec::new(), Vec::new(), Some(warning))
        },
    }
}

impl<L: LineType> SourceData<L> {
    /// What is written to the session file; nothing where it may not be written.
    pub fn crab_record<'a, T, H>(
        &'a self,
        version: u32,
        filters: &'a Vec<T>,
        highlights: &'a Vec<H>,
    ) -> (r: Option<CrabRecord<'a, T, H, L::FileState>>)
        requires
            self.wf(),
        ensures
            r is Some == self.is_writable(),
            r matches Some(record) ==> {
                &&& record.version == version
                &&& source::is_bookmark_list(self.marks(), record.bookmarks@)
                &&& record.filters == filters
                &&& record.highlights == highlights
                &&& *record.file_state == self.state()
            },
    {
        if self.can_save() {
            Some(
                CrabRecord {
                    version,
                    bookmarks: self.get_bookmarks(),
                    filters,
                    highlights,
                    file_state: self.file_state(),
                },
            )
        } else {
            None
        }
    }
}

proof fn lemma_bookmark_map(list: Seq<Bookmark>)
    ensures
        forall|i: int|
            0 <= i < list.len() ==> source::bookmark_map(list).contains_key(
                (#[trigger] list[i]).line_index,
            ),
        forall|k: usize| #[trigger]
            source::bookmark_map(list).contains_key(k) ==> list.contains(
                source::bookmark_map(list)[k],
            ) && source::bookmark_map(list)[k].line_index == k,
    decreases list.len(),
{
    if list.len() > 0 {
        let rest = list.drop_last();
        lemma_bookmark_map(rest);
        let m = source::bookmark_map(list);
        assert forall|i: int| 0 <= i < list.len() implies m.contains_key(
            (#[trigger] list[i]).line_index,
        ) by {
            if i < rest.len() {
                assert(rest[i] == list[i]);
            }
        }
        assert forall|k: usize| #[trigger] m.contains_key(k) implies list.contains(m[k])
            && m[k].line_index == k by {
            if k == list.last().line_index {
                assert(list[list.len() - 1] == m[k]);
            } else {
                assert(source::bookmark_map(rest).contains_key(k));
                let i = choose|i: int| 0 <= i < rest.len() && rest[i] == m[k];
                assert(list[i] == m[k]);
            }
        }
    }
}

/// The bookmarks that are written to a session file are those that come back when the
/// file is opened again, in whatever order they were written.
pub proof fn saved_bookmarks_come_back(marks: Map<usize, Bookmark>, list: Seq<Bookmark>)
    requires
        source::marks_match(marks),
        source::is_bookmark_list(marks, list),
    ensures
        source::bookmark_map(list) == marks,
{
    lemma_bookmark_map(list);
    let m = source::bookmark_map(list);
    assert forall|k: usize| m.contains_key(k) == marks.contains_key(k) by {
        if marks.contains_key(k) {
            let i = choose|i: int| 0 <= i < list.len() && list[i] == marks[k];
            assert(list[i].line_index == k);
        }
        if m.contains_key(k) {
            let i = choose|i: int| 0 <= i < list.len() && list[i] == m[k];
            assert(marks.contains_key(list[i].line_index));
        }
    }
    assert forall|k: usize| #[trigger] m.contains_key(k) implies m[k] == marks[k] by {
        let i = choose|i: int| 0 <= i < list.len() && list[i] == m[k];
        assert(marks.contains_key(list[i].line_index));
    }
    assert(m =~= marks);
}

/// A session file stands beside its log file, under its name with an ending; the name of
/// the log file can be read from it.
pub proof fn session_files_are_called_after_logs(file_name: Seq<char>, other: Seq<char>)
    ensures
        crab_name(file_name) == file_name + ".crab"@,
        crab_name(file_name).len() == file_name.len() + 5,
        crab_name(file_name).take(file_name.len() as int) == file_name,
        crab_name(file_name) == crab_name(other) ==> file_name == other,
{
    reveal_strlit(".crab");
    assert(crab_name(file_name).take(file_name.len() as int) =~= file_name);
    assert(crab_name(other).take(other.len() as int) =~= other);
}

/// The user is told which file is not read, and why, with both versions.
pub proof fn users_are_told_why_nothing_is_loaded(
    path: Seq<char>,
    slug: Seq<char>,
    found: u32,
    supported: u32,
)
    ensures
        newer_file_text(path, found, supported) == ".crab file "@ + path
            + " was written by a newer LogCrab (v"@ + text::dec(found as nat)
            + ", app supports up to v"@ + text::dec(supported as nat)
            + "); bookmarks and file state not loaded"@,
        newer_state_text(path, slug, found, supported) == ".crab file "@ + path + ": "@ + slug
            + " state was written by a newer LogCrab (state v"@ + text::dec(found as nat)
            + ", app supports up to v"@ + text::dec(supported as nat)
            + "); calibration and file state not loaded"@,
        read_only_text(path) == "'"@ + path
            + "' is already open in another LogCrab instance \u{2014} opened read-only (bookmarks and filters not loaded)"@,
{
}

/// A session file is let go just where a newer version wrote it, so that it is never written
/// over, and what was read is given back only where reading it went well.
pub proof fn newer_session_files_are_protected<C>(
    loaded: Result<C, SessionError>,
    crab_path: &str,
    r: CrabOpening<C>,
)
    requires
        call_ensures(open_crab_file::<C>, (loaded, crab_path), r),
    ensures
        r.keeps_lock == !(loaded matches Err(SessionError::VersionTooNew { .. })
            || loaded matches Err(SessionError::StateVersionTooNew { .. })),
        r.warning is Some == !r.keeps_lock,
        match loaded {
            Ok(data) => r.data == Some(data),
            Err(_) => r.data is None,
        },
{
}

} // verus!
