//! Which files are opened, and how.

use crate::text;
use vstd::prelude::*;

verus! {

/// Something to be done with the session or a file, by its path.
#[derive(Debug)]
pub enum FileTask {
    /// Begin a new session.
    StartSession,
    /// Add a file to the session.
    Add(String),
    /// Add a file to the session if it is there.
    AddIfThere(String),
    /// Add a file to the session if it is there, else tell the user that it is not.
    AddOrTell(String),
    /// Import the filters of a file, and tell the user where that fails.
    ImportFilters(String),
    /// Tell the user of an error.
    Tell(String),
}

/// The tasks to add files.
pub open spec fn adding(files: Seq<String>) -> Seq<FileTask> {
    files.map_values(|f: String| FileTask::Add(f))
}

/// The tasks to add files if they are there.
pub open spec fn adding_if_there(files: Seq<String>) -> Seq<FileTask> {
    files.map_values(|f: String| FileTask::AddIfThere(f))
}

/// The tasks to open files in a new session.
pub open spec fn opening(files: Seq<String>) -> Seq<FileTask> {
    seq![FileTask::StartSession] + files.map_values(|f: String| FileTask::AddOrTell(f))
}

/// The tasks to import the filters of files.
pub open spec fn importing(files: Seq<String>) -> Seq<FileTask> {
    files.map_values(|f: String| FileTask::ImportFilters(f))
}

/// The tasks to add files.
pub fn add_files(files: &Vec<String>) -> (r: Vec<FileTask>)
    ensures
        r@ == adding(files@),
{
    let mut out: Vec<FileTask> = Vec::new();
    let mut i: usize = 0;
    while i < files.len()
        invariant
            i <= files@.len(),
            out@ == adding(files@).take(i as int),
        decreases files.len() - i,
    {
        out.push(FileTask::Add(files[i].clone()));
        assert(out@ =~= adding(files@).take(i + 1));
        i += 1;
    }
    assert(out@ =~= adding(files@));
    out
}

/// The tasks to add files if they are there.
pub fn add_files_if_there(files: &Vec<String>) -> (r: Vec<FileTask>)
    ensures
        r@ == adding_if_there(files@),
{
    let mut out: Vec<FileTask> = Vec::new();
    let mut i: usize = 0;
    while i < files.len()
        invariant
            i <= files@.len(),
            out@ == adding_if_there(files@).take(i as int),
        decreases files.len() - i,
    {
        out.push(FileTask::AddIfThere(files[i].clone()));
        assert(out@ =~= adding_if_there(files@).take(i + 1));
        i += 1;
    }
    assert(out@ =~= adding_if_there(files@));
    out
}

/// The tasks to open files in a new session.
pub fn open_files_as_new_session(files: &Vec<String>) -> (r: Vec<FileTask>)
    ensures
        r@ == opening(files@),
{
    let mut out: Vec<FileTask> = Vec::new();
    out.push(FileTask::StartSession);
    let mut i: usize = 0;
    assert(out@ =~= opening(files@).take(1));
    while i < files.len()
        invariant
            i <= files@.len(),
            out@ == opening(files@).take(i + 1),
        decreases files.len() - i,
    {
        out.push(FileTask::AddOrTell(files[i].clone()));
        assert(out@ =~= opening(files@).take(i + 2));
        i += 1;
    }
    assert(out@ =~= opening(files@));
    out
}

/// A file that was dropped on the window.
#[derive(Debug)]
pub struct DroppedFile {
    pub path: String,
    /// What stands behind the last dot of its name.
    pub extension: Option<String>,
}

/// Whether a dropped file holds filters.
pub open spec fn holds_filters(f: DroppedFile) -> bool {
    f.extension matches Some(e) && e@ == "crab-filters"@
}

/// The paths of the dropped files that hold filters, or of the others.
pub open spec fn dropped_paths(files: Seq<DroppedFile>, filters: bool) -> Seq<String>
    decreases files.len(),
{
    if files.len() == 0 {
        Seq::empty()
    } else {
        let before = dropped_paths(files.drop_last(), filters);
        if holds_filters(files.last()) == filters {
            before.push(files.last().path)
        } else {
            before
        }
    }
}

/// Parts dropped files into log files and those that hold filters.
pub fn part_dropped_files(files: &Vec<DroppedFile>) -> (r: (Vec<String>, Vec<String>))
    ensures
        r.0@ == dropped_paths(files@, false),
        r.1@ == dropped_paths(files@, true),
{
    let mut logs: Vec<String> = Vec::new();
    let mut filters: Vec<String> = Vec::new();
    let word = String::from_str("crab-filters");
    let mut i: usize = 0;
    while i < files.len()
        invariant
            i <= files@.len(),
            word@ == "crab-filters"@,
            logs@ == dropped_paths(files@.take(i as int), false),
            filters@ == dropped_paths(files@.take(i as int), true),
        decreases files.len() - i,
    {
        assert(files@.take(i + 1).drop_last() =~= files@.take(i as int));
        let is_filter = match &files[i].extension {
            Some(e) => *e == word,
            None => false,
        };
        let path = files[i].path.clone();
        if is_filter {
            filters.push(path);
        } else {
            logs.push(path);
        }
        i += 1;
    }
    assert(files@.take(i as int) =~= files@);
    (logs, filters)
}

/// What the user is told where filters are dropped on a window without a session.
pub open spec fn no_session_text() -> Seq<char> {
    "Cannot import filters - open a log file first"@
}

/// The tasks to take log files over that were dropped. Where they belong to earlier
/// sessions, the user is asked first.
pub open spec fn log_drop(logs: Seq<String>, has_session: bool, offered: bool) -> Seq<FileTask> {
    if logs.len() == 0 || offered {
        Seq::empty()
    } else if has_session {
        adding(logs)
    } else {
        seq![FileTask::StartSession] + adding(logs)
    }
}

/// Whether there is a session once log files that were dropped are taken over.
pub open spec fn has_session_after(logs: Seq<String>, has_session: bool, offered: bool) -> bool {
    has_session || (logs.len() > 0 && !offered)
}

/// The tasks to take files over that were dropped: first the log files, then the filters,
/// for which there must be a session.
pub fn process_dropped_files(
    logs: &Vec<String>,
    filters: &Vec<String>,
    has_session: bool,
    offered: bool,
) -> (r: Vec<FileTask>)
    ensures
        filters@.len() == 0 ==> r@ == log_drop(logs@, has_session, offered),
        filters@.len() > 0 && has_session_after(logs@, has_session, offered) ==> r@ == log_drop(
            logs@,
            has_session,
            offered,
        ) + importing(filters@),
        filters@.len() > 0 && !has_session_after(logs@, has_session, offered) ==> {
            &&& r@.len() == log_drop(logs@, has_session, offered).len() + 1
            &&& r@.drop_last() == log_drop(logs@, has_session, offered)
            &&& r@.last() matches FileTask::Tell(t) && t@ == no_session_text()
        },
{
    let mut out: Vec<FileTask> = Vec::new();
    let mut session = has_session;
    if logs.len() > 0 && !offered {
        if !session {
            out.push(FileTask::StartSession);
            session = true;
        }
        let mut more = add_files(logs);
        out.append(&mut more);
    }
    let ghost first = log_drop(logs@, has_session, offered);
    assert(out@ =~= first);
    if filters.len() > 0 {
        if session {
            let mut i: usize = 0;
            assert(out@ =~= first + importing(filters@).take(0));
            while i < filters.len()
                invariant
                    i <= filters@.len(),
                    out@ == first + importing(filters@).take(i as int),
                decreases filters.len() - i,
            {
                out.push(FileTask::ImportFilters(filters[i].clone()));
                assert(out@ =~= first + importing(filters@).take(i + 1));
                i += 1;
            }
            assert(importing(filters@).take(i as int) =~= importing(filters@));
        } else {
            out.push(
                FileTask::Tell(String::from_str("Cannot import filters - open a log file first")),
            );
            assert(out@.drop_last() =~= first);
        }
    }
    out
}

/// Whether a path is that of a session file.
pub open spec fn is_crab_path(path: Seq<char>) -> bool {
    path.len() >= 5 && path.skip(path.len() - 5) == ".crab"@
}

/// The path of the log file to which a session file belongs.
pub open spec fn log_path(path: Seq<char>) -> Seq<char>
    decreases path.len(),
{
    if is_crab_path(path) {
        log_path(path.take(path.len() - 5))
    } else {
        path
    }
}

/// The path of the log file to which a path leads, and whether it was that of a session
/// file.
pub fn resolve_log_path(path: &String) -> (r: (String, bool))
    ensures
        r.0@ == log_path(path@),
        r.1 == is_crab_path(path@),
{
    let whole = path.as_str();
    let total: usize = whole.unicode_len();
    let mut n: usize = total;
    let mut stripped = false;
    let word = String::from_str(".crab");
    assert(whole@.take(n as int) =~= whole@);
    loop
        invariant_except_break
            word@ == ".crab"@,
        invariant
            n <= total,
            total == whole@.len(),
            whole@ == path@,
            log_path(whole@.take(n as int)) == log_path(path@),
            stripped ==> is_crab_path(path@),
            !stripped ==> n == total,
        ensures
            !is_crab_path(whole@.take(n as int)),
        decreases n,
    {
        let ghost now = whole@.take(n as int);
        if n < 5 {
            break;
        }
        let end = String::from_str(whole.substring_char(n - 5, n));
        assert(end@ =~= now.skip(now.len() - 5));
        if end != word {
            break;
        }
        assert(is_crab_path(now));
        if !stripped {
            assert(now =~= path@);
        }
        assert(now.take(now.len() - 5) =~= whole@.take(n - 5));
        n = n - 5;
        stripped = true;
    }
    if !stripped {
        assert(whole@.take(n as int) =~= path@);
    }
    let kept = String::from_str(whole.substring_char(0, n));
    assert(kept@ =~= whole@.take(n as int));
    (kept, stripped)
}

/// What the user is told of a file that is not there.
pub open spec fn not_found_text(path: Seq<char>) -> Seq<char> {
    "File not found: "@ + path
}

/// What the user is told of a file that is not there.
pub fn file_not_found(path: &str) -> (r: String)
    ensures
        r@ == not_found_text(path@),
{
    let mut r = String::from_str("File not found: ");
    r.append(path);
    r
}

/// What the user is told where filters cannot be imported; `name` is that of their file.
pub fn import_failed(name: &Option<String>, error: &str) -> (r: String)
    ensures
        r@ == "Failed to import "@ + (match name {
            Some(n) => n@,
            None => "filters"@,
        }) + ": "@ + error@,
{
    let mut r = String::from_str("Failed to import ");
    match name {
        Some(n) => {
            r.append(n.as_str());
        },
        None => {
            r.append("filters");
        },
    }
    r.append(": ");
    r.append(error);
    r
}

/// The name under which a file is loaded.
pub fn job_name(name: &Option<String>) -> (r: String)
    ensures
        r@ == match name {
            Some(n) => n@,
            None => "file"@,
        },
{
    match name {
        Some(n) => n.clone(),
        None => String::from_str("file"),
    }
}

/// The title of the window.
pub open spec fn title_text(names: Seq<Seq<char>>) -> Seq<char> {
    if names.len() == 0 {
        "LogCrab"@
    } else {
        text::join_spec(names, ", "@) + " - LogCrab"@
    }
}

/// The title of the window: the names of all files of the session.
pub fn window_title(names: &Vec<String>) -> (r: String)
    ensures
        r@ == title_text(text::texts(names@)),
{
    if names.len() == 0 {
        String::from_str("LogCrab")
    } else {
        let mut r = text::join(names, ", ");
        r.append(" - LogCrab");
        r
    }
}

/// What is shown while files are held over the window.
pub open spec fn preview_text(paths: Seq<String>) -> Seq<char>
    decreases paths.len(),
{
    if paths.len() == 0 {
        "Drop to open:\n"@
    } else {
        preview_text(paths.drop_last()) + "\n"@ + paths.last()@
    }
}

/// What is shown while files are held over the window.
pub fn drop_preview(paths: &Vec<String>) -> (r: String)
    ensures
        r@ == preview_text(paths@),
{
    let mut r = String::from_str("Drop to open:\n");
    let mut i: usize = 0;
    while i < paths.len()
        invariant
            i <= paths@.len(),
            r@ == preview_text(paths@.take(i as int)),
        decreases paths.len() - i,
    {
        assert(paths@.take(i + 1).drop_last() =~= paths@.take(i as int));
        r.append("\n");
        r.append(paths[i].as_str());
        i += 1;
    }
    assert(paths@.take(i as int) =~= paths@);
    r
}

/// Every dropped file is either a log file or one that holds filters.
pub proof fn no_dropped_file_is_lost(files: Seq<DroppedFile>)
    ensures
        dropped_paths(files, false).len() + dropped_paths(files, true).len() == files.len(),
        forall|i: int|
            0 <= i < files.len() ==> dropped_paths(
                files,
                holds_filters(#[trigger] files[i]),
            ).contains(files[i].path),
    decreases files.len(),
{
    if files.len() > 0 {
        let front = files.drop_last();
        no_dropped_file_is_lost(front);
        assert forall|i: int| 0 <= i < files.len() implies dropped_paths(
            files,
            holds_filters(#[trigger] files[i]),
        ).contains(files[i].path) by {
            let kind = holds_filters(files[i]);
            let now = dropped_paths(files, kind);
            if i < front.len() {
                let before = dropped_paths(front, kind);
                assert(front[i] == files[i]);
                let k = choose|k: int| 0 <= k < before.len() && before[k] == files[i].path;
                assert(now[k] == before[k]);
            } else {
                assert(now[now.len() - 1] == files[i].path);
            }
        }
    }
}

/// Every file gets one task, in the order of the files; where files are opened as a new
/// session, that is begun first.
pub proof fn every_file_gets_its_task(files: Seq<String>, i: int)
    requires
        0 <= i < files.len(),
    ensures
        adding(files).len() == files.len() && adding(files)[i] == FileTask::Add(files[i]),
        adding_if_there(files).len() == files.len() && adding_if_there(files)[i]
            == FileTask::AddIfThere(files[i]),
        importing(files).len() == files.len() && importing(files)[i] == FileTask::ImportFilters(
            files[i],
        ),
        opening(files).len() == files.len() + 1 && opening(files)[0] is StartSession && opening(
            files,
        )[i + 1] == FileTask::AddOrTell(files[i]),
{
}

/// A dropped file is taken for filters just where its name ends so, and each of the two
/// lists holds only paths of its own kind of file.
pub proof fn dropped_files_are_told_by_their_ending(files: Seq<DroppedFile>, filters: bool, k: int)
    requires
        0 <= k < dropped_paths(files, filters).len(),
    ensures
        exists|i: int|
            {
                &&& 0 <= i < files.len()
                &&& (#[trigger] files[i]).path == dropped_paths(files, filters)[k]
                &&& (files[i].extension matches Some(e) && e@ == "crab-filters"@) == filters
            },
    decreases files.len(),
{
    let front = files.drop_last();
    let before = dropped_paths(front, filters);
    if k < before.len() {
        dropped_files_are_told_by_their_ending(front, filters, k);
        let i = choose|i: int|
            {
                &&& 0 <= i < front.len()
                &&& (#[trigger] front[i]).path == before[k]
                &&& (front[i].extension matches Some(e) && e@ == "crab-filters"@) == filters
            };
        assert(files[i] == front[i]);
    } else {
        assert(files[files.len() - 1] == files.last());
    }
}

/// Dropped files of one kind keep their order: a file that is dropped behind others comes
/// last, and one of the other kind changes nothing.
pub proof fn dropped_files_keep_their_order(files: Seq<DroppedFile>, f: DroppedFile)
    ensures
        (f.extension matches Some(e) && e@ == "crab-filters"@) ==> {
            &&& dropped_paths(files.push(f), true) == dropped_paths(files, true).push(f.path)
            &&& dropped_paths(files.push(f), false) == dropped_paths(files, false)
        },
        !(f.extension matches Some(e) && e@ == "crab-filters"@) ==> {
            &&& dropped_paths(files.push(f), false) == dropped_paths(files, false).push(f.path)
            &&& dropped_paths(files.push(f), true) == dropped_paths(files, true)
        },
{
    assert(files.push(f).drop_last() =~= files);
}

/// Log files that are dropped are added to the session, or to a new one where there is
/// none; nothing is done with them while the user is asked, and then only an earlier
/// session counts.
pub proof fn dropped_logs_are_added(logs: Seq<String>, has_session: bool, offered: bool)
    ensures
        offered || logs.len() == 0 ==> {
            &&& log_drop(logs, has_session, offered).len() == 0
            &&& has_session_after(logs, has_session, offered) == has_session
        },
        !offered && logs.len() > 0 ==> {
            let tasks = log_drop(logs, has_session, offered);
            let first: int = if has_session {
                0
            } else {
                1
            };
            &&& tasks.len() == first + logs.len()
            &&& !has_session ==> tasks[0] is StartSession
            &&& forall|i: int|
                0 <= i < logs.len() ==> tasks[first + i] == FileTask::Add(#[trigger] logs[i])
            &&& has_session_after(logs, has_session, offered)
        },
{
}

/// The path of a session file leads to that of its log file: the ending is taken off, as
/// often as it stands there, and nothing else. A path without it stays as it is.
pub proof fn session_paths_lead_to_logs(path: Seq<char>)
    ensures
        is_crab_path(path + ".crab"@),
        log_path(path + ".crab"@) == log_path(path),
        is_crab_path(crate::store::crab::crab_name(path)),
        log_path(crate::store::crab::crab_name(path)) == log_path(path),
        !is_crab_path(path) ==> log_path(path) == path && log_path(path + ".crab"@) == path,
        is_crab_path(path) ==> path.len() >= 5 && path == path.take(path.len() - 5) + ".crab"@,
        !is_crab_path(log_path(path)),
        log_path(path).len() <= path.len(),
        log_path(path) == path.take(log_path(path).len() as int),
    decreases path.len(),
{
    reveal_strlit(".crab");
    let longer = path + ".crab"@;
    assert(longer.skip(longer.len() - 5) =~= ".crab"@);
    assert(longer.take(longer.len() - 5) =~= path);
    if is_crab_path(path) {
        let shorter = path.take(path.len() - 5);
        session_paths_lead_to_logs(shorter);
        assert(path =~= shorter + ".crab"@);
        assert(shorter.take(log_path(shorter).len() as int) =~= path.take(
            log_path(shorter).len() as int,
        ));
    } else {
        assert(path.take(path.len() as int) =~= path);
    }
}

/// The user is told of files by their names and paths.
pub proof fn files_are_told_by_name(path: String, paths: Seq<String>, names: Seq<Seq<char>>)
    ensures
        no_session_text() == "Cannot import filters - open a log file first"@,
        not_found_text(path@) == "File not found: "@ + path@,
        preview_text(Seq::empty()) == "Drop to open:\n"@,
        preview_text(paths.push(path)) == preview_text(paths) + "\n"@ + path@,
        names.len() == 0 ==> title_text(names) == "LogCrab"@,
        names.len() > 0 ==> title_text(names) == text::join_spec(names, ", "@) + " - LogCrab"@,
{
    assert(paths.push(path).drop_last() =~= paths);
}

} // verus!
