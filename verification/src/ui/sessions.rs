//! Earlier sessions, and whether they are opened again.

use super::files;
use super::files::FileTask;
use crate::text;
use vstd::prelude::*;

verus! {

/// An earlier session.
#[derive(Debug)]
pub struct RecordedSession {
    /// The paths of its files.
    pub files: Vec<String>,
    /// The text under which it is shown.
    pub label: String,
    /// When it was last used.
    pub last_used: String,
}

/// An offer to open an earlier session in place of the files that the user asked for.
#[derive(Debug)]
pub struct PendingSessionOffer {
    /// The paths of the files that the user asked for.
    pub files: Vec<String>,
    /// Earlier sessions with one of those files.
    pub matching_sessions: Vec<RecordedSession>,
}

/// What the user answers to an offer.
#[derive(Debug, Clone, Copy, PartialEq, Eq, Structural)]
pub enum SessionOfferAction {
    JustTheFiles,
    /// Open a session in place of the present one.
    RestoreSession(usize),
    /// Add the files of a session to the present one.
    MergeSession(usize),
    Cancel,
}

/// Which earlier sessions are offered, of those that hold the files that the user asked
/// for, file by file: not one with just those files, none twice, and none of which a file
/// is gone.
pub open spec fn offered(
    candidates: Seq<usize>,
    as_requested: Seq<bool>,
    all_there: Seq<bool>,
    same_files: Seq<Vec<bool>>,
) -> Seq<usize>
    decreases candidates.len(),
{
    if candidates.len() == 0 {
        Seq::empty()
    } else {
        let before = offered(candidates.drop_last(), as_requested, all_there, same_files);
        let s = candidates.last();
        if !as_requested[s as int] && all_there[s as int] && !is_among(before, s, same_files) {
            before.push(s)
        } else {
            before
        }
    }
}

/// Whether a session has the same files as one of others.
pub open spec fn is_among(sessions: Seq<usize>, s: usize, same_files: Seq<Vec<bool>>) -> bool {
    exists|k: int|
        0 <= k < sessions.len() && same_files[#[trigger] sessions[k] as int]@[s as int]
}

/// Whether numbers are those of sessions of which facts are known.
pub open spec fn are_known(
    candidates: Seq<usize>,
    as_requested: Seq<bool>,
    all_there: Seq<bool>,
    same_files: Seq<Vec<bool>>,
) -> bool {
    let n = as_requested.len();
    &&& all_there.len() == n
    &&& same_files.len() == n
    &&& forall|i: int| 0 <= i < n ==> (#[trigger] same_files[i])@.len() == n
    &&& forall|i: int| 0 <= i < candidates.len() ==> (#[trigger] candidates[i]) < n
}

fn contains_same(sessions: &Vec<usize>, s: usize, same_files: &Vec<Vec<bool>>) -> (r: bool)
    requires
        s < same_files@.len(),
        forall|i: int| 0 <= i < sessions@.len() ==> (#[trigger] sessions@[i]) < same_files@.len(),
        forall|i: int|
            0 <= i < same_files@.len() ==> (#[trigger] same_files@[i])@.len() == same_files@.len(),
    ensures
        r == is_among(sessions@, s, same_files@),
{
    let mut k: usize = 0;
    while k < sessions.len()
        invariant
            k <= sessions@.len(),
            s < same_files@.len(),
            forall|i: int|
                0 <= i < sessions@.len() ==> (#[trigger] sessions@[i]) < same_files@.len(),
            forall|i: int|
                0 <= i < same_files@.len() ==> (#[trigger] same_files@[i])@.len()
                    == same_files@.len(),
            forall|i: int| 0 <= i < k ==> !same_files@[#[trigger] sessions@[i] as int]@[s as int],
        decreases sessions.len() - k,
    {
        let m: usize = sessions[k];
        assert(same_files@[m as int]@.len() == same_files@.len());
        if same_files[m][s] {
            assert(same_files@[sessions@[k as int] as int]@[s as int]);
            return true;
        }
        k += 1;
    }
    false
}

/// Decides which earlier sessions are offered.
///
/// The lists say of each session whether it has just the files that the user asked for,
/// whether all its files are there, and which sessions have the same files.
pub fn offered_sessions(
    candidates: &Vec<usize>,
    as_requested: &Vec<bool>,
    all_there: &Vec<bool>,
    same_files: &Vec<Vec<bool>>,
) -> (r: Vec<usize>)
    requires
        are_known(candidates@, as_requested@, all_there@, same_files@),
    ensures
        r@ == offered(candidates@, as_requested@, all_there@, same_files@),
{
    let mut out: Vec<usize> = Vec::new();
    let mut i: usize = 0;
    while i < candidates.len()
        invariant
            i <= candidates@.len(),
            are_known(candidates@, as_requested@, all_there@, same_files@),
            out@ == offered(candidates@.take(i as int), as_requested@, all_there@, same_files@),
            forall|k: int| 0 <= k < out@.len() ==> (#[trigger] out@[k]) < as_requested@.len(),
        decreases candidates.len() - i,
    {
        assert(candidates@.take(i + 1).drop_last() =~= candidates@.take(i as int));
        let s: usize = candidates[i];
        assert(candidates@[i as int] < as_requested@.len());
        if !as_requested[s] && all_there[s] && !contains_same(&out, s, same_files) {
            out.push(s);
        }
        i += 1;
    }
    assert(candidates@.take(i as int) =~= candidates@);
    out
}

/// No session is offered that has just the files that the user asked for, of which a file
/// is gone, or that has the same files as one offered before it.
pub proof fn offers_are_useful(
    candidates: Seq<usize>,
    as_requested: Seq<bool>,
    all_there: Seq<bool>,
    same_files: Seq<Vec<bool>>,
)
    ensures
        ({
            let r = offered(candidates, as_requested, all_there, same_files);
            &&& forall|i: int|
                0 <= i < r.len() ==> !as_requested[#[trigger] r[i] as int]
                    && all_there[r[i] as int]
            &&& forall|i: int, j: int|
                0 <= i < j < r.len() ==> !same_files[#[trigger] r[i] as int]@[
                #[trigger] r[j] as int]
        }),
    decreases candidates.len(),
{
    if candidates.len() > 0 {
        offers_are_useful(candidates.drop_last(), as_requested, all_there, same_files);
        let before = offered(candidates.drop_last(), as_requested, all_there, same_files);
        let r = offered(candidates, as_requested, all_there, same_files);
        let s = candidates.last();
        if r.len() > before.len() {
            assert(!is_among(before, s, same_files));
            assert forall|i: int, j: int| 0 <= i < j < r.len() implies !same_files[
            #[trigger] r[i] as int]@[#[trigger] r[j] as int] by {
                if j == before.len() {
                    assert(r[i] == before[i]);
                    assert(!same_files[before[i] as int]@[s as int]);
                } else {
                    assert(r[i] == before[i] && r[j] == before[j]);
                }
            }
        }
    }
}

/// The tasks that an answer to an offer leads to.
pub open spec fn answered(
    offer: PendingSessionOffer,
    action: SessionOfferAction,
    has_session: bool,
) -> Seq<FileTask> {
    match action {
        SessionOfferAction::JustTheFiles => if has_session {
            files::adding(offer.files@)
        } else {
            files::opening(offer.files@)
        },
        SessionOfferAction::RestoreSession(i) => files::opening(
            offer.matching_sessions@[i as int].files@,
        ),
        SessionOfferAction::MergeSession(i) => {
            let added = files::adding_if_there(offer.matching_sessions@[i as int].files@);
            if has_session {
                added
            } else {
                seq![FileTask::StartSession] + added
            }
        },
        SessionOfferAction::Cancel => Seq::empty(),
    }
}

/// Whether an answer is one to an offer.
pub open spec fn is_answer(offer: PendingSessionOffer, action: SessionOfferAction) -> bool {
    match action {
        SessionOfferAction::RestoreSession(i) => i < offer.matching_sessions@.len(),
        SessionOfferAction::MergeSession(i) => i < offer.matching_sessions@.len(),
        _ => true,
    }
}

impl PendingSessionOffer {
    /// Decides what an answer leads to.
    pub fn answer(&self, action: SessionOfferAction, has_session: bool) -> (r: Vec<FileTask>)
        requires
            is_answer(*self, action),
        ensures
            r@ == answered(*self, action, has_session),
    {
        match action {
            SessionOfferAction::JustTheFiles => {
                if has_session {
                    files::add_files(&self.files)
                } else {
                    files::open_files_as_new_session(&self.files)
                }
            },
            SessionOfferAction::RestoreSession(i) => files::open_files_as_new_session(
                &self.matching_sessions[i].files,
            ),
            SessionOfferAction::MergeSession(i) => {
                let mut added = files::add_files_if_there(&self.matching_sessions[i].files);
                if has_session {
                    added
                } else {
                    let mut out: Vec<FileTask> = Vec::new();
                    out.push(FileTask::StartSession);
                    out.append(&mut added);
                    assert(out@ =~= answered(*self, action, has_session));
                    out
                }
            },
            SessionOfferAction::Cancel => Vec::new(),
        }
    }
}

/// What the user is asked, by the names of the files that they asked for.
pub open spec fn question_text(names: Seq<Seq<char>>) -> Seq<char> {
    "The file(s) you selected ("@ + text::join_spec(names, ", "@)
        + ") appeared in previous sessions."@
}

/// What the user is asked, by the names of the files that they asked for.
pub fn offer_question(names: &Vec<String>) -> (r: String)
    ensures
        r@ == question_text(text::texts(names@)),
{
    let label = text::join(names, ", ");
    let mut r = String::from_str("The file(s) you selected (");
    r.append(label.as_str());
    r.append(") appeared in previous sessions.");
    r
}

/// The label of the answer that opens just the files.
pub fn just_the_files_label(names: &Vec<String>) -> (r: String)
    ensures
        r@ == "Open only: "@ + text::join_spec(text::texts(names@), ", "@),
{
    let label = text::join(names, ", ");
    let mut r = String::from_str("Open only: ");
    r.append(label.as_str());
    r
}

impl RecordedSession {
    /// The text of the session in a list.
    pub open spec fn entry_text(&self) -> Seq<char> {
        self.label@ + "  ("@ + self.last_used@ + ")"@
    }

    /// The text of the session in a list.
    pub fn entry(&self) -> (r: String)
        ensures
            r@ == self.entry_text(),
    {
        let mut r = self.label.clone();
        r.append("  (");
        r.append(self.last_used.as_str());
        r.append(")");
        r
    }

    /// The paths of all files, one in a line.
    pub open spec fn paths_text(&self) -> Seq<char> {
        text::join_spec(text::texts(self.files@), "\n"@)
    }

    /// The paths of all files, one in a line.
    pub fn tooltip(&self) -> (r: String)
        ensures
            r@ == self.paths_text(),
    {
        text::join(&self.files, "\n")
    }

    /// The paths of all files, under a heading.
    pub fn tooltip_under(&self, heading: &str) -> (r: String)
        ensures
            r@ == heading@ + "\n"@ + self.paths_text(),
    {
        let paths = self.tooltip();
        let mut r = String::from_str(heading);
        r.append("\n");
        r.append(paths.as_str());
        r
    }

    /// The paths of all files, and when the session was last used.
    pub fn welcome_tooltip(&self) -> (r: String)
        ensures
            r@ == self.paths_text() + "\n\nLast used: "@ + self.last_used@,
    {
        let mut r = self.tooltip();
        r.append("\n\nLast used: ");
        r.append(self.last_used.as_str());
        r
    }
}

/// Decides whether the files of a session are kept in the history: one without files is
/// not.
pub fn is_recorded(paths: &Vec<String>) -> (r: bool)
    ensures
        r == (paths@.len() > 0),
{
    paths.len() > 0
}

/// Every earlier session that could be of use is offered, or one with the same files is
/// that was found before it; nothing is offered that was not found.
pub proof fn useful_sessions_are_offered(
    candidates: Seq<usize>,
    as_requested: Seq<bool>,
    all_there: Seq<bool>,
    same_files: Seq<Vec<bool>>,
    i: int,
)
    requires
        0 <= i < candidates.len(),
        !as_requested[candidates[i] as int],
        all_there[candidates[i] as int],
    ensures
        offered(candidates, as_requested, all_there, same_files).contains(candidates[i])
            || exists|k: int|
            0 <= k < offered(candidates, as_requested, all_there, same_files).len()
                && same_files[#[trigger] offered(
                candidates,
                as_requested,
                all_there,
                same_files,
            )[k] as int]@[candidates[i] as int],
    decreases candidates.len(),
{
    let front = candidates.drop_last();
    let before = offered(front, as_requested, all_there, same_files);
    let now = offered(candidates, as_requested, all_there, same_files);
    let s = candidates[i];
    assert(forall|k: int| 0 <= k < before.len() ==> now[k] == before[k]);
    if i < front.len() {
        assert(front[i] == s);
        useful_sessions_are_offered(front, as_requested, all_there, same_files, i);
        if before.contains(s) {
            let k = choose|k: int| 0 <= k < before.len() && before[k] == s;
            assert(now[k] == s);
        } else {
            let k = choose|k: int|
                0 <= k < before.len() && same_files[#[trigger] before[k] as int]@[s as int];
            assert(now[k] == before[k]);
            assert(same_files[now[k] as int]@[s as int]);
        }
    } else {
        if is_among(before, s, same_files) {
            let k = choose|k: int|
                0 <= k < before.len() && same_files[#[trigger] before[k] as int]@[s as int];
            assert(now[k] == before[k]);
            assert(same_files[now[k] as int]@[s as int]);
        } else {
            assert(now[now.len() - 1] == s);
        }
    }
}

/// Only sessions that were found are offered.
pub proof fn only_found_sessions_are_offered(
    candidates: Seq<usize>,
    as_requested: Seq<bool>,
    all_there: Seq<bool>,
    same_files: Seq<Vec<bool>>,
    k: int,
)
    requires
        0 <= k < offered(candidates, as_requested, all_there, same_files).len(),
    ensures
        candidates.contains(offered(candidates, as_requested, all_there, same_files)[k]),
    decreases candidates.len(),
{
    let front = candidates.drop_last();
    let before = offered(front, as_requested, all_there, same_files);
    if k < before.len() {
        only_found_sessions_are_offered(front, as_requested, all_there, same_files, k);
        let i = choose|i: int| 0 <= i < front.len() && front[i] == before[k];
        assert(candidates[i] == before[k]);
    } else {
        assert(candidates[candidates.len() - 1] == candidates.last());
    }
}

/// An answer to an offer does what it says: nothing where the user wants neither; the files
/// that they asked for, in the present session or in a new one; the files of the earlier
/// session in a new one; or those files, where they are still there, beside what is open.
pub proof fn answers_do_what_they_say(
    offer: PendingSessionOffer,
    action: SessionOfferAction,
    has_session: bool,
    k: int,
)
    requires
        is_answer(offer, action),
    ensures
        action is Cancel ==> answered(offer, action, has_session).len() == 0,
        action is JustTheFiles && has_session ==> {
            &&& answered(offer, action, has_session).len() == offer.files@.len()
            &&& 0 <= k < offer.files@.len() ==> answered(offer, action, has_session)[k]
                == FileTask::Add(offer.files@[k])
        },
        action is JustTheFiles && !has_session ==> {
            &&& answered(offer, action, has_session).len() == offer.files@.len() + 1
            &&& answered(offer, action, has_session)[0] is StartSession
            &&& 0 <= k < offer.files@.len() ==> answered(offer, action, has_session)[k + 1]
                == FileTask::AddOrTell(offer.files@[k])
        },
        action matches SessionOfferAction::RestoreSession(i) ==> {
            let files = offer.matching_sessions@[i as int].files@;
            &&& i < offer.matching_sessions@.len()
            &&& answered(offer, action, has_session).len() == files.len() + 1
            &&& answered(offer, action, has_session)[0] is StartSession
            &&& 0 <= k < files.len() ==> answered(offer, action, has_session)[k + 1]
                == FileTask::AddOrTell(files[k])
        },
        action matches SessionOfferAction::MergeSession(i) ==> {
            let files = offer.matching_sessions@[i as int].files@;
            let first: int = if has_session {
                0
            } else {
                1
            };
            &&& i < offer.matching_sessions@.len()
            &&& answered(offer, action, has_session).len() == first + files.len()
            &&& !has_session ==> answered(offer, action, has_session)[0] is StartSession
            &&& 0 <= k < files.len() ==> answered(offer, action, has_session)[first + k]
                == FileTask::AddIfThere(files[k])
        },
{
}

/// Sessions are shown by their names, the day of their last use and their paths.
pub proof fn sessions_are_shown_by_name(s: RecordedSession, names: Seq<Seq<char>>)
    ensures
        question_text(names) == "The file(s) you selected ("@ + text::join_spec(names, ", "@)
            + ") appeared in previous sessions."@,
        s.entry_text() == s.label@ + "  ("@ + s.last_used@ + ")"@,
        s.paths_text() == text::join_spec(text::texts(s.files@), "\n"@),
{
}

} // verus!
