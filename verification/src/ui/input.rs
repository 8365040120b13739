//! Keys, and what they do.

use vstd::prelude::*;

verus! {

/// Where a pane lies from another.
#[derive(Debug, Clone, Copy, PartialEq, Eq, Structural)]
pub enum PaneDirection {
    Left,
    Right,
    Up,
    Down,
}

/// What a shortcut does.
#[derive(Debug, Clone, Copy, PartialEq, Eq, Structural)]
pub enum ShortcutAction {
    ToggleBookmark,
    FocusSearch,
    NewFilterTab,
    NewBookmarksTab,
    CloseTab,
    CycleTab,
    ReverseCycleTab,
    JumpToTop,
    JumpToBottom,
    PageUp,
    PageDown,
    OpenFile,
    RenameFilter,
    MoveUp,
    MoveDown,
    FocusPaneLeft,
    FocusPaneDown,
    FocusPaneUp,
    FocusPaneRight,
}

/// The keys that are held with another.
#[derive(Debug, Clone, Copy, PartialEq, Eq, Structural)]
pub struct KeyModifiers {
    pub ctrl: bool,
    pub alt: bool,
    pub command: bool,
}

/// The colours that filters and highlights get, in turn: red, green and blue.
pub open spec fn palette() -> Seq<(u8, u8, u8)> {
    seq![
        (230u8, 190u8, 50u8),
        (80u8, 140u8, 200u8),
        (80u8, 180u8, 120u8),
        (210u8, 130u8, 80u8),
        (180u8, 100u8, 180u8),
        (60u8, 160u8, 160u8),
        (210u8, 90u8, 90u8),
        (140u8, 110u8, 200u8),
    ]
}

/// The colours that filters and highlights get, in turn: red, green and blue.
pub fn default_palette() -> (r: Vec<(u8, u8, u8)>)
    ensures
        r@ == palette(),
{
    let r: Vec<(u8, u8, u8)> = vec![
        (230, 190, 50),
        (80, 140, 200),
        (80, 180, 120),
        (210, 130, 80),
        (180, 100, 180),
        (60, 160, 160),
        (210, 90, 90),
        (140, 110, 200),
    ];
    assert(r@ =~= palette());
    r
}

/// Whether a key is pressed with one that makes it a command.
pub open spec fn is_command(m: KeyModifiers) -> bool {
    m.ctrl || m.alt || m.command
}

/// Decides whether keys are left to a text field: it has the focus, and no key is pressed
/// with one that makes it a command.
pub fn leaves_keys_to_text(text_has_focus: bool, keys: &Vec<KeyModifiers>) -> (r: bool)
    ensures
        r == (text_has_focus && forall|i: int|
            0 <= i < keys@.len() ==> !is_command(#[trigger] keys@[i])),
{
    if !text_has_focus {
        return false;
    }
    let mut i: usize = 0;
    while i < keys.len()
        invariant
            i <= keys@.len(),
            forall|k: int| 0 <= k < i ==> !is_command(#[trigger] keys@[k]),
        decreases keys.len() - i,
    {
        let m = keys[i];
        if m.ctrl || m.alt || m.command {
            assert(is_command(keys@[i as int]));
            return false;
        }
        i += 1;
    }
    true
}

/// How often shortcuts ask for a file to be opened.
pub open spec fn open_requests(actions: Seq<ShortcutAction>) -> nat
    decreases actions.len(),
{
    if actions.len() == 0 {
        0
    } else {
        open_requests(actions.drop_last()) + if actions.last() is OpenFile {
            1nat
        } else {
            0nat
        }
    }
}

/// How often shortcuts ask for a file to be opened. The others are those of the session.
pub fn count_open_requests(actions: &Vec<ShortcutAction>) -> (r: usize)
    ensures
        r == open_requests(actions@),
{
    let mut n: usize = 0;
    let mut i: usize = 0;
    while i < actions.len()
        invariant
            i <= actions@.len(),
            n <= i,
            n == open_requests(actions@.take(i as int)),
        decreases actions.len() - i,
    {
        assert(actions@.take(i + 1).drop_last() =~= actions@.take(i as int));
        if matches!(actions[i], ShortcutAction::OpenFile) {
            n += 1;
        }
        i += 1;
    }
    assert(actions@.take(i as int) =~= actions@);
    n
}

/// Whether a place is among others.
pub open spec fn is_named(places: Seq<usize>, i: int) -> bool {
    exists|k: int| 0 <= k < places.len() && #[trigger] places[k] == i
}

/// The first `n` entries of a list but those at places.
pub open spec fn others<T>(s: Seq<T>, places: Seq<usize>, n: nat) -> Seq<T>
    decreases n,
{
    if n == 0 {
        Seq::empty()
    } else {
        let before = others(s, places, (n - 1) as nat);
        if is_named(places, n - 1) {
            before
        } else {
            before.push(s[n - 1])
        }
    }
}

/// Whether numbers grow.
pub open spec fn grow(places: Seq<usize>) -> bool {
    forall|i: int, j: int|
        0 <= i < j < places.len() ==> #[trigger] places[i] < #[trigger] places[j]
}

proof fn lemma_others_prefix<T>(s: Seq<T>, t: Seq<T>, p: Seq<usize>, q: Seq<usize>, n: nat)
    requires
        n <= s.len(),
        n <= t.len(),
        forall|i: int| 0 <= i < n ==> s[i] == t[i],
        forall|i: int| 0 <= i < n ==> #[trigger] is_named(p, i) == is_named(q, i),
    ensures
        others(s, p, n) == others(t, q, n),
    decreases n,
{
    if n > 0 {
        lemma_others_prefix(s, t, p, q, (n - 1) as nat);
    }
}

proof fn lemma_others_shift<T>(s: Seq<T>, places: Seq<usize>, n: nat)
    requires
        places.len() > 0,
        grow(places),
        places.last() < n <= s.len(),
    ensures
        others(s, places, n) == others(
            s.remove(places.last() as int),
            places.drop_last(),
            (n - 1) as nat,
        ),
    decreases n,
{
    let last = places.last() as int;
    let front = places.drop_last();
    let t = s.remove(last);
    if n - 1 == last {
        assert(places[places.len() - 1] == n - 1);
        assert forall|i: int| 0 <= i < n - 1 implies #[trigger] is_named(places, i) == is_named(
            front,
            i,
        ) by {
            if is_named(places, i) {
                let k = choose|k: int| 0 <= k < places.len() && #[trigger] places[k] == i;
                assert(k < places.len() - 1);
                assert(front[k] == i);
            }
            if is_named(front, i) {
                let k = choose|k: int| 0 <= k < front.len() && #[trigger] front[k] == i;
                assert(places[k] == i);
            }
        }
        lemma_others_prefix(s, t, places, front, (n - 1) as nat);
    } else {
        lemma_others_shift(s, places, (n - 1) as nat);
        assert(!is_named(places, n - 1)) by {
            assert forall|k: int| 0 <= k < places.len() implies #[trigger] places[k] != n - 1 by {
                if k < places.len() - 1 {
                    assert(places[k] < places[places.len() - 1]);
                }
            }
        }
        assert(!is_named(front, n - 2)) by {
            assert forall|k: int| 0 <= k < front.len() implies #[trigger] front[k] != n - 2 by {
                assert(places[k] < places[places.len() - 1]);
            }
        }
        assert(t[n - 2] == s[n - 1]);
    }
}

proof fn lemma_others_all<T>(s: Seq<T>, n: nat)
    requires
        n <= s.len(),
    ensures
        others(s, Seq::empty(), n) == s.take(n as int),
    decreases n,
{
    if n > 0 {
        lemma_others_all(s, (n - 1) as nat);
        assert(s.take(n as int) =~= s.take(n - 1).push(s[n - 1]));
    } else {
        assert(s.take(0) =~= Seq::empty());
    }
}

/// Takes the events out that shortcuts have used up.
pub fn remove_consumed<T>(events: &mut Vec<T>, consumed: &Vec<usize>)
    requires
        grow(consumed@),
        forall|i: int| 0 <= i < consumed@.len() ==> #[trigger] consumed@[i] < old(events)@.len(),
    ensures
        final(events)@ == others(old(events)@, consumed@, old(events)@.len()),
{
    let ghost all = events@;
    let mut i: usize = consumed.len();
    assert(consumed@.take(i as int) =~= consumed@);
    while i > 0
        invariant
            i <= consumed@.len(),
            grow(consumed@),
            events@.len() == all.len() - (consumed@.len() - i),
            forall|k: int| 0 <= k < i ==> #[trigger] consumed@[k] < events@.len(),
            others(events@, consumed@.take(i as int), events@.len()) == others(
                all,
                consumed@,
                all.len(),
            ),
        decreases i,
    {
        let ghost now = events@;
        let ghost places = consumed@.take(i as int);
        let at: usize = consumed[i - 1];
        events.remove(at);
        proof {
            assert(places.last() == at);
            assert(grow(places)) by {
                assert forall|a: int, b: int| 0 <= a < b < places.len() implies #[trigger] places[a]
                    < #[trigger] places[b] by {
                    assert(consumed@[a] < consumed@[b]);
                }
            }
            lemma_others_shift(now, places, now.len());
            assert(places.drop_last() =~= consumed@.take(i - 1));
            assert forall|k: int| 0 <= k < i - 1 implies #[trigger] consumed@[k]
                < events@.len() by {
                assert(consumed@[k] < consumed@[i - 1]);
            }
        }
        i -= 1;
    }
    proof {
        assert(consumed@.take(0) =~= Seq::empty());
        lemma_others_all(events@, events@.len());
        assert(events@.take(events@.len() as int) =~= events@);
    }
}

/// There are eight colours, no two alike.
pub proof fn colours_are_told_apart()
    ensures
        palette().len() == 8,
        palette().no_duplicates(),
        palette()[0] == (230u8, 190u8, 50u8),
        palette()[1] == (80u8, 140u8, 200u8),
        palette()[2] == (80u8, 180u8, 120u8),
        palette()[3] == (210u8, 130u8, 80u8),
        palette()[4] == (180u8, 100u8, 180u8),
        palette()[5] == (60u8, 160u8, 160u8),
        palette()[6] == (210u8, 90u8, 90u8),
        palette()[7] == (140u8, 110u8, 200u8),
{
}

/// Each of the three keys alone makes a command, and without them there is none.
pub proof fn any_modifier_makes_a_command(m: KeyModifiers)
    ensures
        m.ctrl ==> is_command(m),
        m.alt ==> is_command(m),
        m.command ==> is_command(m),
        !m.ctrl && !m.alt && !m.command ==> !is_command(m),
{
}

/// Each shortcut that opens a file counts once, wherever it stands, and no other counts.
pub proof fn each_request_counts_once(
    actions: Seq<ShortcutAction>,
    action: ShortcutAction,
    others: Seq<ShortcutAction>,
)
    ensures
        open_requests(Seq::empty()) == 0,
        action is OpenFile ==> open_requests(actions.push(action)) == open_requests(actions) + 1,
        !(action is OpenFile) ==> open_requests(actions.push(action)) == open_requests(actions),
        open_requests(actions + others) == open_requests(actions) + open_requests(others),
    decreases others.len(),
{
    assert(actions.push(action).drop_last() =~= actions);
    if others.len() > 0 {
        each_request_counts_once(actions, action, others.drop_last());
        assert((actions + others).drop_last() =~= actions + others.drop_last());
        assert((actions + others).last() == others.last());
    } else {
        assert(actions + others =~= actions);
    }
}

/// Events that were used up are gone, one for each place, and all others stay in their
/// order: taking several out is taking them out one by one from the last, and taking none
/// out changes nothing.
pub proof fn used_events_are_taken_out<T>(s: Seq<T>, places: Seq<usize>)
    requires
        forall|i: int, j: int| 0 <= i < j < places.len() ==> places[i] < places[j],
        forall|i: int| 0 <= i < places.len() ==> #[trigger] places[i] < s.len(),
    ensures
        others(s, Seq::empty(), s.len()) == s,
        others(s, places, s.len()).len() == s.len() - places.len(),
        places.len() > 0 ==> others(s, places, s.len()) == others(
            s.remove(places.last() as int),
            places.drop_last(),
            (s.len() - 1) as nat,
        ),
        forall|i: int|
            0 <= i < s.len() && !places.contains(i as usize) && i <= usize::MAX ==> others(
                s,
                places,
                s.len(),
            ).contains(#[trigger] s[i]),
    decreases places.len(),
{
    lemma_others_all(s, s.len());
    assert(s.take(s.len() as int) =~= s);
    if places.len() == 0 {
        assert(places =~= Seq::empty());
        assert forall|i: int|
            0 <= i < s.len() && !places.contains(i as usize) && i <= usize::MAX implies others(
            s,
            places,
            s.len(),
        ).contains(#[trigger] s[i]) by {}
    } else {
        let last = places.last() as int;
        let front = places.drop_last();
        let t = s.remove(last);
        assert(places[places.len() - 1] < s.len());
        assert(grow(places));
        lemma_others_shift(s, places, s.len());
        assert forall|i: int| 0 <= i < front.len() implies #[trigger] front[i] < t.len() by {
            assert(places[i] < places[places.len() - 1]);
        }
        used_events_are_taken_out(t, front);
        let r = others(t, front, t.len());
        assert forall|i: int|
            0 <= i < s.len() && !places.contains(i as usize) && i <= usize::MAX implies others(
            s,
            places,
            s.len(),
        ).contains(#[trigger] s[i]) by {
            assert(places[places.len() - 1] == last);
            assert(i != last);
            let k: int = if i < last {
                i
            } else {
                i - 1
            };
            assert(t[k] == s[i]);
            if front.contains(k as usize) {
                let j = choose|j: int| 0 <= j < front.len() && front[j] == k as usize;
                assert(places[j] == k as usize);
                assert(places[j] < places[places.len() - 1]);
            }
            assert(r.contains(t[k]));
        }
    }
}

} // verus!
