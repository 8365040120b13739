//! When the applications of control units were started.

use crate::text;
use crate::time::Timestamp;
use dashmap::DashMap;
use vstd::prelude::*;

verus! {

/// An application of a control unit, by the names of both.
pub type AppKey = (Seq<char>, Seq<char>);

/// Start times by application.
pub type BootMap = Map<AppKey, Timestamp>;

/// The start times that a map holds.
pub uninterp spec fn boot_entries(m: DashMap<(String, String), Timestamp>) -> BootMap;

/// The names and the time of an entry.
pub open spec fn entry_view(e: ((String, String), Timestamp)) -> (AppKey, Timestamp) {
    ((e.0.0@, e.0.1@), e.1)
}

/// Whether a list holds each entry of a map once.
pub open spec fn is_listing(m: BootMap, list: Seq<(AppKey, Timestamp)>) -> bool {
    &&& forall|i: int|
        0 <= i < list.len() ==> m.contains_key((#[trigger] list[i]).0) && m[list[i].0] == list[i].1
    &&& forall|k: AppKey| #[trigger]
        m.contains_key(k) ==> exists|i: int| 0 <= i < list.len() && (#[trigger] list[i]).0 == k
    &&& forall|i: int, j: int|
        0 <= i < j < list.len() ==> (#[trigger] list[i]).0 != (#[trigger] list[j]).0
}

/// Makes an empty map with `dashmap::DashMap::new`.
#[verifier::external_body]
fn new_boot_map() -> (r: DashMap<(String, String), Timestamp>)
    ensures
        boot_entries(r) == BootMap::empty(),
{
    DashMap::new()
}

/// Looks an entry up with `dashmap::DashMap::get`.
#[verifier::external_body]
fn get_boot_time(m: &DashMap<(String, String), Timestamp>, ecu: &String, app: &String) -> (r: Option<
    Timestamp,
>)
    ensures
        r == if boot_entries(*m).contains_key((ecu@, app@)) {
            Some(boot_entries(*m)[(ecu@, app@)])
        } else {
            None
        },
{
    m.get(&(ecu.clone(), app.clone())).map(|e| *e.value())
}

/// Puts an entry into a map with `dashmap::DashMap::insert`, in place of one of the same
/// names.
#[verifier::external_body]
fn insert_boot_time(
    m: &mut DashMap<(String, String), Timestamp>,
    ecu: String,
    app: String,
    t: Timestamp,
)
    ensures
        boot_entries(*final(m)) == boot_entries(*old(m)).insert((ecu@, app@), t),
{
    m.insert((ecu, app), t);
}

/// Lists the entries of a map with `dashmap::DashMap::iter`, each once and in no known
/// order.
#[verifier::external_body]
fn list_boot_times(m: &DashMap<(String, String), Timestamp>) -> (r: Vec<
    ((String, String), Timestamp),
>)
    ensures
        is_listing(
            boot_entries(*m),
            r@.map_values(|e: ((String, String), Timestamp)| entry_view(e)),
        ),
{
    m.iter().map(|e| (e.key().clone(), *e.value())).collect()
}

/// When the applications of control units were started.
pub struct BootTimes {
    map: DashMap<(String, String), Timestamp>,
}

impl View for BootTimes {
    type V = BootMap;

    closed spec fn view(&self) -> BootMap {
        boot_entries(self.map)
    }
}

/// The time at which an application was started, where it is known.
pub open spec fn boot_time_of(m: BootMap, ecu: Seq<char>, app: Seq<char>) -> Option<
    Timestamp,
> {
    if m.contains_key((ecu, app)) {
        Some(m[(ecu, app)])
    } else {
        None
    }
}

/// The start times once all applications of a control unit were started at one time.
pub open spec fn with_all_apps(m: BootMap, ecu: Seq<char>, t: Timestamp) -> BootMap {
    Map::new(
        |k: AppKey| m.contains_key(k),
        |k: AppKey|
            if k.0 == ecu {
                t
            } else {
                m[k]
            },
    )
}

/// The character between the two names of a saved entry.
pub const KEY_SEPARATOR: char = '\x1F';

/// The two names of a saved entry in one text.
pub open spec fn key_text(k: AppKey) -> Seq<char> {
    k.0 + seq![KEY_SEPARATOR] + k.1
}

/// The place of the first separator in a text, or its length.
pub open spec fn separator_index(s: Seq<char>) -> int
    decreases s.len(),
{
    if s.len() == 0 || s[0] == KEY_SEPARATOR {
        0
    } else {
        1 + separator_index(s.drop_first())
    }
}

/// The two names in the text of a saved entry, where there is a separator.
pub open spec fn split_key(s: Seq<char>) -> Option<AppKey> {
    let i = separator_index(s);
    if i < s.len() {
        Some((s.take(i), s.skip(i + 1)))
    } else {
        None
    }
}

/// The start times of saved entries, in order; later ones win, and entries without a
/// separator are left out.
pub open spec fn saved_boot_times(list: Seq<(Seq<char>, Timestamp)>) -> BootMap
    decreases list.len(),
{
    if list.len() == 0 {
        Map::empty()
    } else {
        match split_key(list.last().0) {
            Some(k) => saved_boot_times(list.drop_last()).insert(k, list.last().1),
            None => saved_boot_times(list.drop_last()),
        }
    }
}

/// The texts and times of saved entries.
pub open spec fn saved_views(v: Seq<(String, Timestamp)>) -> Seq<(Seq<char>, Timestamp)> {
    v.map_values(|e: (String, Timestamp)| (e.0@, e.1))
}

/// Entries as they are saved.
pub open spec fn saved_entries(list: Seq<(AppKey, Timestamp)>) -> Seq<(Seq<char>, Timestamp)> {
    list.map_values(|e: (AppKey, Timestamp)| (key_text(e.0), e.1))
}

/// Whether saved entries are those of a map, each once and in no known order.
pub open spec fn is_saved(m: BootMap, saved: Seq<(Seq<char>, Timestamp)>) -> bool {
    exists|list: Seq<(AppKey, Timestamp)>| #[trigger]
        is_listing(m, list) && saved == saved_entries(list)
}

fn find_separator(s: &Vec<char>) -> (r: usize)
    ensures
        r == separator_index(s@),
        r <= s@.len(),
{
    let mut i: usize = 0;
    assert(s@.skip(0) =~= s@);
    while i < s.len() && s[i] != KEY_SEPARATOR
        invariant
            i <= s@.len(),
            separator_index(s@) == i + separator_index(s@.skip(i as int)),
        decreases s.len() - i,
    {
        assert(s@.skip(i as int).drop_first() =~= s@.skip(i + 1));
        i += 1;
    }
    i
}

/// Splits the text of a saved entry into its two names.
fn split_saved_key(s: &str) -> (r: Option<(String, String)>)
    ensures
        match r {
            Some((ecu, app)) => split_key(s@) == Some((ecu@, app@)),
            None => split_key(s@) is None,
        },
{
    let chars = text::chars_of(s);
    let i: usize = find_separator(&chars);
    if i < chars.len() {
        let ecu = s.substring_char(0, i);
        let app = s.substring_char(i + 1, chars.len());
        assert(ecu@ =~= s@.take(i as int));
        assert(app@ =~= s@.skip(i + 1));
        Some((String::from_str(ecu), String::from_str(app)))
    } else {
        None
    }
}

impl BootTimes {
    pub fn new() -> (r: Self)
        ensures
            r@ == BootMap::empty(),
    {
        BootTimes { map: new_boot_map() }
    }

    /// When an application was started, where it is known.
    pub fn get(&self, ecu: &String, app: &String) -> (r: Option<Timestamp>)
        ensures
            r == boot_time_of(self@, ecu@, app@),
    {
        get_boot_time(&self.map, ecu, app)
    }

    /// Sets when an application was started.
    pub fn insert(&mut self, ecu: String, app: String, t: Timestamp)
        ensures
            final(self)@ == old(self)@.insert((ecu@, app@), t),
    {
        insert_boot_time(&mut self.map, ecu, app, t);
    }

    /// Sets when an application was started, unless that is known.
    pub fn insert_if_absent(&mut self, ecu: &String, app: &String, t: Timestamp)
        ensures
            final(self)@ == if old(self)@.contains_key((ecu@, app@)) {
                old(self)@
            } else {
                old(self)@.insert((ecu@, app@), t)
            },
    {
        if self.get(ecu, app).is_none() {
            self.insert(ecu.clone(), app.clone(), t);
        }
    }

    /// Sets when all known applications of a control unit were started.
    pub fn set_all_apps(&mut self, ecu: &String, t: Timestamp)
        ensures
            final(self)@ == with_all_apps(old(self)@, ecu@, t),
    {
        let list = list_boot_times(&self.map);
        let ghost before = self@;
        let ghost views = list@.map_values(|e: ((String, String), Timestamp)| entry_view(e));
        let mut i: usize = 0;
        while i < list.len()
            invariant
                i <= list@.len(),
                views == list@.map_values(|e: ((String, String), Timestamp)| entry_view(e)),
                is_listing(before, views),
                forall|k: AppKey| self@.contains_key(k) == before.contains_key(k),
                forall|k: AppKey|
                    #[trigger] before.contains_key(k) && k.0 != ecu@ ==> self@[k] == before[k],
                forall|j: int|
                    0 <= j < i && (#[trigger] views[j]).0.0 == ecu@ ==> self@[views[j].0] == t,
            decreases list.len() - i,
        {
            assert(views[i as int] == entry_view(list@[i as int]));
            assert(before.contains_key(views[i as int].0));
            if list[i].0.0 == *ecu {
                self.insert(list[i].0.0.clone(), list[i].0.1.clone(), t);
            }
            i += 1;
        }
        proof {
            assert forall|k: AppKey| #[trigger] before.contains_key(k) && k.0 == ecu@ implies self@[k]
                == t by {
                let j = choose|j: int| 0 <= j < views.len() && (#[trigger] views[j]).0 == k;
                assert(views[j].0.0 == ecu@);
            }
            assert(self@ =~= with_all_apps(before, ecu@, t));
        }
    }

    /// The entries as they are saved.
    pub fn to_saved(&self) -> (r: Vec<(String, Timestamp)>)
        ensures
            is_saved(self@, saved_views(r@)),
    {
        let list = list_boot_times(&self.map);
        let ghost views = list@.map_values(|e: ((String, String), Timestamp)| entry_view(e));
        let mut out: Vec<(String, Timestamp)> = Vec::new();
        let mut i: usize = 0;
        assert(saved_views(out@) =~= saved_entries(views).take(0));
        while i < list.len()
            invariant
                i <= list@.len(),
                views == list@.map_values(|e: ((String, String), Timestamp)| entry_view(e)),
                saved_views(out@) == saved_entries(views).take(i as int),
            decreases list.len() - i,
        {
            let mut s = list[i].0.0.clone();
            proof {
                reveal_strlit("\x1F");
            }
            s.append("\x1F");
            s.append(list[i].0.1.as_str());
            let ghost before = saved_views(out@);
            proof {
                assert("\x1F"@ =~= seq![KEY_SEPARATOR]);
                assert(s@ =~= key_text(views[i as int].0));
            }
            out.push((s, list[i].1));
            assert(saved_views(out@) =~= before.push((s@, list@[i as int].1)));
            assert(saved_views(out@) =~= saved_entries(views).take(i + 1));
            i += 1;
        }
        assert(saved_entries(views).take(i as int) =~= saved_entries(views));
        assert(is_listing(self@, views));
        out
    }

    /// The start times of saved entries.
    pub fn from_saved(v: &Vec<(String, Timestamp)>) -> (r: Self)
        ensures
            r@ == saved_boot_times(saved_views(v@)),
    {
        let mut map = BootTimes::new();
        let ghost views = saved_views(v@);
        let mut i: usize = 0;
        assert(map@ =~= saved_boot_times(views.take(0)));
        while i < v.len()
            invariant
                i <= v@.len(),
                views == saved_views(v@),
                map@ == saved_boot_times(views.take(i as int)),
            decreases v.len() - i,
        {
            assert(views.take(i + 1).drop_last() =~= views.take(i as int));
            assert(views.take(i + 1).last() == (v@[i as int].0@, v@[i as int].1));
            if let Some((ecu, app)) = split_saved_key(v[i].0.as_str()) {
                map.insert(ecu, app, v[i].1);
            }
            i += 1;
        }
        assert(views.take(i as int) =~= views);
        map
    }

    /// A copy of its own.
    pub fn duplicate(&self) -> (r: Self)
        ensures
            r@ == self@,
    {
        let list = list_boot_times(&self.map);
        let ghost views = list@.map_values(|e: ((String, String), Timestamp)| entry_view(e));
        let mut copy = BootTimes::new();
        let mut i: usize = 0;
        while i < list.len()
            invariant
                i <= list@.len(),
                views == list@.map_values(|e: ((String, String), Timestamp)| entry_view(e)),
                is_listing(self@, views),
                forall|k: AppKey| #[trigger]
                    copy@.contains_key(k) ==> self@.contains_key(k) && copy@[k] == self@[k],
                forall|j: int| 0 <= j < i ==> copy@.contains_key((#[trigger] views[j]).0),
            decreases list.len() - i,
        {
            assert(views[i as int] == entry_view(list@[i as int]));
            copy.insert(list[i].0.0.clone(), list[i].0.1.clone(), list[i].1);
            i += 1;
        }
        proof {
            assert forall|k: AppKey| #[trigger] self@.contains_key(k) implies copy@.contains_key(
                k,
            ) by {
                let j = choose|j: int| 0 <= j < views.len() && (#[trigger] views[j]).0 == k;
                assert(copy@.contains_key(views[j].0));
            }
            assert(copy@ =~= self@);
        }
        copy
    }
}

proof fn lemma_separator_index(ecu: Seq<char>, app: Seq<char>)
    requires
        !ecu.contains(KEY_SEPARATOR),
    ensures
        separator_index(key_text((ecu, app))) == ecu.len(),
    decreases ecu.len(),
{
    let s = key_text((ecu, app));
    if ecu.len() == 0 {
        assert(s[0] == KEY_SEPARATOR);
    } else {
        assert(ecu.contains(ecu[0]));
        assert(s[0] == ecu[0]);
        let rest = ecu.drop_first();
        assert(!rest.contains(KEY_SEPARATOR)) by {
            if rest.contains(KEY_SEPARATOR) {
                let i = choose|i: int| 0 <= i < rest.len() && rest[i] == KEY_SEPARATOR;
                assert(ecu[i + 1] == KEY_SEPARATOR);
            }
        }
        lemma_separator_index(rest, app);
        assert(s.drop_first() =~= key_text((rest, app)));
    }
}

/// The text of a saved entry gives its two names back, unless the first holds the
/// separator.
pub proof fn saved_key_comes_back(k: AppKey)
    requires
        !k.0.contains(KEY_SEPARATOR),
    ensures
        split_key(key_text(k)) == Some(k),
{
    lemma_separator_index(k.0, k.1);
    let s = key_text(k);
    assert(s.take(k.0.len() as int) =~= k.0);
    assert(s.skip(k.0.len() as int + 1) =~= k.1);
}

proof fn lemma_saved_prefix(list: Seq<(AppKey, Timestamp)>)
    requires
        forall|i: int| 0 <= i < list.len() ==> !(#[trigger] list[i]).0.0.contains(KEY_SEPARATOR),
        forall|i: int, j: int|
            0 <= i < j < list.len() ==> (#[trigger] list[i]).0 != (#[trigger] list[j]).0,
    ensures
        forall|k: AppKey|
            saved_boot_times(saved_entries(list)).contains_key(k) <==> exists|i: int|
                0 <= i < list.len() && (#[trigger] list[i]).0 == k,
        forall|i: int|
            0 <= i < list.len() ==> saved_boot_times(saved_entries(list))[(#[trigger] list[i]).0]
                == list[i].1,
    decreases list.len(),
{
    if list.len() > 0 {
        let front = list.drop_last();
        let m = saved_boot_times(saved_entries(list));
        let f = saved_boot_times(saved_entries(front));
        assert(forall|i: int| 0 <= i < front.len() ==> front[i] == list[i]);
        lemma_saved_prefix(front);
        assert(saved_entries(list).drop_last() =~= saved_entries(front));
        saved_key_comes_back(list.last().0);
        assert(m == f.insert(list.last().0, list.last().1));
        assert forall|k: AppKey| m.contains_key(k) <==> exists|i: int|
            0 <= i < list.len() && (#[trigger] list[i]).0 == k by {
            if m.contains_key(k) {
                if k == list.last().0 {
                    assert(list[list.len() - 1].0 == k);
                } else {
                    let i = choose|i: int| 0 <= i < front.len() && (#[trigger] front[i]).0 == k;
                    assert(list[i].0 == k);
                }
            }
            if exists|i: int| 0 <= i < list.len() && (#[trigger] list[i]).0 == k {
                let i = choose|i: int| 0 <= i < list.len() && (#[trigger] list[i]).0 == k;
                if i < front.len() {
                    assert(front[i].0 == k);
                }
            }
        }
        assert forall|i: int| 0 <= i < list.len() implies m[(#[trigger] list[i]).0]
            == list[i].1 by {
            if i < front.len() {
                assert(front[i].0 != list.last().0) by {
                    assert(list[i].0 != list[list.len() - 1].0);
                }
            }
        }
    }
}

/// Saved start times come back as they were, unless the name of a control unit holds the
/// separator.
pub proof fn saved_boot_times_come_back(m: BootMap, saved: Seq<(Seq<char>, Timestamp)>)
    requires
        is_saved(m, saved),
        forall|k: AppKey| #[trigger] m.contains_key(k) ==> !k.0.contains(KEY_SEPARATOR),
    ensures
        saved_boot_times(saved) == m,
{
    let list = choose|list: Seq<(AppKey, Timestamp)>| #[trigger]
        is_listing(m, list) && saved == saved_entries(list);
    assert forall|i: int| 0 <= i < list.len() implies !(#[trigger] list[i]).0.0.contains(
        KEY_SEPARATOR,
    ) by {
        assert(m.contains_key(list[i].0));
    }
    lemma_saved_prefix(list);
    let r = saved_boot_times(saved);
    assert forall|k: AppKey| r.contains_key(k) == m.contains_key(k) by {
        if r.contains_key(k) {
            let i = choose|i: int| 0 <= i < list.len() && (#[trigger] list[i]).0 == k;
            assert(m.contains_key(list[i].0));
        }
    }
    assert forall|k: AppKey| r.contains_key(k) implies r[k] == m[k] by {
        let i = choose|i: int| 0 <= i < list.len() && (#[trigger] list[i]).0 == k;
        assert(m[list[i].0] == list[i].1);
    }
    assert(r =~= m);
}

/// A start time is found by the names of the control unit and of the application, and one that
/// is not known is not found.
pub proof fn start_times_are_found_by_both_names(m: BootMap, ecu: Seq<char>, app: Seq<char>)
    ensures
        m.contains_key((ecu, app)) ==> boot_time_of(m, ecu, app) == Some(m[(ecu, app)]),
        !m.contains_key((ecu, app)) ==> boot_time_of(m, ecu, app) is None,
{
}

/// Starting all applications of a control unit at one time makes no application known, and
/// changes none of another unit.
pub proof fn starting_a_unit_moves_its_applications(m: BootMap, ecu: Seq<char>, t: Timestamp, k: AppKey)
    ensures
        with_all_apps(m, ecu, t).contains_key(k) == m.contains_key(k),
        m.contains_key(k) && k.0 == ecu ==> with_all_apps(m, ecu, t)[k] == t,
        m.contains_key(k) && k.0 != ecu ==> with_all_apps(m, ecu, t)[k] == m[k],
{
}

/// The names of an entry are saved in one text, with a unit separator between them. They
/// are parted at the first one, and a text without one names nothing.
pub proof fn saved_names_are_parted_at_the_first_separator(s: Seq<char>, i: int)
    ensures
        forall|k: AppKey| #[trigger] key_text(k) == k.0 + seq!['\x1F'] + k.1,
        !s.contains('\x1F') ==> split_key(s) is None,
        0 <= i < s.len() && s[i] == '\x1F' && !s.take(i).contains('\x1F') ==> split_key(s) == Some(
            (s.take(i), s.skip(i + 1)),
        ),
    decreases s.len(),
{
    assert forall|k: AppKey| #[trigger] key_text(k) == k.0 + seq!['\x1F'] + k.1 by {
        assert(key_text(k) =~= k.0 + seq!['\x1F'] + k.1);
    }
    if s.len() > 0 {
        let rest = s.drop_first();
        saved_names_are_parted_at_the_first_separator(rest, i - 1);
        if s[0] != '\x1F' {
            if !s.contains('\x1F') {
                assert(!rest.contains('\x1F')) by {
                    if rest.contains('\x1F') {
                        let j = choose|j: int| 0 <= j < rest.len() && rest[j] == '\x1F';
                        assert(s[j + 1] == '\x1F');
                    }
                }
            }
            if 0 < i < s.len() && s[i] == '\x1F' && !s.take(i).contains('\x1F') {
                assert(!rest.take(i - 1).contains('\x1F')) by {
                    let head = rest.take(i - 1);
                    if head.contains('\x1F') {
                        let j = choose|j: int| 0 <= j < head.len() && head[j] == '\x1F';
                        assert(head[j] == s[j + 1]);
                        assert(s.take(i)[j + 1] == '\x1F');
                    }
                }
                assert(separator_index(rest) == i - 1) by {
                    let k = separator_index(rest);
                    assert(split_key(rest) == Some((rest.take(i - 1), rest.skip(i))));
                    lemma_separator_bounds(rest);
                    assert(rest.take(k).len() == k && rest.take(i - 1).len() == i - 1);
                }
            }
        } else {
            assert(s.contains(s[0]));
            if 0 < i < s.len() {
                assert(s.take(i)[0] == s[0]);
            }
        }
        lemma_separator_bounds(s);
        if !s.contains('\x1F') {
            lemma_separator_bounds(rest);
        }
    }
}

proof fn lemma_separator_bounds(s: Seq<char>)
    ensures
        0 <= separator_index(s) <= s.len(),
    decreases s.len(),
{
    if s.len() > 0 && s[0] != KEY_SEPARATOR {
        lemma_separator_bounds(s.drop_first());
    }
}

} // verus!
