//! Sets of strings that keep the order in which the strings came.

use crate::text;
use vstd::prelude::*;

verus! {

/// A set of strings.
#[derive(Debug)]
pub struct StringSet {
    items: Vec<String>,
}

impl View for StringSet {
    type V = Set<Seq<char>>;

    closed spec fn view(&self) -> Set<Seq<char>> {
        text::texts(self.items@).to_set()
    }
}

impl StringSet {
    /// No string is kept twice.
    #[verifier::type_invariant]
    spec fn wf(&self) -> bool {
        text::texts(self.items@).no_duplicates()
    }

    pub fn new() -> (r: Self)
        ensures
            r@ == Set::<Seq<char>>::empty(),
    {
        let r = StringSet { items: Vec::new() };
        assert(r@ =~= Set::<Seq<char>>::empty());
        r
    }

    fn find(&self, s: &str) -> (r: Option<usize>)
        ensures
            match r {
                Some(i) => i < self.items@.len() && self.items@[i as int]@ == s@,
                None => !self@.contains(s@),
            },
    {
        let wanted = String::from_str(s);
        let mut i: usize = 0;
        while i < self.items.len()
            invariant
                i <= self.items@.len(),
                wanted@ == s@,
                forall|k: int| 0 <= k < i ==> (#[trigger] self.items@[k])@ != s@,
            decreases self.items.len() - i,
        {
            if self.items[i] == wanted {
                return Some(i);
            }
            i += 1;
        }
        proof {
            if self@.contains(s@) {
                let k = choose|k: int| 0 <= k < self.items@.len() && text::texts(self.items@)[k] == s@;
                assert(self.items@[k]@ == s@);
            }
        }
        None
    }

    /// Decides whether a string is in the set.
    pub fn contains(&self, s: &str) -> (r: bool)
        ensures
            r == self@.contains(s@),
    {
        match self.find(s) {
            Some(i) => {
                assert(text::texts(self.items@)[i as int] == s@);
                true
            },
            None => false,
        }
    }

    /// Puts a string into the set.
    pub fn insert(&mut self, s: String)
        ensures
            final(self)@ == old(self)@.insert(s@),
    {
        let ghost before = text::texts(self.items@);
        let ghost t = s@;
        proof {
            use_type_invariant(&*self);
        }
        if !self.contains(s.as_str()) {
            let mut items: Vec<String> = Vec::new();
            std::mem::swap(&mut items, &mut self.items);
            items.push(s);
            proof {
                assert(text::texts(items@) =~= before.push(t));
                assert(!before.contains(t));
            }
            self.items = items;
            proof {
                let after = text::texts(self.items@);
                assert(after =~= before.push(t));
                assert(!before.contains(t));
                assert forall|k: Seq<char>| after.to_set().contains(k) == before.to_set().insert(
                    t,
                ).contains(k) by {
                    if before.contains(k) {
                        let i = choose|i: int| 0 <= i < before.len() && before[i] == k;
                        assert(after[i] == k);
                    }
                    if k == t {
                        assert(after[before.len() as int] == k);
                    }
                    if after.contains(k) {
                        let i = choose|i: int| 0 <= i < after.len() && after[i] == k;
                        if i < before.len() {
                            assert(before[i] == k);
                        }
                    }
                }
                assert(self@ =~= before.to_set().insert(t));
            }
        } else {
            assert(self@ =~= before.to_set().insert(t));
        }
    }

    /// Takes a string out of the set.
    pub fn remove(&mut self, s: &str)
        ensures
            final(self)@ == old(self)@.remove(s@),
    {
        let ghost before = text::texts(self.items@);
        match self.find(s) {
            Some(i) => {
                proof {
                    use_type_invariant(&*self);
                }
                let mut items: Vec<String> = Vec::new();
                std::mem::swap(&mut items, &mut self.items);
                items.remove(i);
                assert(text::texts(items@) =~= before.remove(i as int));
                self.items = items;
                proof {
                    let after = text::texts(self.items@);
                    assert(after =~= before.remove(i as int));
                    assert(before[i as int] == s@);
                    assert forall|k: Seq<char>|
                        after.to_set().contains(k) == before.to_set().remove(s@).contains(k) by {
                        if after.contains(k) {
                            let j = choose|j: int| 0 <= j < after.len() && after[j] == k;
                            let j0 = if j < i {
                                j
                            } else {
                                j + 1
                            };
                            assert(before[j0] == k && j0 != i);
                        }
                        if before.contains(k) && k != s@ {
                            let j = choose|j: int| 0 <= j < before.len() && before[j] == k;
                            let j1 = if j < i {
                                j
                            } else {
                                j - 1
                            };
                            assert(after[j1] == k);
                        }
                    }
                    assert(self@ =~= before.to_set().remove(s@));
                    assert(after.no_duplicates());
                }
            },
            None => {
                assert(self@ =~= before.to_set().remove(s@));
            },
        }
    }

    /// The strings of the set, each once.
    pub fn to_vec(&self) -> (r: Vec<String>)
        ensures
            text::texts(r@).to_set() == self@,
            text::texts(r@).no_duplicates(),
    {
        proof {
            use_type_invariant(&*self);
        }
        let mut out: Vec<String> = Vec::new();
        let mut i: usize = 0;
        while i < self.items.len()
            invariant
                i <= self.items@.len(),
                text::texts(out@) == text::texts(self.items@).take(i as int),
            decreases self.items.len() - i,
        {
            let ghost before = text::texts(out@);
            out.push(self.items[i].clone());
            assert(text::texts(out@) =~= before.push(self.items@[i as int]@));
            assert(text::texts(out@) =~= text::texts(self.items@).take(i + 1));
            i += 1;
        }
        assert(text::texts(out@) =~= text::texts(self.items@));
        out
    }

    /// The set of the strings of a list.
    pub fn from_vec(v: Vec<String>) -> (r: Self)
        ensures
            r@ == text::texts(v@).to_set(),
    {
        let mut set = StringSet::new();
        let mut i: usize = 0;
        assert(text::texts(v@).take(0).to_set() =~= Set::<Seq<char>>::empty());
        while i < v.len()
            invariant
                i <= v@.len(),
                set@ == text::texts(v@).take(i as int).to_set(),
            decreases v.len() - i,
        {
            set.insert(v[i].clone());
            proof {
                let a = text::texts(v@).take(i as int);
                let b = text::texts(v@).take(i + 1);
                assert(b =~= a.push(v@[i as int]@));
                assert forall|k: Seq<char>| b.to_set().contains(k) == a.to_set().insert(
                    v@[i as int]@,
                ).contains(k) by {
                    if a.contains(k) {
                        let j = choose|j: int| 0 <= j < a.len() && a[j] == k;
                        assert(b[j] == k);
                    }
                    if k == v@[i as int]@ {
                        assert(b[i as int] == k);
                    }
                    if b.contains(k) {
                        let j = choose|j: int| 0 <= j < b.len() && b[j] == k;
                        if j < a.len() {
                            assert(a[j] == k);
                        }
                    }
                }
                assert(set@ =~= b.to_set());
            }
            i += 1;
        }
        assert(text::texts(v@).take(i as int) =~= text::texts(v@));
        set
    }
}

} // verus!
