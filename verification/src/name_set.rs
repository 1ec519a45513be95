//! A set of tag or person names kept in ascending order, the way a
//! `BTreeSet<String>` keeps them: each name once, in code point order.
use vstd::prelude::*;
use crate::ordering::{
    name_le, name_le_chars, lemma_name_le_antisymmetric,
    lemma_name_le_total, lemma_name_le_transitive,
};
use crate::strings::{chars_equal, chars_of, string_views};

verus! {

/// `a` comes strictly before `b`.
pub open spec fn name_lt(a: Seq<char>, b: Seq<char>) -> bool {
    name_le(a, b) && a != b
}

/// Each name comes strictly before the next one: ascending, without repeats.
pub open spec fn strictly_ascending(s: Seq<Seq<char>>) -> bool {
    forall|i: int, j: int| 0 <= i < j < s.len() ==> #[trigger] name_lt(s[i], s[j])
}

/// `name_lt` is transitive.
pub proof fn lemma_name_lt_transitive(a: Seq<char>, b: Seq<char>, c: Seq<char>)
    requires
        name_lt(a, b),
        name_lt(b, c),
    ensures
        name_lt(a, c),
{
    lemma_name_le_transitive(a, b, c);
    if a == c {
        lemma_name_le_antisymmetric(a, b);
    }
}

/// `names` with `name` taken out when it is there, else put in.
pub open spec fn toggled(names: Set<Seq<char>>, name: Seq<char>) -> Set<Seq<char>> {
    if names.contains(name) {
        names.remove(name)
    } else {
        names.insert(name)
    }
}

/// Toggling a name twice gives back the set it started from.
pub proof fn lemma_toggle_twice(names: Set<Seq<char>>, name: Seq<char>)
    ensures
        toggled(toggled(names, name), name) == names,
{
    if names.contains(name) {
        assert(names.remove(name).insert(name) =~= names);
    } else {
        assert(names.insert(name).remove(name) =~= names);
    }
}

/// Whether `a` comes strictly before `b`.
fn name_lt_chars(a: &[char], b: &[char]) -> (r: bool)
    ensures
        r == name_lt(a@, b@),
{
    name_le_chars(a, b) && !chars_equal(a, b)
}

/// Names in ascending order, each once.
#[derive(Debug, PartialEq, Eq)]
pub struct NameSet {
    names: Vec<String>,
}

impl View for NameSet {
    type V = Seq<Seq<char>>;

    closed spec fn view(&self) -> Seq<Seq<char>> {
        string_views(self.names@)
    }
}

impl Clone for NameSet {
    fn clone(&self) -> (r: Self)
        ensures
            r@ == self@,
    {
        let mut names: Vec<String> = Vec::new();
        let mut i: usize = 0;
        while i < self.names.len()
            invariant
                0 <= i <= self.names.len(),
                string_views(names@) =~= string_views(self.names@).take(i as int),
            decreases self.names.len() - i,
        {
            let ghost before = names@;
            names.push(self.names[i].clone());
            proof {
                assert(names@ =~= before.push(self.names@[i as int]));
                assert(string_views(names@) =~= string_views(before).push(self.names@[i as int]@));
            }
            i += 1;
        }
        NameSet { names }
    }
}

impl Default for NameSet {
    fn default() -> (r: Self)
        ensures
            r@ == Seq::<Seq<char>>::empty(),
            r.wf(),
    {
        NameSet::new()
    }
}

impl NameSet {
    /// The names are ascending and distinct.
    pub open spec fn wf(&self) -> bool {
        strictly_ascending(self@)
    }

    /// The names held, as a set.
    pub open spec fn members(&self) -> Set<Seq<char>> {
        self@.to_set()
    }

    /// The empty set.
    pub fn new() -> (r: Self)
        ensures
            r@ == Seq::<Seq<char>>::empty(),
            r.wf(),
    {
        let r = NameSet { names: Vec::new() };
        assert(r@ =~= Seq::<Seq<char>>::empty());
        r
    }

    /// The number of names.
    pub fn len(&self) -> (n: usize)
        ensures
            n == self@.len(),
    {
        self.names.len()
    }

    /// Whether no name is held.
    pub fn is_empty(&self) -> (r: bool)
        ensures
            r == (self@.len() == 0),
    {
        self.names.len() == 0
    }

    /// The names in ascending order.
    pub fn names(&self) -> (r: Vec<String>)
        ensures
            string_views(r@) == self@,
    {
        let c = self.clone();
        c.names
    }

    /// Where `name` is or would go: every name before the index comes before
    /// it, and `found` says whether the name at the index is `name` itself.
    fn position(&self, name: &[char]) -> (r: (usize, bool))
        requires
            self.wf(),
        ensures
            r.0 <= self@.len(),
            forall|k: int| 0 <= k < r.0 ==> #[trigger] name_lt(self@[k], name@),
            forall|k: int| r.0 <= k < self@.len() ==> #[trigger] name_le(name@, self@[k]),
            r.1 == (r.0 < self@.len() && self@[r.0 as int] == name@),
            r.1 == self@.contains(name@),
    {
        let mut i: usize = 0;
        while i < self.names.len()
            invariant
                0 <= i <= self.names.len(),
                self.names@.len() == self@.len(),
                self.wf(),
                forall|k: int| 0 <= k < i ==> #[trigger] name_lt(self@[k], name@),
            ensures
                0 <= i <= self.names.len(),
                forall|k: int| 0 <= k < i ==> #[trigger] name_lt(self@[k], name@),
                i < self.names.len() ==> !name_lt(self@[i as int], name@),
            decreases self.names.len() - i,
        {
            let current = chars_of(self.names[i].as_str());
            assert(current@ == self@[i as int]);
            if !name_lt_chars(current.as_slice(), name) {
                break;
            }
            i += 1;
        }
        proof {
            if i < self@.len() {
                lemma_name_le_total(self@[i as int], name@);
                if !name_le(name@, self@[i as int]) {
                    assert(name_lt(self@[i as int], name@));
                }
                assert forall|k: int| i <= k < self@.len() implies #[trigger] name_le(
                    name@,
                    self@[k],
                ) by {
                    if k > i {
                        assert(name_lt(self@[i as int], self@[k]));
                        lemma_name_le_transitive(name@, self@[i as int], self@[k]);
                    }
                }
            }
        }
        let found = if i < self.names.len() {
            let current = chars_of(self.names[i].as_str());
            chars_equal(current.as_slice(), name)
        } else {
            false
        };
        proof {
            if self@.contains(name@) {
                let k = choose|k: int| 0 <= k < self@.len() && self@[k] == name@;
                if k < i {
                    assert(name_lt(self@[k], name@));
                } else if k > i {
                    assert(name_lt(self@[i as int], self@[k]));
                    assert(name_le(name@, self@[i as int]));
                    lemma_name_le_antisymmetric(name@, self@[i as int]);
                }
            }
        }
        (i, found)
    }

    /// Whether `name` is held.
    pub fn contains(&self, name: &str) -> (r: bool)
        requires
            self.wf(),
        ensures
            r == self@.contains(name@),
    {
        let chars = chars_of(name);
        self.position(chars.as_slice()).1
    }

    /// Adds `name`; true when it was not held before.
    pub fn insert(&mut self, name: &str) -> (r: bool)
        requires
            old(self).wf(),
        ensures
            final(self).wf(),
            final(self).members() == old(self).members().insert(name@),
            r == !old(self)@.contains(name@),
    {
        let chars = chars_of(name);
        let (i, found) = self.position(chars.as_slice());
        if found {
            return false;
        }
        let ghost s = self@;
        let ghost x = name@;
        let mut names: Vec<String> = Vec::new();
        std::mem::swap(&mut names, &mut self.names);
        proof {
            assert(string_views(names@) == s);
        }
        names.insert(i, crate::strings::string_of(chars.as_slice()));
        proof {
            let t = string_views(names@);
            assert(t =~= s.insert(i as int, x));
            assert forall|p: int, q: int| 0 <= p < q < t.len() implies #[trigger] name_lt(
                t[p],
                t[q],
            ) by {
                if q < i {
                    assert(name_lt(s[p], s[q]));
                } else if q == i {
                    assert(name_lt(s[p], x));
                } else if p < i {
                    assert(name_lt(s[p], s[q - 1]));
                } else if p == i {
                    assert(name_le(x, s[q - 1]));
                    assert(s.contains(s[q - 1]));
                    assert(x != s[q - 1]);
                } else {
                    assert(name_lt(s[p - 1], s[q - 1]));
                }
            }
            assert(t.to_set() =~= s.to_set().insert(x)) by {
                assert forall|y: Seq<char>| t.contains(y) <==> (s.contains(y) || y == x) by {
                    if t.contains(y) {
                        let k = choose|k: int| 0 <= k < t.len() && t[k] == y;
                        if k < i {
                            assert(s[k] == y);
                        } else if k > i {
                            assert(s[k - 1] == y);
                        }
                    }
                    if s.contains(y) {
                        let k = choose|k: int| 0 <= k < s.len() && s[k] == y;
                        if k < i {
                            assert(t[k] == y);
                        } else {
                            assert(t[k + 1] == y);
                        }
                    }
                    if y == x {
                        assert(t[i as int] == y);
                    }
                }
            }
        }
        self.names = names;
        true
    }

    /// Removes `name`; true when it was held.
    pub fn remove(&mut self, name: &str) -> (r: bool)
        requires
            old(self).wf(),
        ensures
            final(self).wf(),
            final(self).members() == old(self).members().remove(name@),
            r == old(self)@.contains(name@),
    {
        let chars = chars_of(name);
        let (i, found) = self.position(chars.as_slice());
        if !found {
            proof {
                assert(self@.to_set() =~= self@.to_set().remove(name@));
            }
            return false;
        }
        let ghost s = self@;
        let ghost x = name@;
        let mut names: Vec<String> = Vec::new();
        std::mem::swap(&mut names, &mut self.names);
        proof {
            assert(string_views(names@) == s);
        }
        names.remove(i);
        proof {
            let t = string_views(names@);
            assert(t =~= s.remove(i as int));
            assert forall|p: int, q: int| 0 <= p < q < t.len() implies #[trigger] name_lt(
                t[p],
                t[q],
            ) by {
                if q < i {
                    assert(name_lt(s[p], s[q]));
                } else if p < i {
                    assert(name_lt(s[p], s[q + 1]));
                } else {
                    assert(name_lt(s[p + 1], s[q + 1]));
                }
            }
            assert(t.to_set() =~= s.to_set().remove(x)) by {
                assert forall|y: Seq<char>| t.contains(y) <==> (s.contains(y) && y != x) by {
                    if t.contains(y) {
                        let k = choose|k: int| 0 <= k < t.len() && t[k] == y;
                        if k < i {
                            assert(s[k] == y);
                            assert(name_lt(s[k], s[i as int]));
                        } else {
                            assert(s[k + 1] == y);
                            assert(name_lt(s[i as int], s[k + 1]));
                        }
                    }
                    if s.contains(y) && y != x {
                        let k = choose|k: int| 0 <= k < s.len() && s[k] == y;
                        if k < i {
                            assert(t[k] == y);
                        } else {
                            assert(k != i);
                            assert(t[k - 1] == y);
                        }
                    }
                }
            }
        }
        self.names = names;
        true
    }

    /// Removes `name` when held, else adds it.
    pub fn toggle(&mut self, name: &str)
        requires
            old(self).wf(),
        ensures
            final(self).wf(),
            final(self).members() == toggled(old(self).members(), name@),
    {
        if !self.remove(name) {
            self.insert(name);
        }
    }

    /// Removes every name.
    pub fn clear(&mut self)
        ensures
            final(self)@ == Seq::<Seq<char>>::empty(),
            final(self).wf(),
    {
        self.names = Vec::new();
        assert(self@ =~= Seq::<Seq<char>>::empty());
    }

    /// The set of the names in `names`.
    pub fn from_names(names: Vec<String>) -> (r: Self)
        ensures
            r.wf(),
            r.members() == string_views(names@).to_set(),
    {
        let mut r = NameSet::new();
        let mut i: usize = 0;
        while i < names.len()
            invariant
                0 <= i <= names.len(),
                r.wf(),
                r.members() =~= string_views(names@).take(i as int).to_set(),
            decreases names.len() - i,
        {
            r.insert(names[i].as_str());
            proof {
                let v = string_views(names@);
                assert(v.take(i + 1) =~= v.take(i as int).push(v[i as int]));
                vstd::seq_lib::lemma_seq_contains_after_push(v.take(i as int), v[i as int], v[i as int]);
                assert(v.take(i + 1).to_set() =~= v.take(i as int).to_set().insert(v[i as int]));
            }
            i += 1;
        }
        proof {
            assert(string_views(names@).take(names.len() as int) =~= string_views(names@));
        }
        r
    }

    /// Keeps only the names that occur in `allowed`.
    pub fn retain_listed(&mut self, allowed: &[String])
        requires
            old(self).wf(),
        ensures
            final(self).wf(),
            final(self).members() == old(self).members().filter(
                |x: Seq<char>| string_views(allowed@).contains(x),
            ),
    {
        let ghost s = self@;
        let ghost a = string_views(allowed@);
        let mut old_names: Vec<String> = Vec::new();
        std::mem::swap(&mut old_names, &mut self.names);
        proof {
            assert(string_views(old_names@) == s);
        }
        let mut kept: Vec<String> = Vec::new();
        let mut i: usize = 0;
        while i < old_names.len()
            invariant
                0 <= i <= old_names.len(),
                s == string_views(old_names@),
                a == string_views(allowed@),
                strictly_ascending(s),
                strictly_ascending(string_views(kept@)),
                forall|p: int, q: int|
                    0 <= p < kept@.len() && i <= q < s.len() ==> #[trigger] name_lt(
                        string_views(kept@)[p],
                        s[q],
                    ),
                string_views(kept@).to_set() =~= s.take(i as int).to_set().filter(|x: Seq<char>| a.contains(x)),
            decreases old_names.len() - i,
        {
            let listed = listed_in(old_names[i].as_str(), allowed);
            let ghost before = string_views(kept@);
            let ghost y = s[i as int];
            if listed {
                kept.push(old_names[i].clone());
                proof {
                    let t = string_views(kept@);
                    assert(t =~= before.push(y));
                    assert forall|p: int, q: int| 0 <= p < q < t.len() implies #[trigger] name_lt(
                        t[p],
                        t[q],
                    ) by {
                        if q == before.len() {
                            assert(name_lt(before[p], s[i as int]));
                        } else {
                            assert(name_lt(before[p], before[q]));
                        }
                    }
                    assert forall|p: int, q: int|
                        0 <= p < t.len() && i + 1 <= q < s.len() implies #[trigger] name_lt(
                        t[p],
                        s[q],
                    ) by {
                        if p < before.len() {
                            assert(name_lt(before[p], s[q]));
                        } else {
                            assert(name_lt(s[i as int], s[q]));
                        }
                    }
                }
            }
            proof {
                assert(s.take(i + 1) =~= s.take(i as int).push(y));
                s.take(i as int).lemma_push_to_set_commute(y);
                if listed {
                    before.lemma_push_to_set_commute(y);
                    assert(string_views(kept@) =~= before.push(y));
                }
            }
            i += 1;
        }
        proof {
            assert(s.take(old_names.len() as int) =~= s);
        }
        self.names = kept;
    }
}

/// Whether `name` is one of `list`.
pub fn listed_in(name: &str, list: &[String]) -> (r: bool)
    ensures
        r == string_views(list@).contains(name@),
{
    let mut i: usize = 0;
    while i < list.len()
        invariant
            0 <= i <= list.len(),
            forall|k: int| 0 <= k < i ==> list@[k]@ != name@,
        decreases list.len() - i,
    {
        if crate::strings::text_equals(list[i].as_str(), name) {
            proof {
                assert(string_views(list@)[i as int] == name@);
            }
            return true;
        }
        i += 1;
    }
    proof {
        if string_views(list@).contains(name@) {
            let k = choose|k: int| 0 <= k < list@.len() && string_views(list@)[k] == name@;
            assert(list@[k]@ == name@);
        }
    }
    false
}

/// Whether every name of `names` is in `list`.
pub fn all_listed(names: &Vec<String>, list: &[String]) -> (r: bool)
    ensures
        r == (forall|i: int| 0 <= i < names@.len() ==> string_views(list@).contains(#[trigger] names@[i]@)),
{
    let mut i: usize = 0;
    while i < names.len()
        invariant
            0 <= i <= names.len(),
            forall|k: int| 0 <= k < i ==> string_views(list@).contains(#[trigger] names@[k]@),
        decreases names.len() - i,
    {
        if !listed_in(names[i].as_str(), list) {
            return false;
        }
        i += 1;
    }
    true
}

/// Whether some name of `names` is in `list`.
pub fn any_listed(names: &Vec<String>, list: &[String]) -> (r: bool)
    ensures
        r == (exists|i: int| 0 <= i < names@.len() && string_views(list@).contains(#[trigger] names@[i]@)),
{
    let mut i: usize = 0;
    while i < names.len()
        invariant
            0 <= i <= names.len(),
            forall|k: int| 0 <= k < i ==> !string_views(list@).contains(#[trigger] names@[k]@),
        decreases names.len() - i,
    {
        if listed_in(names[i].as_str(), list) {
            return true;
        }
        i += 1;
    }
    false
}

} // verus!
