//! A persisted name-to-value table: the shape of both the requirement set
//! (name to version constraint) and a package set (name to exact version).
//! Kept as a vector of entries with pairwise-distinct names; its view is the
//! finite map the entries spell out.

use vstd::prelude::*;

use crate::text::check_name;
use crate::text::check_value;
use crate::text::str_eq;
use crate::text::valid_name;
use crate::text::valid_value;

verus! {

/// A mapping from package names to text values, with no duplicate names.
pub struct Table {
    pub entries: Vec<(String, String)>,
}

/// The finite map spelled out by a sequence of entries; a later entry for
/// the same name would win, but well-formed tables have no duplicates.
pub open spec fn map_of(s: Seq<(String, String)>) -> Map<Seq<char>, Seq<char>>
    decreases s.len(),
{
    if s.len() == 0 {
        Map::empty()
    } else {
        map_of(s.drop_last()).insert(s.last().0@, s.last().1@)
    }
}

/// Whether some entry carries the name `k`.
pub open spec fn has_name(s: Seq<(String, String)>, k: Seq<char>) -> bool {
    exists|i: int| 0 <= i < s.len() && s[i].0@ == k
}

/// The names of a sequence of entries are pairwise distinct.
pub open spec fn distinct_names(s: Seq<(String, String)>) -> bool {
    forall|i: int, j: int| 0 <= i < j < s.len() ==> s[i].0@ != s[j].0@
}

/// Every entry holds a valid name and a valid value.
pub open spec fn valid_entries(s: Seq<(String, String)>) -> bool {
    forall|i: int| 0 <= i < s.len() ==> valid_name(#[trigger] s[i].0@) && valid_value(s[i].1@)
}

/// What the map of a sequence of distinct-named entries holds: exactly the
/// names of the entries, each at the value its entry carries.
pub proof fn lemma_map_of(s: Seq<(String, String)>)
    requires
        distinct_names(s),
    ensures
        forall|k: Seq<char>| #[trigger] map_of(s).contains_key(k) ==> has_name(s, k),
        forall|i: int|
            #![trigger s[i]]
            0 <= i < s.len() ==> map_of(s).contains_key(s[i].0@) && map_of(s)[s[i].0@] == s[i].1@,
    decreases s.len(),
{
    if s.len() > 0 {
        let p = s.drop_last();
        assert(forall|i: int| 0 <= i < p.len() ==> p[i] == s[i]);
        assert(distinct_names(p));
        lemma_map_of(p);
        assert forall|k: Seq<char>| #[trigger] map_of(s).contains_key(k) implies has_name(
            s,
            k,
        ) by {
            if k == s.last().0@ {
                assert(s[s.len() - 1].0@ == k);
            } else {
                assert(map_of(p).contains_key(k));
                let i = choose|i: int| 0 <= i < p.len() && p[i].0@ == k;
                assert(s[i].0@ == k);
            }
        }
        assert forall|i: int|
            #![trigger s[i]]
            0 <= i < s.len() implies map_of(s).contains_key(s[i].0@) && map_of(s)[s[i].0@]
            == s[i].1@ by {
            if i < s.len() - 1 {
                assert(p[i] == s[i]);
                assert(s[i].0@ != s.last().0@);
            }
        }
    }
}

/// Appending one fresh entry extends the map by exactly that pair.
pub proof fn lemma_map_of_push(s: Seq<(String, String)>, e: (String, String))
    ensures
        map_of(s.push(e)) == map_of(s).insert(e.0@, e.1@),
{
    assert(s.push(e).drop_last() =~= s);
    assert(s.push(e).last() == e);
}

/// The entries as pure values: each name and value as its character
/// sequence, in order.
pub open spec fn views_of(s: Seq<(String, String)>) -> Seq<(Seq<char>, Seq<char>)> {
    s.map_values(|e: (String, String)| (e.0@, e.1@))
}

/// Whether some pair of `s` carries the name `k`.
pub open spec fn seq_has_name(s: Seq<(Seq<char>, Seq<char>)>, k: Seq<char>) -> bool {
    exists|i: int| 0 <= i < s.len() && s[i].0 == k
}

/// A name occurs among the entries exactly when it occurs among their
/// views.
pub proof fn lemma_views_has(e: Seq<(String, String)>, k: Seq<char>)
    ensures
        has_name(e, k) <==> seq_has_name(views_of(e), k),
{
    if has_name(e, k) {
        let i = choose|i: int| 0 <= i < e.len() && e[i].0@ == k;
        assert(views_of(e)[i].0 == k);
    }
    if seq_has_name(views_of(e), k) {
        let i = choose|i: int| 0 <= i < views_of(e).len() && views_of(e)[i].0 == k;
        assert(e[i].0@ == k);
    }
}

/// Entries that spell out the same names and values spell out the same
/// mapping.
pub proof fn lemma_views_same_map(a: Seq<(String, String)>, b: Seq<(String, String)>)
    requires
        views_of(a) == views_of(b),
    ensures
        map_of(a) == map_of(b),
    decreases a.len(),
{
    assert(a.len() == views_of(a).len());
    assert(b.len() == views_of(b).len());
    if a.len() > 0 {
        assert(views_of(a.drop_last()) =~= views_of(b.drop_last())) by {
            assert forall|i: int| 0 <= i < a.len() - 1 implies views_of(a.drop_last())[i]
                == views_of(b.drop_last())[i] by {
                assert(views_of(a)[i] == views_of(b)[i]);
            }
        }
        lemma_views_same_map(a.drop_last(), b.drop_last());
        assert(views_of(a)[a.len() - 1] == views_of(b)[b.len() - 1]);
        assert(a.last().0@ == b.last().0@ && a.last().1@ == b.last().1@);
    }
}

impl View for Table {
    type V = Map<Seq<char>, Seq<char>>;

    open spec fn view(&self) -> Map<Seq<char>, Seq<char>> {
        map_of(self.entries@)
    }
}

impl Table {
    /// Well-formed: valid names and values, no name twice.
    pub open spec fn wf(self) -> bool {
        valid_entries(self.entries@) && distinct_names(self.entries@)
    }

    /// An empty table.
    pub fn new() -> (r: Table)
        ensures
            r.wf(),
            r@ == Map::<Seq<char>, Seq<char>>::empty(),
            r.entries@.len() == 0,
    {
        Table { entries: Vec::new() }
    }

    /// How many entries the table holds.
    pub fn len(&self) -> (r: usize)
        ensures
            r == self.entries@.len(),
    {
        self.entries.len()
    }

    /// The position of the entry named `name`, if one exists.
    pub fn find(&self, name: &str) -> (r: Option<usize>)
        ensures
            r matches Some(i) ==> i < self.entries@.len() && self.entries@[i as int].0@ == name@,
            r is None ==> !has_name(self.entries@, name@),
    {
        let n = self.entries.len();
        let mut i: usize = 0;
        while i < n
            invariant
                i <= n,
                n == self.entries@.len(),
                forall|j: int| 0 <= j < i ==> self.entries@[j].0@ != name@,
            decreases n - i,
        {
            if str_eq(self.entries[i].0.as_str(), name) {
                return Some(i);
            }
            i += 1;
        }
        None
    }

    /// The value stored under `name`, if any.
    pub fn get(&self, name: &str) -> (r: Option<&String>)
        requires
            self.wf(),
        ensures
            r matches Some(v) ==> self@.contains_key(name@) && v@ == self@[name@],
            r is None ==> !self@.contains_key(name@),
    {
        proof {
            lemma_map_of(self.entries@);
        }
        match self.find(name) {
            Some(i) => Some(&self.entries[i].1),
            None => None,
        }
    }

    /// Adds `name = value`. Succeeds exactly when the name and the value are
    /// valid and the name is not already present; on failure the table is
    /// left as it was.
    pub fn insert(&mut self, name: String, value: String) -> (r: bool)
        requires
            old(self).wf(),
        ensures
            final(self).wf(),
            r == (valid_name(name@) && valid_value(value@) && !old(self)@.contains_key(name@)),
            r ==> final(self)@ == old(self)@.insert(name@, value@),
            r ==> final(self).entries@ == old(self).entries@.push((name, value)),
            !r ==> *final(self) == *old(self),
    {
        proof {
            lemma_map_of(self.entries@);
        }
        if !check_name(name.as_str()) || !check_value(value.as_str()) {
            return false;
        }
        if let Some(_i) = self.find(name.as_str()) {
            return false;
        }
        proof {
            lemma_map_of_push(self.entries@, (name, value));
        }
        let ghost before = self.entries@;
        self.entries.push((name, value));
        proof {
            assert forall|i: int, j: int|
                0 <= i < j < self.entries@.len() implies self.entries@[i].0@
                != self.entries@[j].0@ by {
                if j == self.entries@.len() - 1 {
                    assert(before[i].0@ != name@);
                }
            }
            assert(valid_entries(self.entries@)) by {
                assert(forall|i: int|
                    0 <= i < before.len() ==> valid_name(#[trigger] self.entries@[i].0@)
                        && valid_value(self.entries@[i].1@)) by {
                    assert(forall|i: int| 0 <= i < before.len() ==> self.entries@[i] == before[i]);
                }
            }
        }
        true
    }

    /// An owned copy of the table, entry for entry.
    pub fn duplicate(&self) -> (r: Table)
        ensures
            r.entries@ == self.entries@,
            r@ == self@,
            r.wf() == self.wf(),
    {
        let n = self.entries.len();
        let mut entries: Vec<(String, String)> = Vec::new();
        let mut i: usize = 0;
        while i < n
            invariant
                i <= n,
                n == self.entries@.len(),
                entries@.len() == i,
                forall|j: int| 0 <= j < i ==> entries@[j] == self.entries@[j],
            decreases n - i,
        {
            entries.push((self.entries[i].0.clone(), self.entries[i].1.clone()));
            i += 1;
        }
        proof {
            assert(entries@ =~= self.entries@);
        }
        Table { entries }
    }

    /// Whether every entry of `self` is present in `other` at the same value.
    pub fn contained_in(&self, other: &Table) -> (r: bool)
        requires
            self.wf(),
            other.wf(),
        ensures
            r == (forall|k: Seq<char>|
                #[trigger] self@.contains_key(k) ==> other@.contains_key(k) && other@[k]
                    == self@[k]),
    {
        proof {
            lemma_map_of(self.entries@);
            lemma_map_of(other.entries@);
        }
        let n = self.entries.len();
        let mut i: usize = 0;
        while i < n
            invariant
                i <= n,
                n == self.entries@.len(),
                self.wf(),
                other.wf(),
                forall|j: int|
                    0 <= j < i ==> other@.contains_key(#[trigger] self.entries@[j].0@)
                        && other@[self.entries@[j].0@] == self.entries@[j].1@,
            decreases n - i,
        {
            let ghost k = self.entries@[i as int].0@;
            proof {
                lemma_map_of(self.entries@);
                assert(self@.contains_key(k) && self@[k] == self.entries@[i as int].1@);
            }
            match other.get(self.entries[i].0.as_str()) {
                Some(v) => {
                    if !str_eq(v.as_str(), self.entries[i].1.as_str()) {
                        proof {
                            assert(other@[k] != self@[k]);
                        }
                        return false;
                    }
                },
                None => {
                    proof {
                        assert(!other@.contains_key(k));
                    }
                    return false;
                },
            }
            i += 1;
        }
        proof {
            assert forall|k: Seq<char>|
                self@.contains_key(k) implies other@.contains_key(k) && other@[k]
                == self@[k] by {
                let j = choose|j: int| 0 <= j < n && self.entries@[j].0@ == k;
                assert(other@.contains_key(self.entries@[j].0@));
            }
        }
        true
    }

    /// Structural equality of the two mappings: the same names, the same
    /// value under each name.
    pub fn same_mapping(&self, other: &Table) -> (r: bool)
        requires
            self.wf(),
            other.wf(),
        ensures
            r == (self@ == other@),
    {
        let fwd = self.contained_in(other);
        let bwd = other.contained_in(self);
        if fwd && bwd {
            proof {
                assert forall|k: Seq<char>| #[trigger] self@.contains_key(k)
                    == other@.contains_key(k) by {
                    if self@.contains_key(k) {
                        assert(other@.contains_key(k));
                    }
                    if other@.contains_key(k) {
                        assert(self@.contains_key(k));
                    }
                }
                assert forall|k: Seq<char>| #[trigger] self@.contains_key(k) implies self@[k]
                    == other@[k] by {}
                assert(self@ =~= other@);
            }
            true
        } else {
            false
        }
    }
}

} // verus!
