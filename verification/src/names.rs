//! Name-keyed tables: a set of names and a map from names to values, both
//! viewed as mathematical sets and maps over the names' characters.
use vstd::prelude::*;
use crate::text::str_eq;
use crate::kind::Kind;

verus! {

/// The names held by an entry list, as a set.
pub open spec fn names_of(s: Seq<String>) -> Set<Seq<char>>
    decreases s.len(),
{
    if s.len() == 0 {
        Set::empty()
    } else {
        names_of(s.drop_last()).insert(s.last()@)
    }
}

/// A set of names.
pub struct NameSet {
    names: Vec<String>,
}

impl View for NameSet {
    type V = Set<Seq<char>>;

    closed spec fn view(&self) -> Set<Seq<char>> {
        names_of(self.names@)
    }
}

proof fn lemma_names_of_finite(s: Seq<String>)
    ensures
        names_of(s).finite(),
    decreases s.len(),
{
    if s.len() > 0 {
        lemma_names_of_finite(s.drop_last());
    }
}

proof fn lemma_names_of_contains(s: Seq<String>, n: Seq<char>)
    ensures
        names_of(s).contains(n) <==> exists|i: int| 0 <= i < s.len() && s[i]@ == n,
    decreases s.len(),
{
    if s.len() > 0 {
        lemma_names_of_contains(s.drop_last(), n);
        if names_of(s.drop_last()).contains(n) {
            let i = choose|i: int| 0 <= i < s.drop_last().len() && s.drop_last()[i]@ == n;
            assert(s[i] == s.drop_last()[i]);
        }
        if exists|i: int| 0 <= i < s.len() && s[i]@ == n {
            let i = choose|i: int| 0 <= i < s.len() && s[i]@ == n;
            if i < s.len() - 1 {
                assert(s.drop_last()[i] == s[i]);
            }
        }
    }
}

impl NameSet {
    pub fn new() -> (r: NameSet)
        ensures
            r@ == Set::<Seq<char>>::empty(),
    {
        NameSet { names: Vec::new() }
    }

    pub fn contains(&self, n: &str) -> (r: bool)
        ensures
            r == self@.contains(n@),
    {
        proof {
            lemma_names_of_contains(self.names@, n@);
        }
        let mut i: usize = 0;
        while i < self.names.len()
            invariant
                i <= self.names.len(),
                forall|j: int| 0 <= j < i ==> self.names@[j]@ != n@,
            decreases self.names.len() - i,
        {
            if str_eq(self.names[i].as_str(), n) {
                proof {
                    lemma_names_of_contains(self.names@, n@);
                }
                return true;
            }
            i += 1;
        }
        false
    }

    /// Adds `n`; says whether it was new.
    pub fn insert(&mut self, n: String) -> (fresh: bool)
        ensures
            final(self)@ == old(self)@.insert(n@),
            fresh == !old(self)@.contains(n@),
    {
        let present = self.contains(n.as_str());
        if !present {
            self.names.push(n);
            assert(self.names@.drop_last() == old(self).names@);
        } else {
            assert(old(self)@.insert(n@) == old(self)@);
        }
        !present
    }

    /// A set of names is finite.
    pub proof fn lemma_finite(&self)
        ensures
            self@.finite(),
    {
        lemma_names_of_finite(self.names@);
    }

    /// Drops `n`, if present.
    pub fn remove(&mut self, n: &str)
        ensures
            final(self)@ == old(self)@.remove(n@),
    {
        let mut kept: Vec<String> = Vec::new();
        let mut i: usize = 0;
        while i < self.names.len()
            invariant
                i <= self.names.len(),
                self.names@ == old(self).names@,
                names_of(kept@) == names_of(self.names@.take(i as int)).remove(n@),
            decreases self.names.len() - i,
        {
            let ghost a = names_of(self.names@.take(i as int));
            let ghost e = self.names@[i as int];
            proof {
                assert(self.names@.take(i + 1).drop_last() == self.names@.take(i as int));
            }
            if !str_eq(self.names[i].as_str(), n) {
                let ghost k0 = kept@;
                kept.push(self.names[i].clone());
                proof {
                    assert(kept@.drop_last() == k0);
                    assert(a.remove(n@).insert(e@) =~= a.insert(e@).remove(n@));
                }
            } else {
                assert(a.remove(n@) =~= a.insert(e@).remove(n@));
            }
            i += 1;
        }
        assert(self.names@.take(self.names.len() as int) == self.names@);
        self.names = kept;
    }

    /// An independent set with the same names.
    pub fn copy(&self) -> (r: NameSet)
        ensures
            r@ == self@,
    {
        NameSet { names: self.names.clone() }
    }
}

/// The map an entry list stands for: a later entry for a name overrides an
/// earlier one.
pub open spec fn entries_map<V>(s: Seq<(String, V)>) -> Map<Seq<char>, V>
    decreases s.len(),
{
    if s.len() == 0 {
        Map::empty()
    } else {
        entries_map(s.drop_last()).insert(s.last().0@, s.last().1)
    }
}

/// A map from names to values.
pub struct NameMap<V> {
    entries: Vec<(String, V)>,
}

impl<V> View for NameMap<V> {
    type V = Map<Seq<char>, V>;

    closed spec fn view(&self) -> Map<Seq<char>, V> {
        entries_map(self.entries@)
    }
}

impl NameMap<Kind> {
    /// An independent map with the same bindings (each kind copied).
    pub fn copy(&self) -> (r: NameMap<Kind>)
        ensures
            r@.dom() == self@.dom(),
            forall|k: Seq<char>| #[trigger] r@.dom().contains(k) ==> r@[k]@ == self@[k]@,
    {
        let mut entries: Vec<(String, Kind)> = Vec::new();
        let mut i: usize = 0;
        while i < self.entries.len()
            invariant
                i <= self.entries.len(),
                entries@.len() == i,
                forall|j: int| 0 <= j < i ==> (#[trigger] entries@[j]).0@ == self.entries@[j].0@
                    && entries@[j].1@ == self.entries@[j].1@,
            decreases self.entries.len() - i,
        {
            let e = (self.entries[i].0.clone(), self.entries[i].1.clone());
            entries.push(e);
            i += 1;
        }
        proof {
            lemma_entries_copy(entries@, self.entries@);
        }
        NameMap { entries }
    }
}

proof fn lemma_entries_copy(a: Seq<(String, Kind)>, b: Seq<(String, Kind)>)
    requires
        a.len() == b.len(),
        forall|j: int| 0 <= j < a.len() ==> (#[trigger] a[j]).0@ == b[j].0@ && a[j].1@ == b[j].1@,
    ensures
        entries_map(a).dom() == entries_map(b).dom(),
        forall|k: Seq<char>| #[trigger] entries_map(a).dom().contains(k) ==> entries_map(a)[k]@ == entries_map(b)[k]@,
    decreases a.len(),
{
    if a.len() > 0 {
        lemma_entries_copy(a.drop_last(), b.drop_last());
        assert(a.last().0@ == b.last().0@);
        assert(entries_map(a).dom() =~= entries_map(b).dom());
    }
}

/// Looking a name up in the prefix of the entries up to `j` gives the same
/// answer as in the whole list when no later entry has that name.
proof fn lemma_entries_suffix<V>(s: Seq<(String, V)>, j: int, n: Seq<char>)
    requires
        0 <= j <= s.len(),
        forall|q: int| j <= q < s.len() ==> s[q].0@ != n,
    ensures
        entries_map(s).dom().contains(n) == entries_map(s.take(j)).dom().contains(n),
        entries_map(s).dom().contains(n) ==> entries_map(s)[n] == entries_map(s.take(j))[n],
    decreases s.len() - j,
{
    if j < s.len() {
        assert(s.drop_last().take(j) == s.take(j));
        lemma_entries_suffix(s.drop_last(), j, n);
    } else {
        assert(s.take(j) == s);
    }
}

/// The entries whose name is not `n`, in order.
pub open spec fn drop_name<V>(s: Seq<(String, V)>, n: Seq<char>) -> Seq<(String, V)>
    decreases s.len(),
{
    if s.len() == 0 {
        s
    } else if s.last().0@ == n {
        drop_name(s.drop_last(), n)
    } else {
        drop_name(s.drop_last(), n).push(s.last())
    }
}

proof fn lemma_entries_remove<V>(s: Seq<(String, V)>, n: Seq<char>)
    ensures
        entries_map(drop_name(s, n)) == entries_map(s).remove(n),
    decreases s.len(),
{
    if s.len() == 0 {
        assert(entries_map(s).remove(n) =~= Map::empty());
    } else {
        lemma_entries_remove(s.drop_last(), n);
        let k0 = drop_name(s.drop_last(), n);
        if s.last().0@ != n {
            assert(drop_name(s, n).drop_last() == k0);
            assert(entries_map(drop_name(s, n)) =~= entries_map(s).remove(n));
        } else {
            assert(entries_map(drop_name(s, n)) =~= entries_map(s).remove(n));
        }
    }
}

impl<V> NameMap<V> {
    pub fn new() -> (r: NameMap<V>)
        ensures
            r@ == Map::<Seq<char>, V>::empty(),
    {
        NameMap { entries: Vec::new() }
    }

    /// The value held for `n`, if any.
    pub fn get(&self, n: &str) -> (r: Option<&V>)
        ensures
            r matches Some(v) ==> self@.dom().contains(n@) && *v == self@[n@],
            r is None ==> !self@.dom().contains(n@),
    {
        let mut j: usize = self.entries.len();
        while j > 0
            invariant
                j <= self.entries.len(),
                forall|q: int| j <= q < self.entries.len() ==> (#[trigger] self.entries@[q]).0@ != n@,
            decreases j,
        {
            if str_eq(self.entries[j - 1].0.as_str(), n) {
                proof {
                    let s = self.entries@;
                    lemma_entries_suffix(s, j as int, n@);
                    assert(s.take(j as int).drop_last() == s.take(j - 1));
                }
                return Some(&self.entries[j - 1].1);
            }
            j -= 1;
        }
        proof {
            lemma_entries_suffix(self.entries@, 0, n@);
        }
        None
    }

    pub fn contains_key(&self, n: &str) -> (r: bool)
        ensures
            r == self@.dom().contains(n@),
    {
        match self.get(n) {
            Some(_) => true,
            None => false,
        }
    }

    /// Binds `n` to `v`, replacing an earlier binding.
    pub fn insert(&mut self, n: String, v: V)
        ensures
            final(self)@ == old(self)@.insert(n@, v),
    {
        self.entries.push((n, v));
        assert(self.entries@.drop_last() == old(self).entries@);
    }

    /// Drops the binding of `n`, if any.
    pub fn remove(&mut self, n: &str)
        ensures
            final(self)@ == old(self)@.remove(n@),
    {
        let mut rest: Vec<(String, V)> = Vec::new();
        std::mem::swap(&mut rest, &mut self.entries);
        let ghost all = rest@;
        assert(all.len() == rest.len());
        let mut kept: Vec<(String, V)> = Vec::new();
        let mut taken: usize = 0;
        // Walk the entries front to back, moving the ones to keep.
        while rest.len() > 0
            invariant
                taken + rest@.len() == all.len(),
                rest@ == all.subrange(taken as int, all.len() as int),
                kept@ == drop_name(all.take(taken as int), n@),
                all.len() <= usize::MAX,
            decreases rest.len(),
        {
            let e = rest.remove(0);
            proof {
                assert(e == all[taken as int]);
                assert(all.take(taken + 1).drop_last() == all.take(taken as int));
            }
            let keep = !str_eq(e.0.as_str(), n);
            if keep {
                kept.push(e);
            }
            taken += 1;
            proof {
                assert(rest@ == all.subrange(taken as int, all.len() as int));
            }
        }
        proof {
            assert(all.take(all.len() as int) == all);
            lemma_entries_remove(all, n@);
        }
        self.entries = kept;
    }

    /// The names bound, oldest binding first (a name rebound appears once per
    /// binding).
    pub fn keys(&self) -> (r: Vec<String>)
        ensures
            forall|k: Seq<char>| self@.dom().contains(k) <==> exists|i: int| 0 <= i < r.len() && r@[i]@ == k,
    {
        let mut r: Vec<String> = Vec::new();
        let mut i: usize = 0;
        while i < self.entries.len()
            invariant
                i <= self.entries.len(),
                r@.len() == i,
                forall|q: int| 0 <= q < i ==> (#[trigger] r@[q])@ == self.entries@[q].0@,
            decreases self.entries.len() - i,
        {
            r.push(self.entries[i].0.clone());
            i += 1;
        }
        proof {
            assert forall|k: Seq<char>| self@.dom().contains(k) <==> exists|i: int| 0 <= i < r.len() && r@[i]@ == k by {
                lemma_entries_dom(self.entries@, k);
                if self@.dom().contains(k) {
                    let q = choose|q: int| 0 <= q < self.entries@.len() && self.entries@[q].0@ == k;
                    assert(r@[q]@ == k);
                }
                if exists|i: int| 0 <= i < r.len() && r@[i]@ == k {
                    let q = choose|i: int| 0 <= i < r.len() && r@[i]@ == k;
                    assert(self.entries@[q].0@ == k);
                }
            }
        }
        r
    }
}

proof fn lemma_entries_dom<V>(s: Seq<(String, V)>, k: Seq<char>)
    ensures
        entries_map(s).dom().contains(k) <==> exists|q: int| 0 <= q < s.len() && s[q].0@ == k,
    decreases s.len(),
{
    if s.len() > 0 {
        let t = s.drop_last();
        lemma_entries_dom(t, k);
        if entries_map(s).dom().contains(k) {
            if s.last().0@ == k {
                assert(s[s.len() - 1].0@ == k);
            } else {
                let q = choose|q: int| 0 <= q < t.len() && t[q].0@ == k;
                assert(s[q] == t[q]);
            }
        }
        if exists|q: int| 0 <= q < s.len() && s[q].0@ == k {
            let q = choose|q: int| 0 <= q < s.len() && s[q].0@ == k;
            if q < s.len() - 1 {
                assert(t[q] == s[q]);
            }
        }
    }
}

} // verus!
