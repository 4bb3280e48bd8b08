//! Sets of names and tables keyed by a name, kept as lists without repeats
//! in the order in which the names came in.

use vstd::prelude::*;

verus! {

/// A list of strings, as plain values.
pub open spec fn names_view(v: Seq<String>) -> Seq<Seq<char>> {
    Seq::new(v.len(), |i: int| v[i]@)
}

/// The list with `k` at its end, unless it is in it already.
pub open spec fn with_name(s: Seq<Seq<char>>, k: Seq<char>) -> Seq<Seq<char>> {
    if s.contains(k) {
        s
    } else {
        s.push(k)
    }
}

/// The list without `k`.
pub open spec fn without_name(s: Seq<Seq<char>>, k: Seq<char>) -> Seq<Seq<char>> {
    if s.contains(k) {
        s.remove(s.index_of(k))
    } else {
        s
    }
}

/// The list with `k` taken out if it is in it, and put in if it is not.
pub open spec fn toggled(s: Seq<Seq<char>>, k: Seq<char>) -> Seq<Seq<char>> {
    if s.contains(k) {
        without_name(s, k)
    } else {
        s.push(k)
    }
}

/// In a list without repeats, a name stands at one position only.
pub proof fn lemma_index_of_unique(s: Seq<Seq<char>>, k: Seq<char>, i: int)
    requires
        s.no_duplicates(),
        0 <= i < s.len(),
        s[i] == k,
    ensures
        s.contains(k),
        s.index_of(k) == i,
{
    assert(s.contains(k));
    let j = s.index_of(k);
    assert(0 <= j < s.len() && s[j] == k);
}

/// Adding a name keeps a list free of repeats, and the list then holds the
/// name besides what it held.
pub proof fn lemma_with_name(s: Seq<Seq<char>>, k: Seq<char>)
    requires
        s.no_duplicates(),
    ensures
        with_name(s, k).no_duplicates(),
        with_name(s, k).contains(k),
        forall|x: Seq<char>| with_name(s, k).contains(x) <==> (x == k || s.contains(x)),
{
    let t = with_name(s, k);
    if !s.contains(k) {
        assert(t[s.len() as int] == k);
        assert forall|x: Seq<char>| t.contains(x) <==> (x == k || s.contains(x)) by {
            if s.contains(x) {
                let i = s.index_of(x);
                assert(t[i] == x);
            }
            if t.contains(x) {
                let i = t.index_of(x);
                if i < s.len() {
                    assert(s[i] == x);
                }
            }
        }
    }
}

/// Removing a name keeps a list free of repeats, and the list then holds
/// what it held but the name.
pub proof fn lemma_without_name(s: Seq<Seq<char>>, k: Seq<char>)
    requires
        s.no_duplicates(),
    ensures
        without_name(s, k).no_duplicates(),
        !without_name(s, k).contains(k),
        forall|x: Seq<char>| without_name(s, k).contains(x) <==> (x != k && s.contains(x)),
{
    let t = without_name(s, k);
    if s.contains(k) {
        let p = s.index_of(k);
        assert(0 <= p < s.len() && s[p] == k);
        assert forall|i: int, j: int| 0 <= i < t.len() && 0 <= j < t.len() && i != j implies t[i]
            != t[j] by {
            let oi = if i < p { i } else { i + 1 };
            let oj = if j < p { j } else { j + 1 };
            assert(t[i] == s[oi]);
            assert(t[j] == s[oj]);
        }
        assert forall|x: Seq<char>| t.contains(x) <==> (x != k && s.contains(x)) by {
            if t.contains(x) {
                let i = t.index_of(x);
                let oi = if i < p { i } else { i + 1 };
                assert(t[i] == s[oi]);
                assert(s[oi] == x);
            }
            if x != k && s.contains(x) {
                let i = s.index_of(x);
                let ni = if i < p { i } else { i - 1 };
                assert(t[ni] == x);
            }
        }
    } else {
        assert forall|x: Seq<char>| t.contains(x) <==> (x != k && s.contains(x)) by {}
    }
}

/// A set of names.
#[derive(Debug)]
pub struct StrSet {
    pub items: Vec<String>,
}

impl StrSet {
    /// The names of the set, in the order in which they came in.
    pub open spec fn names(&self) -> Seq<Seq<char>> {
        names_view(self.items@)
    }

    /// No name is held twice.
    pub open spec fn wf(&self) -> bool {
        self.names().no_duplicates()
    }

    /// Whether the set holds `k`.
    pub open spec fn has(&self, k: Seq<char>) -> bool {
        self.names().contains(k)
    }

    /// An empty set.
    pub fn new() -> (r: Self)
        ensures
            r.names() == Seq::<Seq<char>>::empty(),
            r.items@.len() == 0,
            r.wf(),
            forall|x: Seq<char>| !r.has(x),
    {
        let r = StrSet { items: Vec::new() };
        assert(r.names() =~= Seq::<Seq<char>>::empty());
        r
    }

    /// The number of names.
    pub fn len(&self) -> (n: usize)
        ensures
            n == self.names().len(),
    {
        self.items.len()
    }

    /// Whether the set holds no name.
    pub fn is_empty(&self) -> (r: bool)
        ensures
            r == (self.names().len() == 0),
    {
        self.items.len() == 0
    }

    /// The position of `k` in the set.
    pub fn find(&self, k: &String) -> (r: Option<usize>)
        requires
            self.wf(),
        ensures
            match r {
                Some(i) => self.has(k@) && i == self.names().index_of(k@) && i < self.items.len(),
                None => !self.has(k@),
            },
    {
        let mut i: usize = 0;
        while i < self.items.len()
            invariant
                self.wf(),
                i <= self.items.len(),
                forall|j: int| 0 <= j < i ==> self.names()[j] != k@,
            decreases self.items.len() - i,
        {
            if self.items[i] == *k {
                proof {
                    lemma_index_of_unique(self.names(), k@, i as int);
                }
                return Some(i);
            }
            i += 1;
        }
        None
    }

    /// Whether the set holds `k`.
    pub fn contains(&self, k: &String) -> (r: bool)
        requires
            self.wf(),
        ensures
            r == self.has(k@),
    {
        self.find(k).is_some()
    }

    /// Puts `k` into the set; says whether it was new.
    pub fn insert(&mut self, k: String) -> (fresh: bool)
        requires
            old(self).wf(),
        ensures
            final(self).wf(),
            fresh == !old(self).has(k@),
            final(self).names() == with_name(old(self).names(), k@),
            final(self).has(k@),
            forall|x: Seq<char>| final(self).has(x) <==> (x == k@ || old(self).has(x)),
    {
        proof {
            lemma_with_name(self.names(), k@);
        }
        if self.contains(&k) {
            return false;
        }
        let ghost before = self.names();
        let ghost name = k@;
        self.items.push(k);
        assert(self.names() =~= before.push(name));
        true
    }

    /// Takes `k` out of the set; says whether it was in it.
    pub fn remove(&mut self, k: &String) -> (was: bool)
        requires
            old(self).wf(),
        ensures
            final(self).wf(),
            was == old(self).has(k@),
            final(self).names() == without_name(old(self).names(), k@),
            !final(self).has(k@),
            forall|x: Seq<char>| final(self).has(x) <==> (x != k@ && old(self).has(x)),
    {
        proof {
            lemma_without_name(self.names(), k@);
        }
        match self.find(k) {
            Some(i) => {
                let ghost before = self.names();
                self.items.remove(i);
                assert(self.names() =~= before.remove(i as int));
                true
            },
            None => false,
        }
    }

    /// The names of the set, copied out in their order.
    pub fn to_vec(&self) -> (r: Vec<String>)
        ensures
            names_view(r@) == self.names(),
    {
        let mut r: Vec<String> = Vec::new();
        let mut i: usize = 0;
        while i < self.items.len()
            invariant
                i <= self.items.len(),
                r@.len() == i,
                forall|j: int| 0 <= j < i ==> r@[j]@ == self.names()[j],
            decreases self.items.len() - i,
        {
            r.push(self.items[i].clone());
            i += 1;
        }
        assert(names_view(r@) =~= self.names());
        r
    }
}

/// A table from names to values.
#[derive(Debug)]
pub struct Table<V> {
    pub keys: StrSet,
    pub vals: Vec<V>,
}

impl<V> Table<V> {
    /// The names that have a value, in the order in which they came in.
    pub open spec fn names(&self) -> Seq<Seq<char>> {
        self.keys.names()
    }

    /// No name occurs twice, and each has its value.
    pub open spec fn wf(&self) -> bool {
        &&& self.keys.wf()
        &&& self.keys.items@.len() == self.vals@.len()
    }

    /// Whether `k` has a value.
    pub open spec fn has(&self, k: Seq<char>) -> bool {
        self.names().contains(k)
    }

    /// The position at which `k` and its value stand.
    pub open spec fn slot(&self, k: Seq<char>) -> int {
        self.names().index_of(k)
    }

    /// The value of `k`.
    pub open spec fn at(&self, k: Seq<char>) -> V {
        self.vals@[self.slot(k)]
    }

    /// This table is `before` but for the value of `k`: it has the names of
    /// `before` and `k`, and every other name has the value it had.
    pub open spec fn differs_only_at(&self, before: Table<V>, k: Seq<char>) -> bool {
        &&& self.names() == with_name(before.names(), k)
        &&& self.has(k)
        &&& forall|x: Seq<char>| #[trigger] before.has(x) ==> self.has(x)
        &&& forall|x: Seq<char>| x != k && #[trigger] before.has(x) ==> self.at(x) == before.at(x)
        &&& forall|x: Seq<char>| x != k && #[trigger] self.has(x) ==> before.has(x)
    }

    /// An empty table.
    pub fn new() -> (r: Self)
        ensures
            r.wf(),
            r.names() == Seq::<Seq<char>>::empty(),
            r.vals@ == Seq::<V>::empty(),
            forall|x: Seq<char>| !r.has(x),
    {
        Table { keys: StrSet::new(), vals: Vec::new() }
    }

    /// The number of names.
    pub fn len(&self) -> (n: usize)
        requires
            self.wf(),
        ensures
            n == self.names().len(),
            n == self.vals@.len(),
    {
        self.vals.len()
    }

    /// The position at which `k` and its value stand.
    pub fn find(&self, k: &String) -> (r: Option<usize>)
        requires
            self.wf(),
        ensures
            match r {
                Some(i) => self.has(k@) && i == self.slot(k@) && i < self.vals@.len(),
                None => !self.has(k@),
            },
    {
        self.keys.find(k)
    }

    /// Whether `k` has a value.
    pub fn contains_key(&self, k: &String) -> (r: bool)
        requires
            self.wf(),
        ensures
            r == self.has(k@),
    {
        self.keys.find(k).is_some()
    }

    /// After a change of the value at position `i` alone, every other name
    /// has the value it had.
    pub proof fn lemma_changed_at(self, before: Table<V>, i: int)
        requires
            before.wf(),
            0 <= i < before.vals@.len(),
            self.keys == before.keys,
            self.vals@.len() == before.vals@.len(),
            forall|j: int| 0 <= j < before.vals@.len() && j != i ==> self.vals@[j] == before.vals@[j],
        ensures
            self.wf(),
            self.names() == before.names(),
            self.differs_only_at(before, before.names()[i]),
            self.has(before.names()[i]),
            self.at(before.names()[i]) == self.vals@[i],
            before.at(before.names()[i]) == before.vals@[i],
    {
        let k = before.names()[i];
        lemma_index_of_unique(before.names(), k, i);
        assert forall|x: Seq<char>| x != k && #[trigger] before.has(x) implies self.at(x)
            == before.at(x) by {
            assert(before.names()[before.slot(x)] == x);
        }
    }

    /// Gives the new name `k` the value `v`.
    pub fn add(&mut self, k: String, v: V)
        requires
            old(self).wf(),
            !old(self).has(k@),
        ensures
            final(self).wf(),
            final(self).names() == old(self).names().push(k@),
            final(self).vals@ == old(self).vals@.push(v),
            final(self).has(k@),
            final(self).slot(k@) == old(self).vals@.len(),
            final(self).at(k@) == v,
            forall|x: Seq<char>| #[trigger]
                old(self).has(x) ==> final(self).has(x) && final(self).slot(x) == old(self).slot(x)
                    && final(self).at(x) == old(self).at(x),
            forall|x: Seq<char>| #[trigger] final(self).has(x) ==> x == k@ || old(self).has(x),
    {
        let ghost name = k@;
        let ghost before = self.names();
        self.keys.insert(k);
        self.vals.push(v);
        proof {
            lemma_index_of_unique(self.names(), name, before.len() as int);
            lemma_with_name(before, name);
            assert forall|x: Seq<char>| #[trigger] before.contains(x) implies self.names().index_of(
                x,
            ) == before.index_of(x) by {
                lemma_slot_in_pushed(before, name, x);
            }
        }
    }

    /// Gives `k` the value `v`, whether or not it had one.
    pub fn put(&mut self, k: String, v: V)
        requires
            old(self).wf(),
        ensures
            final(self).wf(),
            final(self).names() == with_name(old(self).names(), k@),
            final(self).has(k@),
            final(self).at(k@) == v,
            forall|x: Seq<char>| #[trigger]
                old(self).has(x) ==> final(self).has(x) && final(self).slot(x) == old(self).slot(x),
            forall|x: Seq<char>| #[trigger]
                old(self).has(x) && x != k@ ==> final(self).at(x) == old(self).at(x),
            forall|x: Seq<char>| #[trigger] final(self).has(x) ==> x == k@ || old(self).has(x),
            final(self).differs_only_at(*old(self), k@),
            old(self).has(k@) ==> final(self).vals@ == old(self).vals@.update(old(self).slot(k@), v),
            !old(self).has(k@) ==> final(self).vals@ == old(self).vals@.push(v),
    {
        match self.find(&k) {
            Some(i) => {
                proof {
                    assert forall|x: Seq<char>| #[trigger] self.has(x) && x != k@ implies self.slot(
                        x,
                    ) != i by {
                        assert(self.names()[self.slot(x)] == x);
                    }
                }
                self.vals[i] = v;
            },
            None => {
                self.add(k, v);
            },
        }
    }

    /// Takes out the name at position `i` and its value.
    pub fn remove_at(&mut self, i: usize) -> (v: V)
        requires
            old(self).wf(),
            i < old(self).vals@.len(),
        ensures
            final(self).wf(),
            v == old(self).vals@[i as int],
            final(self).names() == without_name(old(self).names(), old(self).names()[i as int]),
            final(self).names() == old(self).names().remove(i as int),
            final(self).vals@ == old(self).vals@.remove(i as int),
            !final(self).has(old(self).names()[i as int]),
            forall|x: Seq<char>| #[trigger]
                old(self).has(x) && x != old(self).names()[i as int] ==> final(self).has(x)
                    && final(self).at(x) == old(self).at(x),
            forall|x: Seq<char>| #[trigger] final(self).has(x) ==> old(self).has(x),
    {
        let ghost before = self.names();
        let ghost gone = before[i as int];
        proof {
            lemma_index_of_unique(before, gone, i as int);
            lemma_without_name(before, gone);
        }
        self.keys.items.remove(i);
        assert(self.names() =~= before.remove(i as int));
        proof {
            let after = self.names();
            assert forall|x: Seq<char>| #[trigger] before.contains(x) && x != gone implies after.index_of(
                x,
            ) == if before.index_of(x) < i {
                before.index_of(x)
            } else {
                before.index_of(x) - 1
            } by {
                let p = before.index_of(x);
                let q = if p < i { p } else { p - 1 };
                assert(before[p] == x);
                assert(after[q] == x);
                lemma_index_of_unique(after, x, q);
            }
        }
        self.vals.remove(i)
    }
}

impl Table<StrSet> {
    /// Every set of the table is free of repeats.
    pub open spec fn sets_wf(&self) -> bool {
        forall|j: int| 0 <= j < self.vals@.len() ==> (#[trigger] self.vals@[j]).wf()
    }

    /// The names in the set of `k`; none where `k` has no set.
    pub open spec fn listed(&self, k: Seq<char>) -> Seq<Seq<char>> {
        if self.has(k) {
            self.at(k).names()
        } else {
            Seq::empty()
        }
    }

    /// Takes `actor` out of the set of `k` if it is in it, and puts it in if
    /// it is not. A set is made for `k` if it has none.
    pub fn toggle(&mut self, k: String, actor: &String)
        requires
            old(self).wf(),
            old(self).sets_wf(),
        ensures
            final(self).wf(),
            final(self).sets_wf(),
            final(self).names() == with_name(old(self).names(), k@),
            final(self).listed(k@) == toggled(old(self).listed(k@), actor@),
            forall|x: Seq<char>| x != k@ ==> final(self).listed(x) == old(self).listed(x),
    {
        let ghost key = k@;
        let i = match self.find(&k) {
            Some(i) => i,
            None => {
                self.add(k, StrSet::new());
                self.vals.len() - 1
            },
        };
        let ghost made = *self;
        proof {
            lemma_index_of_unique(self.names(), key, i as int);
            lemma_with_name(made.vals@[i as int].names(), actor@);
            lemma_without_name(made.vals@[i as int].names(), actor@);
        }
        if self.vals[i].contains(actor) {
            self.vals[i].remove(actor);
        } else {
            self.vals[i].insert(actor.clone());
        }
        proof {
            self.lemma_changed_at(made, i as int);
            assert forall|x: Seq<char>| x != key implies self.listed(x) == old(self).listed(x) by {
                if old(self).has(x) {
                    assert(made.has(x));
                }
                if self.has(x) {
                    assert(made.has(x));
                    assert(old(self).has(x));
                }
            }
        }
    }
}

/// A name keeps its position when a new name is put behind the others.
pub proof fn lemma_slot_in_pushed(s: Seq<Seq<char>>, k: Seq<char>, x: Seq<char>)
    requires
        s.no_duplicates(),
        !s.contains(k),
        s.contains(x),
    ensures
        s.push(k).contains(x),
        s.push(k).index_of(x) == s.index_of(x),
{
    lemma_with_name(s, k);
    let i = s.index_of(x);
    assert(s.push(k)[i] == x);
    lemma_index_of_unique(s.push(k), x, i);
}

} // verus!
