use vstd::prelude::*;

verus! {

/// A small table of values keyed by name, kept in insertion order, with at
/// most one value per name.
pub struct Table<V> {
    entries: Vec<(String, V)>,
}

/// Whether `s` holds an entry whose name is `k`.
pub open spec fn has_name<V>(s: Seq<(String, V)>, k: Seq<char>) -> bool {
    exists|i: int| 0 <= i < s.len() && s[i].0@ == k
}

/// No two entries of `s` share a name.
pub open spec fn names_unique<V>(s: Seq<(String, V)>) -> bool {
    forall|i: int, j: int| 0 <= i < s.len() && 0 <= j < s.len() && s[i].0@ == s[j].0@ ==> i == j
}

/// The map from names to values that the entries `s` describe.
pub open spec fn entries_map<V>(s: Seq<(String, V)>) -> Map<Seq<char>, V> {
    Map::new(
        |k: Seq<char>| has_name(s, k),
        |k: Seq<char>| s[choose|i: int| 0 <= i < s.len() && s[i].0@ == k].1,
    )
}

proof fn lemma_entries_map_at<V>(s: Seq<(String, V)>, i: int)
    requires
        names_unique(s),
        0 <= i < s.len(),
    ensures
        entries_map(s).contains_key(s[i].0@),
        entries_map(s)[s[i].0@] == s[i].1,
{
    let k = s[i].0@;
    assert(has_name(s, k));
    let j = choose|j: int| 0 <= j < s.len() && s[j].0@ == k;
    assert(s[j].0@ == k);
}

proof fn lemma_entries_map_push<V>(s: Seq<(String, V)>, k: String, v: V)
    requires
        names_unique(s),
        !has_name(s, k@),
    ensures
        names_unique(s.push((k, v))),
        entries_map(s.push((k, v))) == entries_map(s).insert(k@, v),
{
    let t = s.push((k, v));
    assert forall|a: int, b: int| 0 <= a < t.len() && 0 <= b < t.len() && t[a].0@ == t[b].0@ implies a
        == b by {
        if a < s.len() && b == s.len() {
            assert(s[a].0@ == k@);
        } else if b < s.len() && a == s.len() {
            assert(s[b].0@ == k@);
        }
    }
    let m = entries_map(t);
    let n = entries_map(s).insert(k@, v);
    assert forall|q: Seq<char>| #![auto] m.contains_key(q) <==> n.contains_key(q) by {
        if has_name(t, q) {
            let a = choose|a: int| 0 <= a < t.len() && t[a].0@ == q;
            if a < s.len() {
                assert(s[a].0@ == q);
            }
        }
        if has_name(s, q) {
            let a = choose|a: int| 0 <= a < s.len() && s[a].0@ == q;
            assert(t[a].0@ == q);
        }
        if q == k@ {
            assert(t[s.len() as int].0@ == q);
        }
    }
    assert forall|q: Seq<char>| #[trigger] m.contains_key(q) implies m[q] == n[q] by {
        let a = choose|a: int| 0 <= a < t.len() && t[a].0@ == q;
        lemma_entries_map_at(t, a);
        if a < s.len() {
            lemma_entries_map_at(s, a);
        }
    }
    assert(m =~= n);
}

proof fn lemma_entries_map_update<V>(s: Seq<(String, V)>, i: int, v: V)
    requires
        names_unique(s),
        0 <= i < s.len(),
    ensures
        names_unique(s.update(i, (s[i].0, v))),
        entries_map(s.update(i, (s[i].0, v))) == entries_map(s).insert(s[i].0@, v),
{
    let t = s.update(i, (s[i].0, v));
    let k = s[i].0@;
    assert forall|a: int, b: int| 0 <= a < t.len() && 0 <= b < t.len() && t[a].0@ == t[b].0@ implies a
        == b by {
        assert(t[a].0@ == s[a].0@ && t[b].0@ == s[b].0@);
    }
    let m = entries_map(t);
    let n = entries_map(s).insert(k, v);
    assert forall|q: Seq<char>| #![auto] m.contains_key(q) <==> n.contains_key(q) by {
        if has_name(t, q) {
            let a = choose|a: int| 0 <= a < t.len() && t[a].0@ == q;
            assert(s[a].0@ == q);
        }
        if has_name(s, q) {
            let a = choose|a: int| 0 <= a < s.len() && s[a].0@ == q;
            assert(t[a].0@ == q);
        }
    }
    assert forall|q: Seq<char>| #[trigger] m.contains_key(q) implies m[q] == n[q] by {
        let a = choose|a: int| 0 <= a < t.len() && t[a].0@ == q;
        lemma_entries_map_at(t, a);
        if a != i {
            assert(s[a].0@ == q);
            lemma_entries_map_at(s, a);
        }
    }
    assert(m =~= n);
}

proof fn lemma_entries_map_remove<V>(s: Seq<(String, V)>, i: int)
    requires
        names_unique(s),
        0 <= i < s.len(),
    ensures
        names_unique(s.remove(i)),
        entries_map(s.remove(i)) == entries_map(s).remove(s[i].0@),
{
    let t = s.remove(i);
    let k = s[i].0@;
    assert forall|a: int| 0 <= a < t.len() implies #[trigger] t[a] == s[if a < i { a } else { a + 1 }] by {}
    assert forall|a: int, b: int| 0 <= a < t.len() && 0 <= b < t.len() && t[a].0@ == t[b].0@ implies a
        == b by {
        let a1 = if a < i { a } else { a + 1 };
        let b1 = if b < i { b } else { b + 1 };
        assert(t[a] == s[a1] && t[b] == s[b1]);
    }
    let m = entries_map(t);
    let n = entries_map(s).remove(k);
    assert forall|q: Seq<char>| #![auto] m.contains_key(q) <==> n.contains_key(q) by {
        if has_name(t, q) {
            let a = choose|a: int| 0 <= a < t.len() && t[a].0@ == q;
            let a1 = if a < i { a } else { a + 1 };
            assert(t[a] == s[a1]);
            assert(s[a1].0@ == q);
        }
        if has_name(s, q) && q != k {
            let a = choose|a: int| 0 <= a < s.len() && s[a].0@ == q;
            assert(a != i);
            let a0 = if a < i { a } else { a - 1 };
            assert(t[a0] == s[a]);
            assert(t[a0].0@ == q);
        }
    }
    assert forall|q: Seq<char>| #[trigger] m.contains_key(q) implies m[q] == n[q] by {
        let a = choose|a: int| 0 <= a < t.len() && t[a].0@ == q;
        lemma_entries_map_at(t, a);
        let a1 = if a < i { a } else { a + 1 };
        assert(t[a] == s[a1]);
        lemma_entries_map_at(s, a1);
    }
    assert(m =~= n);
}

impl<V> View for Table<V> {
    type V = Map<Seq<char>, V>;

    closed spec fn view(&self) -> Map<Seq<char>, V> {
        entries_map(self.entries@)
    }
}

impl<V> Table<V> {
    /// No two entries share a name.
    pub closed spec fn wf(&self) -> bool {
        names_unique(self.entries@)
    }

    /// An empty table.
    pub fn new() -> (r: Self)
        ensures
            r.wf(),
            r@ == Map::<Seq<char>, V>::empty(),
    {
        let r = Table { entries: Vec::new() };
        assert(r@ =~= Map::<Seq<char>, V>::empty());
        r
    }

    /// Position of the entry named `k`, if any.
    fn position(&self, k: &String) -> (r: Option<usize>)
        requires
            self.wf(),
        ensures
            r is None ==> !self@.contains_key(k@),
            r matches Some(i) ==> i < self.entries@.len() && self.entries@[i as int].0@ == k@,
    {
        let mut i: usize = 0;
        while i < self.entries.len()
            invariant
                i <= self.entries@.len(),
                forall|j: int| 0 <= j < i ==> self.entries@[j].0@ != k@,
            decreases self.entries@.len() - i,
        {
            if self.entries[i].0 == *k {
                return Some(i);
            }
            i = i + 1;
        }
        None
    }

    /// Whether a value is stored under `k`.
    pub fn contains_key(&self, k: &String) -> (r: bool)
        requires
            self.wf(),
        ensures
            r == self@.contains_key(k@),
    {
        match self.position(k) {
            Some(i) => {
                proof {
                    lemma_entries_map_at(self.entries@, i as int);
                }
                true
            },
            None => false,
        }
    }

    /// The value stored under `k`, if any.
    pub fn get(&self, k: &String) -> (r: Option<&V>)
        requires
            self.wf(),
        ensures
            r is Some == self@.contains_key(k@),
            r matches Some(v) ==> *v == self@[k@],
    {
        match self.position(k) {
            Some(i) => {
                proof {
                    lemma_entries_map_at(self.entries@, i as int);
                }
                Some(&self.entries[i].1)
            },
            None => None,
        }
    }

    /// Stores `v` under `k`, replacing any value stored there before.
    pub fn insert(&mut self, k: String, v: V)
        requires
            old(self).wf(),
        ensures
            final(self).wf(),
            final(self)@ == old(self)@.insert(k@, v),
    {
        match self.position(&k) {
            Some(i) => {
                proof {
                    lemma_entries_map_update(self.entries@, i as int, v);
                }
                let name = self.entries[i].0.clone();
                self.entries.set(i, (name, v));
            },
            None => {
                proof {
                    if has_name(self.entries@, k@) {
                        let j = choose|j: int| 0 <= j < self.entries@.len() && self.entries@[j].0@ == k@;
                        lemma_entries_map_at(self.entries@, j);
                    }
                    lemma_entries_map_push(self.entries@, k, v);
                }
                self.entries.push((k, v));
            },
        }
    }

    /// Drops the value stored under `k`, if any.
    pub fn remove(&mut self, k: &String)
        requires
            old(self).wf(),
        ensures
            final(self).wf(),
            final(self)@ == old(self)@.remove(k@),
    {
        match self.position(k) {
            Some(i) => {
                proof {
                    lemma_entries_map_remove(self.entries@, i as int);
                }
                self.entries.remove(i);
            },
            None => {
                assert(self@ =~= self@.remove(k@));
            },
        }
    }
}

} // verus!
