//! A set of variables: keys mapped to values, kept in the order they were added.
use vstd::prelude::*;
use crate::order::{key_less, key_lt, lemma_key_lt_asymmetric, lemma_key_lt_irreflexive, lemma_key_lt_total, lemma_key_lt_transitive};

verus! {

/// A key with its value, as character sequences.
pub type Entry = (Seq<char>, Seq<char>);

pub open spec fn has_key_at(s: Seq<Entry>, k: Seq<char>, i: int) -> bool {
    0 <= i < s.len() && s[i].0 == k
}

pub open spec fn keys_unique(s: Seq<Entry>) -> bool {
    forall|i: int, j: int| 0 <= i < j < s.len() ==> s[i].0 != s[j].0
}

/// The mapping that a listing of entries stands for.
pub open spec fn entries_map(s: Seq<Entry>) -> Map<Seq<char>, Seq<char>> {
    Map::new(
        |k: Seq<char>| exists|i: int| has_key_at(s, k, i),
        |k: Seq<char>| s[choose|i: int| has_key_at(s, k, i)].1,
    )
}

/// The listing after `k` is set to `v`: replaced in place, or added at the end.
pub open spec fn listing_insert(s: Seq<Entry>, k: Seq<char>, v: Seq<char>) -> Seq<Entry> {
    if exists|i: int| has_key_at(s, k, i) {
        s.update(choose|i: int| has_key_at(s, k, i), (k, v))
    } else {
        s.push((k, v))
    }
}

pub proof fn lemma_lookup(s: Seq<Entry>, i: int)
    requires
        keys_unique(s),
        0 <= i < s.len(),
    ensures
        entries_map(s).contains_key(s[i].0),
        entries_map(s)[s[i].0] == s[i].1,
{
    assert(has_key_at(s, s[i].0, i));
    let j = choose|j: int| has_key_at(s, s[i].0, j);
    assert(j == i);
}

pub proof fn lemma_push(s: Seq<Entry>, k: Seq<char>, v: Seq<char>)
    requires
        keys_unique(s),
        !entries_map(s).contains_key(k),
    ensures
        keys_unique(s.push((k, v))),
        entries_map(s.push((k, v))) == entries_map(s).insert(k, v),
{
    let t = s.push((k, v));
    assert forall|i: int, j: int| 0 <= i < j < t.len() implies t[i].0 != t[j].0 by {
        if j == s.len() {
            assert(has_key_at(s, s[i].0, i));
        }
    }
    let m = entries_map(s).insert(k, v);
    assert forall|kk: Seq<char>| #[trigger] entries_map(t).contains_key(kk) <==> m.contains_key(kk) by {
        if entries_map(t).contains_key(kk) {
            let i = choose|i: int| has_key_at(t, kk, i);
            if i < s.len() {
                assert(has_key_at(s, kk, i));
            }
        }
        if m.contains_key(kk) {
            if kk == k {
                assert(has_key_at(t, kk, s.len() as int));
            } else {
                let i = choose|i: int| has_key_at(s, kk, i);
                assert(has_key_at(t, kk, i));
            }
        }
    }
    assert forall|kk: Seq<char>| #[trigger] m.contains_key(kk) implies entries_map(t)[kk] == m[kk] by {
        if kk == k {
            lemma_lookup(t, s.len() as int);
        } else {
            let i = choose|i: int| has_key_at(s, kk, i);
            lemma_lookup(t, i);
            lemma_lookup(s, i);
        }
    }
    assert(entries_map(t) =~= m);
}

pub proof fn lemma_update(s: Seq<Entry>, j: int, v: Seq<char>)
    requires
        keys_unique(s),
        0 <= j < s.len(),
    ensures
        keys_unique(s.update(j, (s[j].0, v))),
        entries_map(s.update(j, (s[j].0, v))) == entries_map(s).insert(s[j].0, v),
{
    let k = s[j].0;
    let t = s.update(j, (k, v));
    let m = entries_map(s).insert(k, v);
    assert forall|kk: Seq<char>| #[trigger] entries_map(t).contains_key(kk) <==> m.contains_key(kk) by {
        if entries_map(t).contains_key(kk) {
            let i = choose|i: int| has_key_at(t, kk, i);
            assert(has_key_at(s, kk, i));
        }
        if m.contains_key(kk) {
            if kk == k {
                assert(has_key_at(t, kk, j));
            } else {
                let i = choose|i: int| has_key_at(s, kk, i);
                assert(has_key_at(t, kk, i));
            }
        }
    }
    assert forall|kk: Seq<char>| #[trigger] m.contains_key(kk) implies entries_map(t)[kk] == m[kk] by {
        if kk == k {
            lemma_lookup(t, j);
        } else {
            let i = choose|i: int| has_key_at(s, kk, i);
            lemma_lookup(t, i);
            lemma_lookup(s, i);
        }
    }
    assert(entries_map(t) =~= m);
}

pub proof fn lemma_insert(s: Seq<Entry>, k: Seq<char>, v: Seq<char>)
    requires
        keys_unique(s),
    ensures
        keys_unique(listing_insert(s, k, v)),
        entries_map(listing_insert(s, k, v)) == entries_map(s).insert(k, v),
{
    if exists|i: int| has_key_at(s, k, i) {
        let j = choose|i: int| has_key_at(s, k, i);
        lemma_update(s, j, v);
    } else {
        lemma_push(s, k, v);
    }
}

/// Keys strictly increasing along the listing.
pub open spec fn sorted_keys(s: Seq<Entry>) -> bool {
    forall|i: int, j: int| 0 <= i < j < s.len() ==> key_lt(s[i].0, s[j].0)
}

/// The listing of a mapping in increasing key order.
pub open spec fn sorted_listing(m: Map<Seq<char>, Seq<char>>) -> Seq<Entry> {
    choose|s: Seq<Entry>| sorted_keys(s) && entries_map(s) == m
}

pub proof fn lemma_sorted_keys_unique(s: Seq<Entry>)
    requires
        sorted_keys(s),
    ensures
        keys_unique(s),
{
    assert forall|i: int, j: int| 0 <= i < j < s.len() implies s[i].0 != s[j].0 by {
        lemma_key_lt_irreflexive(s[i].0);
    }
}

pub proof fn lemma_insert_at(s: Seq<Entry>, pos: int, k: Seq<char>, v: Seq<char>)
    requires
        keys_unique(s),
        0 <= pos <= s.len(),
        !entries_map(s).contains_key(k),
    ensures
        keys_unique(s.insert(pos, (k, v))),
        entries_map(s.insert(pos, (k, v))) == entries_map(s).insert(k, v),
{
    let t = s.insert(pos, (k, v));
    assert forall|i: int| 0 <= i < s.len() implies s[i].0 != k by {
        assert(has_key_at(s, s[i].0, i));
    }
    assert forall|i: int, j: int| 0 <= i < j < t.len() implies t[i].0 != t[j].0 by {
        if i < pos && j > pos {
            assert(t[j] == s[j - 1]);
        } else if i > pos {
            assert(t[i] == s[i - 1] && t[j] == s[j - 1]);
        }
    }
    let m = entries_map(s).insert(k, v);
    assert forall|kk: Seq<char>| #[trigger] entries_map(t).contains_key(kk) <==> m.contains_key(kk) by {
        if entries_map(t).contains_key(kk) {
            let i = choose|i: int| has_key_at(t, kk, i);
            if i < pos {
                assert(has_key_at(s, kk, i));
            } else if i > pos {
                assert(has_key_at(s, kk, i - 1));
            }
        }
        if m.contains_key(kk) {
            if kk == k {
                assert(has_key_at(t, kk, pos));
            } else {
                let i = choose|i: int| has_key_at(s, kk, i);
                if i < pos {
                    assert(has_key_at(t, kk, i));
                } else {
                    assert(has_key_at(t, kk, i + 1));
                }
            }
        }
    }
    assert forall|kk: Seq<char>| #[trigger] m.contains_key(kk) implies entries_map(t)[kk] == m[kk] by {
        if kk == k {
            lemma_lookup(t, pos);
        } else {
            let i = choose|i: int| has_key_at(s, kk, i);
            lemma_lookup(s, i);
            if i < pos {
                lemma_lookup(t, i);
            } else {
                lemma_lookup(t, i + 1);
            }
        }
    }
    assert(entries_map(t) =~= m);
}

pub proof fn lemma_drop_first(s: Seq<Entry>)
    requires
        keys_unique(s),
        s.len() > 0,
    ensures
        keys_unique(s.drop_first()),
        entries_map(s.drop_first()) == entries_map(s).remove(s[0].0),
{
    let t = s.drop_first();
    let m = entries_map(s).remove(s[0].0);
    assert forall|kk: Seq<char>| #[trigger] entries_map(t).contains_key(kk) <==> m.contains_key(kk) by {
        if entries_map(t).contains_key(kk) {
            let i = choose|i: int| has_key_at(t, kk, i);
            assert(has_key_at(s, kk, i + 1));
        }
        if m.contains_key(kk) {
            let i = choose|i: int| has_key_at(s, kk, i);
            assert(has_key_at(t, kk, i - 1));
        }
    }
    assert forall|kk: Seq<char>| #[trigger] m.contains_key(kk) implies entries_map(t)[kk] == m[kk] by {
        let i = choose|i: int| has_key_at(s, kk, i);
        lemma_lookup(s, i);
        lemma_lookup(t, i - 1);
    }
    assert(entries_map(t) =~= m);
}

/// Two listings in increasing key order that stand for the same mapping are equal.
pub proof fn lemma_sorted_listing_unique(s1: Seq<Entry>, s2: Seq<Entry>)
    requires
        sorted_keys(s1),
        sorted_keys(s2),
        entries_map(s1) == entries_map(s2),
    ensures
        s1 == s2,
    decreases s1.len(),
{
    lemma_sorted_keys_unique(s1);
    lemma_sorted_keys_unique(s2);
    if s1.len() == 0 || s2.len() == 0 {
        if s1.len() > 0 {
            assert(has_key_at(s1, s1[0].0, 0));
            assert(entries_map(s2).contains_key(s1[0].0));
        }
        if s2.len() > 0 {
            assert(has_key_at(s2, s2[0].0, 0));
            assert(entries_map(s1).contains_key(s2[0].0));
        }
        assert(s1 =~= s2);
    } else {
        let a = s1[0].0;
        let b = s2[0].0;
        lemma_lookup(s1, 0);
        lemma_lookup(s2, 0);
        if a != b {
            let j = choose|j: int| has_key_at(s2, a, j);
            let i = choose|i: int| has_key_at(s1, b, i);
            assert(key_lt(b, a));
            assert(key_lt(a, b));
            lemma_key_lt_asymmetric(a, b);
        }
        lemma_drop_first(s1);
        lemma_drop_first(s2);
        lemma_sorted_listing_unique(s1.drop_first(), s2.drop_first());
        assert(s1[0] == s2[0]);
        assert(s1.len() == s2.len());
        assert forall|i: int| 0 <= i < s1.len() implies s1[i] == s2[i] by {
            if i > 0 {
                assert(s1[i] == s1.drop_first()[i - 1]);
                assert(s2[i] == s2.drop_first()[i - 1]);
            }
        }
        assert(s1 =~= s2);
    }
}

pub proof fn lemma_sorted_listing(s: Seq<Entry>)
    requires
        sorted_keys(s),
    ensures
        sorted_listing(entries_map(s)) == s,
{
    let m = entries_map(s);
    assert(sorted_keys(s) && entries_map(s) == m);
    let t = choose|t: Seq<Entry>| sorted_keys(t) && entries_map(t) == m;
    lemma_sorted_listing_unique(s, t);
}

/// Variables by key; each key appears once, in the order it was first set.
pub struct VariableSet {
    entries: Vec<(String, String)>,
}

impl View for VariableSet {
    type V = Map<Seq<char>, Seq<char>>;

    open spec fn view(&self) -> Map<Seq<char>, Seq<char>> {
        entries_map(self.listing())
    }
}

impl VariableSet {
    /// The entries in order, as character sequences.
    pub closed spec fn listing(&self) -> Seq<Entry> {
        self.entries@.map_values(|e: (String, String)| (e.0@, e.1@))
    }

    pub open spec fn wf(&self) -> bool {
        keys_unique(self.listing())
    }

    pub fn new() -> (r: VariableSet)
        ensures
            r.wf(),
            r.listing() == Seq::<Entry>::empty(),
            r@ == Map::<Seq<char>, Seq<char>>::empty(),
    {
        let r = VariableSet { entries: Vec::new() };
        assert(r.listing() =~= Seq::<Entry>::empty());
        assert(r@ =~= Map::<Seq<char>, Seq<char>>::empty());
        r
    }

    pub fn len(&self) -> (r: usize)
        ensures
            r == self.listing().len(),
    {
        self.entries.len()
    }

    pub fn is_empty(&self) -> (r: bool)
        ensures
            r == (self.listing().len() == 0),
    {
        self.entries.len() == 0
    }

    /// The `i`-th entry in order.
    pub fn entry(&self, i: usize) -> (r: (&String, &String))
        requires
            i < self.listing().len(),
        ensures
            (r.0@, r.1@) == self.listing()[i as int],
    {
        let e = &self.entries[i];
        (&e.0, &e.1)
    }

    /// The position of `key` in the listing, if present.
    pub fn position(&self, key: &String) -> (r: Option<usize>)
        ensures
            match r {
                Some(i) => has_key_at(self.listing(), key@, i as int),
                None => forall|i: int| !has_key_at(self.listing(), key@, i),
            },
    {
        let mut i: usize = 0;
        while i < self.entries.len()
            invariant
                i <= self.entries@.len(),
                forall|j: int| 0 <= j < i ==> !has_key_at(self.listing(), key@, j),
            decreases self.entries@.len() - i,
        {
            if self.entries[i].0 == *key {
                return Some(i);
            }
            i = i + 1;
        }
        None
    }

    pub fn contains_key(&self, key: &String) -> (r: bool)
        ensures
            r == self@.contains_key(key@),
    {
        self.position(key).is_some()
    }

    /// The value of `key`, if present.
    pub fn get(&self, key: &str) -> (r: Option<String>)
        requires
            self.wf(),
        ensures
            r is Some <==> self@.contains_key(key@),
            r is Some ==> r->0@ == self@[key@],
    {
        let k = String::from_str(key);
        match self.position(&k) {
            Some(i) => {
                proof {
                    lemma_lookup(self.listing(), i as int);
                }
                Some(self.entries[i].1.clone())
            },
            None => None,
        }
    }

    /// Sets `key` to `value`: an existing entry keeps its place, a new one goes last.
    pub fn insert(&mut self, key: String, value: String)
        requires
            old(self).wf(),
        ensures
            final(self).wf(),
            final(self).listing() == listing_insert(old(self).listing(), key@, value@),
            final(self)@ == old(self)@.insert(key@, value@),
    {
        let ghost s = self.listing();
        let ghost (k, v) = (key@, value@);
        proof {
            lemma_insert(s, k, v);
        }
        match self.position(&key) {
            Some(i) => {
                self.entries.set(i, (key, value));
                assert(self.listing() =~= listing_insert(s, k, v));
            },
            None => {
                self.entries.push((key, value));
                assert(self.listing() =~= listing_insert(s, k, v));
            },
        }
    }

    /// The same variables, in increasing key order.
    pub fn sorted(&self) -> (r: VariableSet)
        requires
            self.wf(),
        ensures
            r.wf(),
            r@ == self@,
            sorted_keys(r.listing()),
            r.listing() == sorted_listing(self@),
    {
        let ghost l = self.listing();
        let mut out = VariableSet::new();
        let mut i: usize = 0;
        while i < self.entries.len()
            invariant
                i <= l.len(),
                l == self.listing(),
                keys_unique(l),
                sorted_keys(out.listing()),
                entries_map(out.listing()) == entries_map(l.take(i as int)),
            decreases l.len() - i,
        {
            let ghost r = out.listing();
            let ghost (k, v) = l[i as int];
            let key = &self.entries[i].0;
            let mut pos: usize = 0;
            while pos < out.entries.len() && key_less(&out.entries[pos].0, key)
                invariant
                    pos <= r.len(),
                    r == out.listing(),
                    key@ == k,
                    forall|j: int| 0 <= j < pos ==> key_lt(r[j].0, k),
                decreases r.len() - pos,
            {
                pos = pos + 1;
            }
            proof {
                assert(l.take(i + 1).drop_last() =~= l.take(i as int));
                assert forall|j: int| 0 <= j < i implies l[j].0 != k by {}
                assert forall|j: int| #![auto] 0 <= j < i implies l.take(i as int)[j].0 != k by {}
                if entries_map(r).contains_key(k) {
                    let j = choose|j: int| has_key_at(l.take(i as int), k, j);
                }
                lemma_sorted_keys_unique(r);
                lemma_insert_at(r, pos as int, k, v);
                lemma_push(l.take(i as int), k, v);
                assert(l.take(i as int).push((k, v)) =~= l.take(i + 1));
                assert forall|j: int| 0 <= j < r.len() implies r[j].0 != k by {
                    assert(has_key_at(r, r[j].0, j));
                }
                if pos < r.len() {
                    lemma_key_lt_total(k, r[pos as int].0);
                    assert forall|j: int| pos <= j < r.len() implies key_lt(k, r[j].0) by {
                        if j > pos {
                            lemma_key_lt_transitive(k, r[pos as int].0, r[j].0);
                        }
                    }
                }
            }
            let e = (self.entries[i].0.clone(), self.entries[i].1.clone());
            out.entries.insert(pos, e);
            proof {
                let t = out.listing();
                assert(t =~= r.insert(pos as int, (k, v)));
                assert forall|a: int, b: int| 0 <= a < b < t.len() implies key_lt(t[a].0, t[b].0) by {
                    if b < pos {
                    } else if a < pos && b == pos {
                    } else if a < pos && b > pos {
                        assert(t[b] == r[b - 1]);
                    } else if a == pos {
                        assert(t[b] == r[b - 1]);
                    } else {
                        assert(t[a] == r[a - 1] && t[b] == r[b - 1]);
                    }
                }
            }
            i = i + 1;
        }
        proof {
            assert(l.take(l.len() as int) =~= l);
            lemma_sorted_keys_unique(out.listing());
            lemma_sorted_listing(out.listing());
        }
        out
    }

    /// Appends every entry of `other`, none of whose keys is present yet.
    pub fn append_all(&mut self, other: &VariableSet)
        requires
            old(self).wf(),
            other.wf(),
            forall|k: Seq<char>| #[trigger] other@.contains_key(k) ==> !old(self)@.contains_key(k),
        ensures
            final(self).wf(),
            final(self).listing() == old(self).listing() + other.listing(),
            final(self)@ == old(self)@.union_prefer_right(other@),
    {
        let ghost s0 = self.listing();
        let ghost m0 = self@;
        let ghost o = other.listing();
        let mut i: usize = 0;
        assert(o.take(0) =~= Seq::<Entry>::empty());
        assert(entries_map(o.take(0)) =~= Map::<Seq<char>, Seq<char>>::empty());
        assert(m0.union_prefer_right(entries_map(o.take(0))) =~= m0);
        assert(s0 + o.take(0) =~= s0);
        while i < other.entries.len()
            invariant
                i <= o.len(),
                o == other.listing(),
                keys_unique(o),
                forall|k: Seq<char>| #[trigger] other@.contains_key(k) ==> !m0.contains_key(k),
                self.wf(),
                self.listing() == s0 + o.take(i as int),
                self@ == m0.union_prefer_right(entries_map(o.take(i as int))),
            decreases o.len() - i,
        {
            let ghost (k, v) = o[i as int];
            proof {
                lemma_lookup(o, i as int);
                assert forall|j: int| 0 <= j < i implies o.take(i as int)[j].0 != k by {}
                if entries_map(o.take(i as int)).contains_key(k) {
                    let j = choose|j: int| has_key_at(o.take(i as int), k, j);
                }
                lemma_push(o.take(i as int), k, v);
                assert(o.take(i as int).push((k, v)) =~= o.take(i + 1));
                assert(other@.contains_key(k));
                assert(!entries_map(o.take(i as int)).contains_key(k));
                assert(!self@.contains_key(k));
                assert forall|j: int| !has_key_at(self.listing(), k, j) by {
                    if has_key_at(self.listing(), k, j) {
                        assert(self@.contains_key(k));
                    }
                }
            }
            let key = other.entries[i].0.clone();
            let value = other.entries[i].1.clone();
            self.insert(key, value);
            proof {
                assert(self.listing() =~= s0 + o.take(i + 1));
                assert(self@ =~= m0.union_prefer_right(entries_map(o.take(i + 1))));
            }
            i = i + 1;
        }
        assert(o.take(o.len() as int) =~= o);
    }
}

} // verus!
