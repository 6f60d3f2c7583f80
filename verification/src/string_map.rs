//! A map with string keys, kept in key order.
use vstd::prelude::*;
use crate::text::{order, Order};
use crate::text::{lemma_text_irreflexive, lemma_text_transitive, text_less};

verus! {

/// The map that a sequence of key-value pairs stands for: a later pair replaces an earlier one.
pub open spec fn pairs_map<V>(pairs: Seq<(Seq<char>, V)>) -> Map<Seq<char>, V>
    decreases pairs.len(),
{
    if pairs.len() == 0 {
        Map::empty()
    } else {
        pairs_map(pairs.drop_last()).insert(pairs.last().0, pairs.last().1)
    }
}

/// The keys come in strictly ascending order, so none occurs twice.
pub open spec fn ascending<V>(pairs: Seq<(Seq<char>, V)>) -> bool {
    forall|i: int, j: int| 0 <= i < j < pairs.len() ==> text_less(pairs[i].0, pairs[j].0)
}

/// In an ascending listing the map holds exactly the listed pairs.
pub proof fn lemma_pairs_map<V>(pairs: Seq<(Seq<char>, V)>)
    requires
        ascending(pairs),
    ensures
        forall|i: int|
            0 <= i < pairs.len() ==> #[trigger] pairs_map(pairs).contains_key(pairs[i].0)
                && pairs_map(pairs)[pairs[i].0] == pairs[i].1,
        forall|k: Seq<char>| #[trigger]
            pairs_map(pairs).contains_key(k) ==> exists|i: int|
                0 <= i < pairs.len() && #[trigger] pairs[i].0 == k,
        pairs_map(pairs).dom().finite(),
        pairs_map(pairs).dom().len() == pairs.len(),
    decreases pairs.len(),
{
    if pairs.len() > 0 {
        let front = pairs.drop_last();
        lemma_pairs_map(front);
        let last = pairs.last();
        if pairs_map(front).contains_key(last.0) {
            let i = choose|i: int| 0 <= i < front.len() && #[trigger] front[i].0 == last.0;
            assert(text_less(pairs[i].0, pairs[pairs.len() - 1].0));
            lemma_text_irreflexive(last.0);
        }
        assert(pairs_map(pairs).dom() =~= pairs_map(front).dom().insert(last.0));
        assert forall|i: int| 0 <= i < pairs.len() implies #[trigger] pairs_map(pairs).contains_key(
            pairs[i].0,
        ) && pairs_map(pairs)[pairs[i].0] == pairs[i].1 by {
            if i < pairs.len() - 1 {
                assert(front[i] == pairs[i]);
                assert(pairs_map(front).contains_key(front[i].0));
                assert(text_less(pairs[i].0, pairs[pairs.len() - 1].0));
                if pairs[i].0 == last.0 {
                    lemma_text_irreflexive(last.0);
                }
            }
        }
        assert forall|k: Seq<char>| #[trigger] pairs_map(pairs).contains_key(k) implies exists|i: int|
            0 <= i < pairs.len() && #[trigger] pairs[i].0 == k by {
            if k == last.0 {
                assert(pairs[pairs.len() - 1].0 == k);
            } else {
                assert(pairs_map(front).contains_key(k));
                let i = choose|i: int| 0 <= i < front.len() && #[trigger] front[i].0 == k;
                assert(pairs[i].0 == k);
            }
        }
    }
}

/// Two ascending listings of one map are the same listing.
pub proof fn lemma_listing_unique<V>(a: Seq<(Seq<char>, V)>, b: Seq<(Seq<char>, V)>)
    requires
        ascending(a),
        ascending(b),
        pairs_map(a) == pairs_map(b),
    ensures
        a == b,
    decreases a.len(),
{
    lemma_pairs_map(a);
    lemma_pairs_map(b);
    assert(a.len() == b.len());
    if a.len() > 0 {
        let n = a.len() - 1;
        assert(pairs_map(b).contains_key(a[n].0));
        let j = choose|j: int| 0 <= j < b.len() && #[trigger] b[j].0 == a[n].0;
        assert(pairs_map(a).contains_key(b[n].0));
        let i = choose|i: int| 0 <= i < a.len() && #[trigger] a[i].0 == b[n].0;
        if j < n {
            assert(text_less(b[j].0, b[n].0));
            if i < n {
                assert(text_less(a[i].0, a[n].0));
                lemma_text_transitive(a[n].0, b[n].0, a[n].0);
            }
            lemma_text_irreflexive(a[n].0);
        }
        assert(a[n] == b[n]);
        let fa = a.drop_last();
        let fb = b.drop_last();
        lemma_pairs_map(fa);
        lemma_pairs_map(fb);
        assert(pairs_map(fa) =~= pairs_map(a).remove(a[n].0)) by {
            lemma_last_is_fresh(a);
        }
        assert(pairs_map(fb) =~= pairs_map(b).remove(b[n].0)) by {
            lemma_last_is_fresh(b);
        }
        lemma_listing_unique(fa, fb);
        assert(a == fa.push(a[n]));
        assert(b == fb.push(b[n]));
    }
}

/// Mapping the values of a listing maps the values of its map.
pub proof fn lemma_pairs_map_values<V, W>(l: Seq<(Seq<char>, V)>, f: spec_fn(V) -> W)
    ensures
        pairs_map(l.map_values(|e: (Seq<char>, V)| (e.0, f(e.1)))) == pairs_map(l).map_values(f),
    decreases l.len(),
{
    let g = |e: (Seq<char>, V)| (e.0, f(e.1));
    if l.len() > 0 {
        lemma_pairs_map_values(l.drop_last(), f);
        assert(l.map_values(g).drop_last() =~= l.drop_last().map_values(g));
    }
    assert(pairs_map(l.map_values(g)) =~= pairs_map(l).map_values(f));
}

proof fn lemma_last_is_fresh<V>(a: Seq<(Seq<char>, V)>)
    requires
        ascending(a),
        a.len() > 0,
    ensures
        !pairs_map(a.drop_last()).contains_key(a.last().0),
{
    let front = a.drop_last();
    lemma_pairs_map(front);
    if pairs_map(front).contains_key(a.last().0) {
        let i = choose|i: int| 0 <= i < front.len() && #[trigger] front[i].0 == a.last().0;
        assert(text_less(a[i].0, a[a.len() - 1].0));
        lemma_text_irreflexive(a.last().0);
    }
}

/// A map from strings to `V`. Its pairs lie in ascending order of the keys.
#[derive(Debug)]
pub struct StringMap<V> {
    pub(crate) entries: Vec<(String, V)>,
}

/// The pairs of a vector, with each key taken as its characters.
pub open spec fn listing_of<V>(entries: Seq<(String, V)>) -> Seq<(Seq<char>, V)> {
    entries.map_values(|e: (String, V)| (e.0@, e.1))
}

impl<V> View for StringMap<V> {
    type V = Map<Seq<char>, V>;

    closed spec fn view(&self) -> Map<Seq<char>, V> {
        pairs_map(self.listing())
    }
}

impl<V> StringMap<V> {
    /// The pairs in the order in which they lie.
    pub closed spec fn listing(&self) -> Seq<(Seq<char>, V)> {
        listing_of(self.entries@)
    }

    #[verifier::type_invariant]
    spec fn inv(self) -> bool {
        ascending(listing_of(self.entries@))
    }

    /// What the listing and the map are in terms of the entries.
    pub(crate) proof fn lemma_meaning(&self)
        ensures
            self.listing() == listing_of(self.entries@),
            self@ == pairs_map(self.listing()),
    {
    }

    /// The map without any key.
    pub fn new() -> (m: Self)
        ensures
            m@ == Map::<Seq<char>, V>::empty(),
            m.listing() == Seq::<(Seq<char>, V)>::empty(),
    {
        let m = StringMap { entries: Vec::new() };
        assert(m.listing() =~= Seq::<(Seq<char>, V)>::empty());
        m
    }

    /// The map of entries that lie in key order already.
    pub(crate) fn from_ascending(entries: Vec<(String, V)>) -> (m: Self)
        requires
            ascending(listing_of(entries@)),
        ensures
            m.entries == entries,
    {
        StringMap { entries }
    }

    /// The number of keys. The pairs of the listing are the pairs of the map, in key order.
    pub fn len(&self) -> (n: usize)
        ensures
            n == self@.dom().len(),
            n == self.listing().len(),
            self@.dom().finite(),
            ascending(self.listing()),
            self@ == pairs_map(self.listing()),
    {
        proof {
            use_type_invariant(self);
            lemma_pairs_map(self.listing());
        }
        self.entries.len()
    }

    /// The `i`-th pair in key order.
    pub fn entry(&self, i: usize) -> (e: (&String, &V))
        requires
            i < self.listing().len(),
        ensures
            e.0@ == self.listing()[i as int].0,
            *e.1 == self.listing()[i as int].1,
            self@.contains_key(e.0@),
            self@[e.0@] == *e.1,
    {
        proof {
            use_type_invariant(self);
            lemma_pairs_map(self.listing());
            assert(self@.contains_key(self.listing()[i as int].0));
        }
        let e = &self.entries[i];
        (&e.0, &e.1)
    }

    /// The first position whose key does not come before `key`.
    fn position(&self, key: &str) -> (p: usize)
        ensures
            p <= self.entries@.len(),
            forall|i: int| 0 <= i < p ==> text_less(#[trigger] self.entries@[i].0@, key@),
            p < self.entries@.len() ==> self.entries@[p as int].0@ == key@ || text_less(
                key@,
                self.entries@[p as int].0@,
            ),
    {
        let mut p: usize = 0;
        while p < self.entries.len()
            invariant
                p <= self.entries@.len(),
                forall|i: int| 0 <= i < p ==> text_less(#[trigger] self.entries@[i].0@, key@),
            decreases self.entries@.len() - p,
        {
            match order(self.entries[p].0.as_str(), key) {
                Order::Before => {
                    p = p + 1;
                },
                _ => {
                    return p;
                },
            }
        }
        p
    }

    /// The value under `key`, where there is one.
    pub fn get(&self, key: &str) -> (v: Option<&V>)
        ensures
            match v {
                Some(x) => self@.contains_key(key@) && self@[key@] == *x,
                None => !self@.contains_key(key@),
            },
    {
        let p = self.position(key);
        proof {
            use_type_invariant(self);
            lemma_pairs_map(self.listing());
        }
        let ghost l = self.listing();
        if p < self.entries.len() {
            match order(self.entries[p].0.as_str(), key) {
                Order::Same => {
                    assert(self@.contains_key(l[p as int].0));
                    return Some(&self.entries[p].1);
                },
                _ => {},
            }
        }
        proof {
            if self@.contains_key(key@) {
                let i = choose|i: int| 0 <= i < l.len() && #[trigger] l[i].0 == key@;
                lemma_text_irreflexive(key@);
                if i < p {
                    assert(text_less(self.entries@[i].0@, key@));
                } else if i > p {
                    assert(text_less(l[p as int].0, l[i].0));
                    lemma_text_transitive(key@, l[p as int].0, key@);
                }
            }
        }
        None
    }

    /// Whether `key` is in the map.
    pub fn contains(&self, key: &str) -> (b: bool)
        ensures
            b == self@.contains_key(key@),
    {
        match self.get(key) {
            Some(_) => true,
            None => false,
        }
    }

    /// Puts `value` under `key`, in place of what was there.
    pub fn insert(&mut self, key: String, value: V)
        ensures
            final(self)@ == old(self)@.insert(key@, value),
    {
        let p = self.position(key.as_str());
        proof {
            use_type_invariant(&*self);
        }
        let ghost l = self.listing();
        let mut entries: Vec<(String, V)> = Vec::new();
        std::mem::swap(&mut entries, &mut self.entries);
        let mut present = false;
        if p < entries.len() {
            match order(entries[p].0.as_str(), key.as_str()) {
                Order::Same => {
                    present = true;
                },
                _ => {},
            }
        }
        let ghost pair = (key@, value);
        if present {
            entries[p] = (key, value);
            proof {
                assert(listing_of(entries@) =~= l.update(p as int, pair));
                lemma_replaced(l, p as int, pair.1);
            }
        } else {
            entries.insert(p, (key, value));
            proof {
                assert(listing_of(entries@) =~= l.insert(p as int, pair));
                lemma_placed(l, p as int, pair);
            }
        }
        self.entries = entries;
    }

    /// Takes `key` out of the map. Whether it was there.
    pub fn remove(&mut self, key: &str) -> (found: bool)
        ensures
            final(self)@ == old(self)@.remove(key@),
            found == old(self)@.contains_key(key@),
    {
        let found = self.contains(key);
        let p = self.position(key);
        proof {
            use_type_invariant(&*self);
        }
        let ghost l = self.listing();
        if found {
            let mut entries: Vec<(String, V)> = Vec::new();
            std::mem::swap(&mut entries, &mut self.entries);
            proof {
                lemma_pairs_map(l);
                let i = choose|i: int| 0 <= i < l.len() && #[trigger] l[i].0 == key@;
                lemma_text_irreflexive(key@);
                if i < p {
                    assert(text_less(entries@[i].0@, key@));
                } else if i > p {
                    assert(text_less(l[p as int].0, l[i].0));
                    if l[p as int].0 != key@ {
                        lemma_text_transitive(key@, l[p as int].0, key@);
                    }
                }
                assert(i == p);
                lemma_taken(l, p as int);
            }
            let _ = entries.remove(p);
            assert(listing_of(entries@) =~= l.remove(p as int));
            self.entries = entries;
        } else {
            assert(self@.remove(key@) =~= self@);
        }
        found
    }
}

impl<V: Copy> StringMap<V> {
    /// The same map once more.
    pub fn copy(&self) -> (m: StringMap<V>)
        ensures
            m@ == self@,
            m.listing() == self.listing(),
    {
        let mut entries: Vec<(String, V)> = Vec::new();
        let mut i: usize = 0;
        while i < self.entries.len()
            invariant
                i <= self.entries@.len(),
                entries@ == self.entries@.take(i as int),
            decreases self.entries@.len() - i,
        {
            let e = &self.entries[i];
            entries.push((e.0.clone(), e.1));
            assert(entries@ =~= self.entries@.take(i + 1));
            i = i + 1;
        }
        assert(entries@ =~= self.entries@);
        proof {
            use_type_invariant(self);
        }
        StringMap { entries }
    }
}

/// Replacing the value at one place of a listing.
proof fn lemma_replaced<V>(l: Seq<(Seq<char>, V)>, p: int, v: V)
    requires
        ascending(l),
        0 <= p < l.len(),
    ensures
        ascending(l.update(p, (l[p].0, v))),
        pairs_map(l.update(p, (l[p].0, v))) == pairs_map(l).insert(l[p].0, v),
{
    let n = l.update(p, (l[p].0, v));
    assert(forall|i: int| 0 <= i < l.len() ==> (#[trigger] n[i]).0 == l[i].0);
    lemma_pairs_map(l);
    lemma_pairs_map(n);
    assert(pairs_map(n) =~= pairs_map(l).insert(l[p].0, v)) by {
        assert forall|k: Seq<char>|
            pairs_map(n).contains_key(k) == pairs_map(l).insert(l[p].0, v).contains_key(k) by {
            if pairs_map(n).contains_key(k) {
                let i = choose|i: int| 0 <= i < n.len() && #[trigger] n[i].0 == k;
                assert(pairs_map(l).contains_key(l[i].0));
            }
            if pairs_map(l).contains_key(k) {
                let i = choose|i: int| 0 <= i < l.len() && #[trigger] l[i].0 == k;
                assert(pairs_map(n).contains_key(n[i].0));
            }
            assert(pairs_map(n).contains_key(n[p].0));
        }
        assert forall|k: Seq<char>| #[trigger] pairs_map(n).contains_key(k) implies pairs_map(n)[k]
            == pairs_map(l).insert(l[p].0, v)[k] by {
            let i = choose|i: int| 0 <= i < n.len() && #[trigger] n[i].0 == k;
            assert(pairs_map(l).contains_key(l[i].0));
            assert(pairs_map(n).contains_key(n[i].0));
            if i < p {
                assert(text_less(l[i].0, l[p].0));
                lemma_text_irreflexive(k);
            } else if i > p {
                assert(text_less(l[p].0, l[i].0));
                lemma_text_irreflexive(k);
            }
        }
    }
}

/// Placing a new pair between the smaller and the greater keys of a listing.
proof fn lemma_placed<V>(l: Seq<(Seq<char>, V)>, p: int, e: (Seq<char>, V))
    requires
        ascending(l),
        0 <= p <= l.len(),
        forall|i: int| 0 <= i < p ==> text_less((#[trigger] l[i]).0, e.0),
        p < l.len() ==> text_less(e.0, l[p].0),
    ensures
        ascending(l.insert(p, e)),
        pairs_map(l.insert(p, e)) == pairs_map(l).insert(e.0, e.1),
{
    let n = l.insert(p, e);
    assert forall|i: int| p <= i < l.len() implies text_less(e.0, (#[trigger] l[i]).0) by {
        if i > p {
            assert(text_less(l[p].0, l[i].0));
            lemma_text_transitive(e.0, l[p].0, l[i].0);
        }
    }
    assert forall|i: int, j: int| 0 <= i < j < n.len() implies text_less(n[i].0, n[j].0) by {
        let a = if i < p { i } else { i - 1 };
        let b = if j < p { j } else { j - 1 };
        if i == p {
            assert(n[j] == l[b]);
        } else if j == p {
            assert(n[i] == l[a]);
        } else {
            assert(n[i] == l[a]);
            assert(n[j] == l[b]);
        }
    }
    lemma_pairs_map(l);
    lemma_pairs_map(n);
    assert(pairs_map(n) =~= pairs_map(l).insert(e.0, e.1)) by {
        assert(n[p] == e);
        assert(pairs_map(n).contains_key(n[p].0));
        assert forall|k: Seq<char>|
            pairs_map(n).contains_key(k) == pairs_map(l).insert(e.0, e.1).contains_key(k) by {
            if pairs_map(n).contains_key(k) {
                let i = choose|i: int| 0 <= i < n.len() && #[trigger] n[i].0 == k;
                if i < p {
                    assert(n[i] == l[i]);
                    assert(pairs_map(l).contains_key(l[i].0));
                } else if i > p {
                    assert(n[i] == l[i - 1]);
                    assert(pairs_map(l).contains_key(l[i - 1].0));
                }
            }
            if pairs_map(l).contains_key(k) {
                let i = choose|i: int| 0 <= i < l.len() && #[trigger] l[i].0 == k;
                if i < p {
                    assert(n[i] == l[i]);
                    assert(pairs_map(n).contains_key(n[i].0));
                } else {
                    assert(n[i + 1] == l[i]);
                    assert(pairs_map(n).contains_key(n[i + 1].0));
                }
            }
        }
        assert forall|k: Seq<char>| #[trigger] pairs_map(n).contains_key(k) implies pairs_map(n)[k]
            == pairs_map(l).insert(e.0, e.1)[k] by {
            let i = choose|i: int| 0 <= i < n.len() && #[trigger] n[i].0 == k;
            assert(pairs_map(n).contains_key(n[i].0));
            lemma_text_irreflexive(k);
            if i < p {
                assert(n[i] == l[i]);
                assert(pairs_map(l).contains_key(l[i].0));
            } else if i > p {
                assert(n[i] == l[i - 1]);
                assert(pairs_map(l).contains_key(l[i - 1].0));
            }
        }
    }
}

/// Taking one pair out of a listing.
proof fn lemma_taken<V>(l: Seq<(Seq<char>, V)>, p: int)
    requires
        ascending(l),
        0 <= p < l.len(),
    ensures
        ascending(l.remove(p)),
        pairs_map(l.remove(p)) == pairs_map(l).remove(l[p].0),
{
    let n = l.remove(p);
    assert forall|i: int, j: int| 0 <= i < j < n.len() implies text_less(n[i].0, n[j].0) by {
        let a = if i < p { i } else { i + 1 };
        let b = if j < p { j } else { j + 1 };
        assert(n[i] == l[a]);
        assert(n[j] == l[b]);
    }
    lemma_placed(n, p, l[p]);
    assert(n.insert(p, l[p]) =~= l);
    lemma_pairs_map(n);
    if pairs_map(n).contains_key(l[p].0) {
        let i = choose|i: int| 0 <= i < n.len() && #[trigger] n[i].0 == l[p].0;
        let a = if i < p { i } else { i + 1 };
        assert(n[i] == l[a]);
        lemma_text_irreflexive(l[p].0);
    }
    assert(pairs_map(n).insert(l[p].0, l[p].1).remove(l[p].0) =~= pairs_map(n));
}

} // verus!
