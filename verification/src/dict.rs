//! Keys, values and dictionaries.
use std::sync::Arc;
use vstd::prelude::*;
use crate::string_map::StringMap;
use crate::string_map::{ascending, lemma_listing_unique, listing_of, pairs_map};
use crate::text::{same, text_less};

verus! {

/// A Schnorr public key, in the textual form that identifies it.
#[derive(Debug)]
pub struct PublicKey {
    pub text: String,
}

/// Where a secret key lies in the key store. The key material itself stays there.
#[derive(Clone, Copy, Debug, PartialEq, Eq, Structural)]
pub struct SecretKey {
    pub slot: u64,
}

/// What a dictionary holds under one key.
#[derive(Debug)]
pub enum FieldValue {
    /// An integer.
    Int(i64),
    /// The public key of a participant.
    PublicKey(PublicKey),
    /// A dictionary as a whole: the commitment to an earlier state.
    Dictionary(Arc<Dict>),
}

/// A dictionary: values under string keys.
#[derive(Debug)]
pub struct Dict {
    pub(crate) fields: StringMap<FieldValue>,
}

/// The meaning of a value.
pub ghost enum ValueView {
    Int(int),
    PublicKey(Seq<char>),
    Dictionary(Map<Seq<char>, ValueView>),
}

/// The meaning of a dictionary.
pub type DictView = Map<Seq<char>, ValueView>;

impl View for PublicKey {
    type V = Seq<char>;

    open spec fn view(&self) -> Seq<char> {
        self.text@
    }
}

impl View for FieldValue {
    type V = ValueView;

    closed spec fn view(&self) -> ValueView {
        value_view(*self)
    }
}

impl View for Dict {
    type V = DictView;

    closed spec fn view(&self) -> DictView {
        entries_view(self.fields.entries@)
    }
}

pub closed spec fn value_view(v: FieldValue) -> ValueView
    decreases v,
{
    match v {
        FieldValue::Int(i) => ValueView::Int(i as int),
        FieldValue::PublicKey(k) => ValueView::PublicKey(k.text@),
        FieldValue::Dictionary(d) => ValueView::Dictionary(entries_view(d.fields.entries@)),
    }
}

pub closed spec fn entries_view(entries: Seq<(String, FieldValue)>) -> DictView
    decreases entries,
{
    if entries.len() == 0 {
        Map::empty()
    } else {
        let e = entries[entries.len() - 1];
        entries_view(entries.subrange(0, entries.len() - 1)).insert(e.0@, value_view(e.1))
    }
}

/// What each kind of value means.
pub broadcast proof fn lemma_value_view(v: FieldValue)
    ensures
        #[trigger] v@ == match v {
            FieldValue::Int(i) => ValueView::Int(i as int),
            FieldValue::PublicKey(k) => ValueView::PublicKey(k@),
            FieldValue::Dictionary(d) => ValueView::Dictionary(d@),
        },
{
}

/// The entries mean the map of what each value means.
proof fn lemma_entries_view(entries: Seq<(String, FieldValue)>)
    ensures
        entries_view(entries) == pairs_map(listing_of(entries)).map_values(|v: FieldValue| v@),
        entries_view(entries) == pairs_map(meanings(listing_of(entries))),
    decreases entries.len(),
{
    let l = listing_of(entries);
    if entries.len() == 0 {
        assert(entries_view(entries) =~= pairs_map(l).map_values(|v: FieldValue| v@));
    } else {
        let front = entries.subrange(0, entries.len() - 1);
        lemma_entries_view(front);
        assert(l.drop_last() =~= listing_of(front));
        assert(meanings(l).drop_last() =~= meanings(listing_of(front)));
        assert(entries_view(entries) =~= pairs_map(l).map_values(|v: FieldValue| v@));
    }
}

/// A listing with each value taken by its meaning.
pub open spec fn meanings(l: Seq<(Seq<char>, FieldValue)>) -> Seq<(Seq<char>, ValueView)> {
    l.map_values(|e: (Seq<char>, FieldValue)| (e.0, e.1@))
}

/// Another handle on the same value: what `Arc::clone` gives, which makes a further pointer to
/// the same allocation. The handle leads to the value that it was made from.
#[verifier::external_body]
pub(crate) fn share(d: &Arc<Dict>) -> (r: Arc<Dict>)
    ensures
        r == *d,
{
    Arc::clone(d)
}

impl PublicKey {
    /// The key with the given text.
    pub fn new(text: String) -> (k: PublicKey)
        ensures
            k@ == text@,
    {
        PublicKey { text }
    }

    /// Whether two keys are the same key.
    pub fn is(&self, other: &PublicKey) -> (b: bool)
        ensures
            b == (self@ == other@),
    {
        same(self.text.as_str(), other.text.as_str())
    }

    /// The same key once more.
    pub fn copy(&self) -> (k: PublicKey)
        ensures
            k == *self,
    {
        PublicKey { text: self.text.clone() }
    }
}

impl FieldValue {
    /// The integer that the value is, where it is one.
    pub fn as_int(&self) -> (i: Option<i64>)
        ensures
            match i {
                Some(n) => self@ == ValueView::Int(n as int),
                None => !(self@ is Int),
            },
    {
        broadcast use lemma_value_view;

        match self {
            FieldValue::Int(n) => Some(*n),
            _ => None,
        }
    }

    /// Whether the value is the given public key.
    pub fn is_key(&self, key: &PublicKey) -> (b: bool)
        ensures
            b == (self@ == ValueView::PublicKey(key@)),
    {
        broadcast use lemma_value_view;

        match self {
            FieldValue::PublicKey(k) => k.is(key),
            _ => false,
        }
    }

    /// The same value once more.
    pub fn copy(&self) -> (v: FieldValue)
        ensures
            v == *self,
    {
        match self {
            FieldValue::Int(n) => FieldValue::Int(*n),
            FieldValue::PublicKey(k) => FieldValue::PublicKey(k.copy()),
            FieldValue::Dictionary(d) => FieldValue::Dictionary(share(d)),
        }
    }
}

/// Why a dictionary cannot be changed as asked.
#[derive(Clone, Copy, Debug, PartialEq, Eq, Structural)]
pub enum DictError {
    /// The key to delete or update is not there.
    KeyNotFound,
    /// The key to insert is already there.
    KeyExists,
}

impl Dict {
    /// The entries in key order.
    pub closed spec fn listing(&self) -> Seq<(Seq<char>, ValueView)> {
        meanings(self.fields.listing())
    }

    /// The dictionary is what its fields hold.
    proof fn lemma_view(&self)
        ensures
            self@ == self.fields@.map_values(|v: FieldValue| v@),
            self@ == pairs_map(self.listing()),
            self.fields@.dom() == self@.dom(),
            forall|k: Seq<char>| #[trigger] self@.contains_key(k) ==> self@[k] == self.fields@[k]@,
    {
        self.fields.lemma_meaning();
        lemma_entries_view(self.fields.entries@);
        assert(self.fields@.dom() =~= self@.dom());
    }

    /// The dictionary without any key.
    pub fn new() -> (d: Dict)
        ensures
            d@ == DictView::empty(),
    {
        let d = Dict { fields: StringMap::new() };
        proof {
            d.lemma_view();
            assert(d@ =~= DictView::empty());
        }
        d
    }

    /// The number of entries. The listing holds the entries of the dictionary in key order.
    pub fn len(&self) -> (n: usize)
        ensures
            n == self@.dom().len(),
            n == self.listing().len(),
            ascending(self.listing()),
            self@ == pairs_map(self.listing()),
    {
        let n = self.fields.len();
        proof {
            self.lemma_view();
            let l = self.fields.listing();
            let m = self.listing();
            assert forall|i: int, j: int| 0 <= i < j < m.len() implies text_less(
                m[i].0,
                m[j].0,
            ) by {
                assert(text_less(l[i].0, l[j].0));
            }
        }
        n
    }

    /// The `i`-th entry in key order.
    pub fn entry(&self, i: usize) -> (e: (&String, &FieldValue))
        requires
            i < self.listing().len(),
        ensures
            (e.0@, e.1@) == self.listing()[i as int],
            self@.contains_key(e.0@),
            self@[e.0@] == e.1@,
    {
        proof {
            self.lemma_view();
        }
        self.fields.entry(i)
    }

    /// The value under `key`, where there is one.
    pub fn get(&self, key: &str) -> (v: Option<&FieldValue>)
        ensures
            match v {
                Some(x) => self@.contains_key(key@) && self@[key@] == x@,
                None => !self@.contains_key(key@),
            },
    {
        proof {
            self.lemma_view();
        }
        self.fields.get(key)
    }

    /// Puts `value` under `key`, whether or not the key is there.
    pub fn put(&mut self, key: &str, value: FieldValue)
        ensures
            final(self)@ == old(self)@.insert(key@, value@),
    {
        proof {
            self.lemma_view();
        }
        self.fields.insert(key.to_owned(), value);
        proof {
            self.lemma_view();
            assert(self@ =~= old(self)@.insert(key@, value@));
        }
    }

    /// Takes `key` out, which must be there.
    pub fn delete(&mut self, key: &str) -> (r: Result<(), DictError>)
        ensures
            match r {
                Ok(_) => old(self)@.contains_key(key@) && final(self)@ == old(self)@.remove(key@),
                Err(e) => !old(self)@.contains_key(key@) && e == DictError::KeyNotFound
                    && final(self)@ == old(self)@,
            },
    {
        proof {
            self.lemma_view();
        }
        let found = self.fields.remove(key);
        proof {
            self.lemma_view();
            assert(self@ =~= old(self)@.remove(key@));
        }
        if found {
            Ok(())
        } else {
            assert(old(self)@.remove(key@) =~= old(self)@);
            Err(DictError::KeyNotFound)
        }
    }

    /// Puts `value` under `key`, which must not be there yet.
    pub fn insert(&mut self, key: &str, value: FieldValue) -> (r: Result<(), DictError>)
        ensures
            match r {
                Ok(_) => !old(self)@.contains_key(key@) && final(self)@ == old(self)@.insert(
                    key@,
                    value@,
                ),
                Err(e) => old(self)@.contains_key(key@) && e == DictError::KeyExists
                    && final(self)@ == old(self)@,
            },
    {
        if self.get(key).is_some() {
            return Err(DictError::KeyExists);
        }
        self.put(key, value);
        Ok(())
    }

    /// Puts `value` under `key`, which must be there already.
    pub fn update(&mut self, key: &str, value: FieldValue) -> (r: Result<(), DictError>)
        ensures
            match r {
                Ok(_) => old(self)@.contains_key(key@) && final(self)@ == old(self)@.insert(
                    key@,
                    value@,
                ),
                Err(e) => !old(self)@.contains_key(key@) && e == DictError::KeyNotFound
                    && final(self)@ == old(self)@,
            },
    {
        if self.get(key).is_none() {
            return Err(DictError::KeyNotFound);
        }
        self.put(key, value);
        Ok(())
    }

    /// The same dictionary once more.
    pub fn copy(&self) -> (d: Dict)
        ensures
            d@ == self@,
    {
        let n = self.fields.len();
        let mut entries: Vec<(String, FieldValue)> = Vec::new();
        let mut i: usize = 0;
        proof {
            self.fields.lemma_meaning();
        }
        while i < n
            invariant
                i <= n,
                n == self.fields.entries@.len(),
                entries@ == self.fields.entries@.take(i as int),
            decreases n - i,
        {
            let e = &self.fields.entries[i];
            entries.push((e.0.clone(), e.1.copy()));
            assert(entries@ =~= self.fields.entries@.take(i + 1));
            i = i + 1;
        }
        assert(entries@ =~= self.fields.entries@);
        Dict { fields: StringMap::from_ascending(entries) }
    }
}

/// Whether two values mean the same.
pub fn same_value(a: &FieldValue, b: &FieldValue) -> (r: bool)
    ensures
        r == (a@ == b@),
    decreases a,
{
    broadcast use lemma_value_view;

    match (a, b) {
        (FieldValue::Int(x), FieldValue::Int(y)) => *x == *y,
        (FieldValue::PublicKey(x), FieldValue::PublicKey(y)) => x.is(y),
        (FieldValue::Dictionary(x), FieldValue::Dictionary(y)) => same_dict(&**x, &**y),
        _ => false,
    }
}

/// Whether two dictionaries mean the same.
pub fn same_dict(a: &Dict, b: &Dict) -> (r: bool)
    ensures
        r == (a@ == b@),
    decreases a,
{
    let n = a.len();
    let ghost la = a.listing();
    let ghost lb = b.listing();
    if n != b.len() {
        return false;
    }
    let mut i: usize = 0;
    while i < n
        invariant
            i <= n,
            n == la.len(),
            n == lb.len(),
            la == a.listing(),
            lb == b.listing(),
            ascending(la),
            ascending(lb),
            a@ == pairs_map(la),
            b@ == pairs_map(lb),
            la.take(i as int) == lb.take(i as int),
        decreases n - i,
    {
        proof {
            a.fields.lemma_meaning();
        }
        let x = &a.fields.entries[i];
        let (ky, vy) = b.entry(i);
        proof {
            assert(la[i as int] == (x.0@, x.1@));
            if a@ == b@ {
                lemma_listing_unique(la, lb);
            }
        }
        if !same(x.0.as_str(), ky.as_str()) || !same_value(&x.1, vy) {
            return false;
        }
        assert(la.take(i + 1) =~= la.take(i as int).push(la[i as int]));
        assert(lb.take(i + 1) =~= lb.take(i as int).push(lb[i as int]));
        i = i + 1;
    }
    proof {
        assert(la.take(n as int) =~= la);
        assert(lb.take(n as int) =~= lb);
    }
    true
}

} // verus!
