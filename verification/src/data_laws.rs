//! What strings, maps and dictionaries do, told from what goes in and what comes out. Each law
//! speaks of every call: `call_ensures` says that the call gave this result.
use vstd::prelude::*;
use vstd::utf8::encode_utf8;
use crate::dict::{lemma_value_view, ValueView};
use crate::dict::{same_dict, same_value, Dict, DictError, FieldValue, PublicKey};
use crate::string_map::StringMap;
use crate::string_map::{lemma_pairs_map, pairs_map};
use crate::text::{bytes_less, lemma_text_irreflexive, lemma_text_transitive, text_less};
use crate::text::{join, order, same, Order};

verus! {

/// `a` and `b` agree in their first `n` bytes, and there `a` ends or has the smaller byte.
pub open spec fn differ_at(a: Seq<u8>, b: Seq<u8>, n: int) -> bool {
    &&& 0 <= n <= a.len()
    &&& n < b.len()
    &&& forall|i: int| 0 <= i < n ==> #[trigger] a[i] == b[i]
    &&& n == a.len() || a[n] < b[n]
}

proof fn lemma_bytes_less(a: Seq<u8>, b: Seq<u8>)
    ensures
        bytes_less(a, b) <==> exists|n: int| #[trigger] differ_at(a, b, n),
    decreases a.len(),
{
    if a.len() > 0 && b.len() > 0 && a[0] == b[0] {
        let ta = a.drop_first();
        let tb = b.drop_first();
        lemma_bytes_less(ta, tb);
        if bytes_less(a, b) {
            let n = choose|n: int| #[trigger] differ_at(ta, tb, n);
            assert forall|i: int| 0 <= i < n + 1 implies #[trigger] a[i] == b[i] by {
                if i > 0 {
                    assert(ta[i - 1] == tb[i - 1]);
                }
            }
            assert(differ_at(a, b, n + 1));
        }
        if exists|n: int| #[trigger] differ_at(a, b, n) {
            let n = choose|n: int| #[trigger] differ_at(a, b, n);
            assert forall|i: int| 0 <= i < n - 1 implies #[trigger] ta[i] == tb[i] by {
                assert(a[i + 1] == b[i + 1]);
            }
            assert(differ_at(ta, tb, n - 1));
        }
    } else if bytes_less(a, b) {
        assert(differ_at(a, b, 0));
    } else if exists|n: int| #[trigger] differ_at(a, b, n) {
        let n = choose|n: int| #[trigger] differ_at(a, b, n);
        assert(n > 0 ==> a[0] == b[0]);
    }
}

/// One string comes before another if and only if at the first byte in which they differ it has the
/// smaller one, or it ends there.
pub proof fn law_text_order(a: Seq<char>, b: Seq<char>)
    ensures
        text_less(a, b) <==> exists|n: int| #[trigger]
            differ_at(encode_utf8(a), encode_utf8(b), n),
{
    lemma_bytes_less(encode_utf8(a), encode_utf8(b));
}

/// Comparing tells which of two strings comes first, and the same of them the other way round.
pub proof fn law_order(a: &str, b: &str, r: Order, back: Order)
    requires
        call_ensures(order, (a, b), r),
        call_ensures(order, (b, a), back),
    ensures
        r == Order::Same <==> a@ == b@,
        r == Order::Before <==> exists|n: int| #[trigger]
            differ_at(encode_utf8(a@), encode_utf8(b@), n),
        r == Order::After <==> exists|n: int| #[trigger]
            differ_at(encode_utf8(b@), encode_utf8(a@), n),
        back == match r {
            Order::Before => Order::After,
            Order::Same => Order::Same,
            Order::After => Order::Before,
        },
{
    law_text_order(a@, b@);
    law_text_order(b@, a@);
    lemma_text_irreflexive(a@);
    if text_less(a@, b@) && text_less(b@, a@) {
        lemma_text_transitive(a@, b@, a@);
    }
}

/// Two strings are the same if and only if their characters are, and joining puts the characters of
/// the second behind those of the first.
pub proof fn law_same_and_join(a: &str, b: &str, r: bool, joined: String)
    requires
        call_ensures(same, (a, b), r),
        call_ensures(join, (a, b), joined),
    ensures
        r <==> a@ == b@,
        joined@.len() == a@.len() + b@.len(),
        joined@.take(a@.len() as int) == a@,
        joined@.skip(a@.len() as int) == b@,
{
}

/// Nothing is found in a new map, and it has no pairs.
pub proof fn law_new_map<V>(m: StringMap<V>, key: &str, v: Option<&V>, n: usize)
    requires
        call_ensures(StringMap::<V>::new, (), m),
        call_ensures(StringMap::<V>::get, (&m, key), v),
        call_ensures(StringMap::<V>::len, (&m,), n),
    ensures
        v is None,
        n == 0,
{
}

/// What is put under a key is found there, and nothing else changes.
pub proof fn law_map_insert<V>(
    m: &mut StringMap<V>,
    key: String,
    value: V,
    other: &str,
    before: Option<&V>,
    after: Option<&V>,
    n: usize,
    grown: usize,
)
    requires
        call_ensures(StringMap::<V>::insert, (m, key, value), ()),
        call_ensures(StringMap::<V>::get, (&*old(m), other), before),
        call_ensures(StringMap::<V>::get, (&*final(m), other), after),
        call_ensures(StringMap::<V>::len, (&*old(m),), n),
        call_ensures(StringMap::<V>::len, (&*final(m),), grown),
    ensures
        other@ == key@ ==> after == Some(&value),
        other@ != key@ ==> after == before,
        other@ == key@ ==> grown == if before is Some {
            n as int
        } else {
            n + 1
        },
{
}

/// What is taken out is no longer found, taking out tells whether it was there, and nothing else
/// changes.
pub proof fn law_map_remove<V>(
    m: &mut StringMap<V>,
    key: &str,
    found: bool,
    other: &str,
    before: Option<&V>,
    after: Option<&V>,
)
    requires
        call_ensures(StringMap::<V>::remove, (m, key), found),
        call_ensures(StringMap::<V>::get, (&*old(m), other), before),
        call_ensures(StringMap::<V>::get, (&*final(m), other), after),
    ensures
        other@ == key@ ==> after is None && found == before is Some,
        other@ != key@ ==> after == before,
{
}

/// A key is in a map if and only if something is found under it, and then it is found again in a
/// copy.
pub proof fn law_map_contains_and_copy(
    m: StringMap<i64>,
    key: &str,
    b: bool,
    v: Option<&i64>,
    copied: StringMap<i64>,
    w: Option<&i64>,
)
    requires
        call_ensures(StringMap::<i64>::contains, (&m, key), b),
        call_ensures(StringMap::<i64>::get, (&m, key), v),
        call_ensures(StringMap::<i64>::copy, (&m,), copied),
        call_ensures(StringMap::<i64>::get, (&copied, key), w),
    ensures
        b <==> v is Some,
        w == v,
{
}

/// Each pair of a map is found under its key, and the pairs come in the order of their keys.
pub proof fn law_map_entries<V>(
    m: StringMap<V>,
    n: usize,
    i: usize,
    e: (&String, &V),
    j: usize,
    f: (&String, &V),
    key: &str,
    v: Option<&V>,
)
    requires
        call_ensures(StringMap::<V>::len, (&m,), n),
        i < j < n,
        call_ensures(StringMap::<V>::entry, (&m, i), e),
        call_ensures(StringMap::<V>::entry, (&m, j), f),
        call_ensures(StringMap::<V>::get, (&m, key), v),
    ensures
        text_less(e.0@, f.0@),
        e.0@ == key@ ==> v == Some(e.1),
        f.0@ == key@ ==> v == Some(f.1),
{
}

/// The `i`-th pair of the map is `value` under `key`.
pub open spec fn gives<V>(m: StringMap<V>, i: usize, key: Seq<char>, value: V) -> bool {
    forall|e: (&String, &V)| #[trigger]
        call_ensures(StringMap::<V>::entry, (&m, i), e) ==> e.0@ == key && *e.1 == value
}

/// Whatever is found under a key is the value of one of the pairs.
pub proof fn law_map_entries_are_all<V>(m: StringMap<V>, n: usize, key: &str, v: Option<&V>)
    requires
        call_ensures(StringMap::<V>::len, (&m,), n),
        call_ensures(StringMap::<V>::get, (&m, key), v),
    ensures
        v is Some ==> exists|i: usize| i < n && #[trigger] gives(m, i, key@, *v->0),
{
    lemma_pairs_map(m.listing());
    if v is Some {
        let i = choose|i: int| 0 <= i < m.listing().len() && #[trigger] m.listing()[i].0 == key@;
        assert(i as usize as int == i);
        assert(pairs_map(m.listing()).contains_key(m.listing()[i].0));
        assert(gives(m, i as usize, key@, *v->0));
    }
}

/// Keys are the same if and only if their texts are, and a copy has the same text.
pub proof fn law_public_keys(
    text: String,
    k: PublicKey,
    other: PublicKey,
    same_key: bool,
    copied: PublicKey,
)
    requires
        call_ensures(PublicKey::new, (text,), k),
        call_ensures(PublicKey::is, (&k, &other), same_key),
        call_ensures(PublicKey::copy, (&k,), copied),
    ensures
        k.text@ == text@,
        same_key <==> text@ == other.text@,
        copied.text@ == text@,
{
}

/// Only an integer is read as one, only a key as a key, and a copy is read as what was copied.
pub proof fn law_values(
    v: FieldValue,
    i: Option<i64>,
    key: PublicKey,
    b: bool,
    copied: FieldValue,
)
    requires
        call_ensures(FieldValue::as_int, (&v,), i),
        call_ensures(FieldValue::is_key, (&v, &key), b),
        call_ensures(FieldValue::copy, (&v,), copied),
    ensures
        i == match v {
            FieldValue::Int(n) => Some(n),
            _ => None,
        },
        b == match v {
            FieldValue::PublicKey(k) => k.text@ == key.text@,
            _ => false,
        },
        copied == v,
{
    broadcast use lemma_value_view;

}

/// What a value is determines what it means, and values of different kinds mean different things.
pub proof fn law_values_mean_what_they_are(v: FieldValue)
    ensures
        match v {
            FieldValue::Int(n) => v@ == ValueView::Int(n as int),
            FieldValue::PublicKey(k) => v@ == ValueView::PublicKey(k.text@),
            FieldValue::Dictionary(d) => v@ == ValueView::Dictionary(d@),
        },
{
    broadcast use lemma_value_view;

}

/// A dictionary means what is found in it: something is found under its keys and nowhere else.
pub proof fn law_dict_get(d: Dict, key: &str, v: Option<&FieldValue>, n: usize)
    requires
        call_ensures(Dict::get, (&d, key), v),
        call_ensures(Dict::len, (&d,), n),
    ensures
        match v {
            Some(x) => d@.contains_key(key@) && d@[key@] == x@,
            None => !d@.contains_key(key@),
        },
        n == d@.dom().len(),
{
}

/// Two things found are the same, where something is found.
pub open spec fn same_finding(a: Option<&FieldValue>, b: Option<&FieldValue>) -> bool {
    match (a, b) {
        (Some(x), Some(y)) => x@ == y@,
        (None, None) => true,
        _ => false,
    }
}

/// Nothing is found in a new dictionary, and in a copy the same as in what was copied.
pub proof fn law_dict_new_and_copy(
    empty: Dict,
    key: &str,
    nothing: Option<&FieldValue>,
    d: Dict,
    copied: Dict,
    v: Option<&FieldValue>,
    w: Option<&FieldValue>,
)
    requires
        call_ensures(Dict::new, (), empty),
        call_ensures(Dict::get, (&empty, key), nothing),
        call_ensures(Dict::copy, (&d,), copied),
        call_ensures(Dict::get, (&d, key), v),
        call_ensures(Dict::get, (&copied, key), w),
    ensures
        nothing is None,
        same_finding(v, w),
{
}

/// What is put under a key is found there, and nothing else changes.
pub proof fn law_dict_put(
    d: &mut Dict,
    key: &str,
    value: FieldValue,
    other: &str,
    before: Option<&FieldValue>,
    after: Option<&FieldValue>,
)
    requires
        call_ensures(Dict::put, (d, key, value), ()),
        call_ensures(Dict::get, (&*old(d), other), before),
        call_ensures(Dict::get, (&*final(d), other), after),
    ensures
        other@ == key@ ==> same_finding(after, Some(&value)),
        other@ != key@ ==> same_finding(after, before),
{
}

/// A key can be deleted if and only if something is found under it; then nothing is any more, and
/// nothing else changes.
pub proof fn law_dict_delete(
    d: &mut Dict,
    key: &str,
    r: Result<(), DictError>,
    there: Option<&FieldValue>,
    other: &str,
    before: Option<&FieldValue>,
    after: Option<&FieldValue>,
)
    requires
        call_ensures(Dict::delete, (d, key), r),
        call_ensures(Dict::get, (&*old(d), key), there),
        call_ensures(Dict::get, (&*old(d), other), before),
        call_ensures(Dict::get, (&*final(d), other), after),
    ensures
        r is Ok <==> there is Some,
        r is Err ==> r->Err_0 == DictError::KeyNotFound,
        other@ == key@ ==> after is None,
        other@ != key@ ==> same_finding(after, before),
{
}

/// A key can be inserted if and only if nothing is found under it; then the value is, and nothing
/// else changes.
pub proof fn law_dict_insert(
    d: &mut Dict,
    key: &str,
    value: FieldValue,
    r: Result<(), DictError>,
    there: Option<&FieldValue>,
    other: &str,
    before: Option<&FieldValue>,
    after: Option<&FieldValue>,
)
    requires
        call_ensures(Dict::insert, (d, key, value), r),
        call_ensures(Dict::get, (&*old(d), key), there),
        call_ensures(Dict::get, (&*old(d), other), before),
        call_ensures(Dict::get, (&*final(d), other), after),
    ensures
        r is Ok <==> there is None,
        r is Err ==> r->Err_0 == DictError::KeyExists,
        r is Ok && other@ == key@ ==> same_finding(after, Some(&value)),
        r is Err || other@ != key@ ==> same_finding(after, before),
{
}

/// A key can be updated if and only if something is found under it; then the new value is, and
/// nothing else changes.
pub proof fn law_dict_update(
    d: &mut Dict,
    key: &str,
    value: FieldValue,
    r: Result<(), DictError>,
    there: Option<&FieldValue>,
    other: &str,
    before: Option<&FieldValue>,
    after: Option<&FieldValue>,
)
    requires
        call_ensures(Dict::update, (d, key, value), r),
        call_ensures(Dict::get, (&*old(d), key), there),
        call_ensures(Dict::get, (&*old(d), other), before),
        call_ensures(Dict::get, (&*final(d), other), after),
    ensures
        r is Ok <==> there is Some,
        r is Err ==> r->Err_0 == DictError::KeyNotFound,
        r is Ok && other@ == key@ ==> same_finding(after, Some(&value)),
        r is Err || other@ != key@ ==> same_finding(after, before),
{
}

/// Each entry of a dictionary is found under its key, and the entries come in the order of their
/// keys.
pub proof fn law_dict_entries(
    d: Dict,
    n: usize,
    i: usize,
    e: (&String, &FieldValue),
    j: usize,
    f: (&String, &FieldValue),
    key: &str,
    v: Option<&FieldValue>,
)
    requires
        call_ensures(Dict::len, (&d,), n),
        i < j < n,
        call_ensures(Dict::entry, (&d, i), e),
        call_ensures(Dict::entry, (&d, j), f),
        call_ensures(Dict::get, (&d, key), v),
    ensures
        text_less(e.0@, f.0@),
        e.0@ == key@ ==> same_finding(v, Some(e.1)),
        f.0@ == key@ ==> same_finding(v, Some(f.1)),
{
    assert(text_less(d.listing()[i as int].0, d.listing()[j as int].0));
}

/// Dictionaries are the same if and only if they mean the same, and where they are, the same is found
/// in both.
pub proof fn law_same_dict(
    a: Dict,
    b: Dict,
    r: bool,
    key: &str,
    v: Option<&FieldValue>,
    w: Option<&FieldValue>,
)
    requires
        call_ensures(same_dict, (&a, &b), r),
        call_ensures(Dict::get, (&a, key), v),
        call_ensures(Dict::get, (&b, key), w),
    ensures
        r ==> same_finding(v, w),
        r <==> a@ == b@,
{
}

/// Values are the same if and only if they are of one kind and hold the same.
pub proof fn law_same_value(a: FieldValue, b: FieldValue, r: bool)
    requires
        call_ensures(same_value, (&a, &b), r),
    ensures
        r <==> match (a, b) {
            (FieldValue::Int(x), FieldValue::Int(y)) => x == y,
            (FieldValue::PublicKey(x), FieldValue::PublicKey(y)) => x.text@ == y.text@,
            (FieldValue::Dictionary(x), FieldValue::Dictionary(y)) => x@ == y@,
            _ => false,
        },
{
    broadcast use lemma_value_view;

}

} // verus!
