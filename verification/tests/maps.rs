use schattenform::string_map::StringMap;
use schattenform::text::{join, order, same, Order};

#[test]
fn insert_then_get() {
    let mut m: StringMap<i64> = StringMap::new();
    m.insert("b".to_string(), 2);
    m.insert("a".to_string(), 1);
    m.insert("b".to_string(), 3);
    assert_eq!(m.len(), 2);
    assert_eq!(m.get("a"), Some(&1));
    assert_eq!(m.get("b"), Some(&3));
    assert_eq!(m.get("c"), None);
    assert!(m.contains("a"));
    assert!(!m.contains(""));
}

#[test]
fn entries_come_in_key_order() {
    let mut m: StringMap<i64> = StringMap::new();
    for (i, k) in ["m", "z", "a", "é", "ab", "", "Z"].iter().enumerate() {
        m.insert(k.to_string(), i as i64);
    }
    let mut expected = vec!["m", "z", "a", "é", "ab", "", "Z"];
    expected.sort();
    let got: Vec<String> = (0..m.len()).map(|i| m.entry(i).0.clone()).collect();
    assert_eq!(got, expected);
}

#[test]
fn remove_takes_out_one_key() {
    let mut m: StringMap<i64> = StringMap::new();
    m.insert("a".to_string(), 1);
    m.insert("b".to_string(), 2);
    m.insert("c".to_string(), 3);
    assert!(m.remove("b"));
    assert!(!m.remove("b"));
    assert_eq!(m.len(), 2);
    assert_eq!(m.get("a"), Some(&1));
    assert_eq!(m.get("b"), None);
    assert_eq!(m.get("c"), Some(&3));
}

#[test]
fn copy_is_apart_from_its_source() {
    let mut m: StringMap<i64> = StringMap::new();
    m.insert("a".to_string(), 1);
    let c = m.copy();
    m.insert("a".to_string(), 2);
    assert_eq!(c.get("a"), Some(&1));
    assert_eq!(m.get("a"), Some(&2));
}

#[test]
fn order_is_that_of_str() {
    let words = ["", "a", "ab", "b", "B", "é", "z", "\u{10000}", "\u{ffff}"];
    for a in words {
        for b in words {
            let expected = if a < b {
                Order::Before
            } else if a == b {
                Order::Same
            } else {
                Order::After
            };
            assert_eq!(order(a, b), expected);
            assert_eq!(same(a, b), a == b);
        }
    }
}

#[test]
fn join_puts_one_after_the_other() {
    assert_eq!(join("ab", "c"), "abc");
    assert_eq!(join("", ""), "");
}
