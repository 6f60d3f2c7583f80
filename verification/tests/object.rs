use std::sync::Arc;

use schattenform::dict::{
    same_dict, same_value, Dict, DictError, FieldValue, PublicKey, SecretKey,
};
use schattenform::operation::{Operation, PlannedOp};
use schattenform::pod::{
    create_genesis, state_to_json, write_step, Participant, SignedDict, StepError, WritePlan,
};
use schattenform::string_map::StringMap;

fn key(text: &str) -> PublicKey {
    PublicKey::new(text.to_string())
}

fn person(slot: u64, text: &str) -> Participant {
    Participant::new(SecretKey { slot }, key(text))
}

fn fields(pairs: &[(&str, i64)]) -> StringMap<i64> {
    let mut m = StringMap::new();
    for (k, v) in pairs {
        m.insert(k.to_string(), *v);
    }
    m
}

fn int_at(d: &Dict, k: &str) -> Option<i64> {
    d.get(k).and_then(|v| v.as_int())
}

fn alike(a: &Dict, b: &Dict) -> bool {
    a.len() == b.len()
        && (0..a.len()).all(|i| {
            let (ka, va) = a.entry(i);
            let (kb, vb) = b.entry(i);
            ka == kb && alike_value(va, vb)
        })
}

fn alike_value(a: &FieldValue, b: &FieldValue) -> bool {
    match (a, b) {
        (FieldValue::Int(x), FieldValue::Int(y)) => x == y,
        (FieldValue::PublicKey(x), FieldValue::PublicKey(y)) => x.text == y.text,
        (FieldValue::Dictionary(x), FieldValue::Dictionary(y)) => alike(x, y),
        _ => false,
    }
}

fn genesis() -> SignedDict {
    create_genesis(&fields(&[("val_a", 1), ("val_b", 2), ("val_c", 3)]), &key("pk-alice"), &key("pk-admin"))
}

fn step(prev: &SignedDict, writer: &Participant, next: &str, updates: &[(&str, i64)]) -> WritePlan {
    match write_step(prev, writer, &key(next), &fields(updates), true) {
        Ok(plan) => plan,
        Err(e) => panic!("{}", e.message()),
    }
}

#[test]
fn genesis_holds_fields_and_system_fields() {
    let g = genesis();
    assert_eq!(g.dict.len(), 6);
    assert_eq!(int_at(&g.dict, "val_a"), Some(1));
    assert_eq!(int_at(&g.dict, "val_b"), Some(2));
    assert_eq!(int_at(&g.dict, "val_c"), Some(3));
    assert_eq!(int_at(&g.dict, "version"), Some(0));
    assert_eq!(int_at(&g.dict, "prev_hash"), Some(0));
    assert!(g.dict.get("writer_pk").unwrap().is_key(&key("pk-alice")));
    assert_eq!(g.signer.text, "pk-admin");
    assert_eq!(g.version(), Some(0));
}

#[test]
fn genesis_overrides_system_fields() {
    let g = create_genesis(
        &fields(&[("version", 7), ("prev_hash", 8), ("writer_pk", 9), ("x", -4)]),
        &key("k"),
        &key("admin"),
    );
    assert_eq!(g.dict.len(), 4);
    assert_eq!(g.version(), Some(0));
    assert_eq!(int_at(&g.dict, "prev_hash"), Some(0));
    assert!(g.dict.get("writer_pk").unwrap().is_key(&key("k")));
    assert_eq!(int_at(&g.dict, "x"), Some(-4));
}

#[test]
fn step_changes_what_it_should_and_nothing_else() {
    let g = genesis();
    let alice = person(0, "pk-alice");
    let plan = step(&g, &alice, "pk-bob", &[("val_b", 20)]);
    let d = &plan.new_state.dict;
    assert_eq!(plan.new_version, 1);
    assert_eq!(plan.new_state.version(), Some(1));
    assert_eq!(int_at(d, "val_a"), Some(1));
    assert_eq!(int_at(d, "val_b"), Some(20));
    assert_eq!(int_at(d, "val_c"), Some(3));
    assert!(d.get("writer_pk").unwrap().is_key(&key("pk-bob")));
    assert!(!d.get("writer_pk").unwrap().is_key(&key("pk-alice")));
    assert_eq!(d.len(), g.dict.len());
    match d.get("prev_hash") {
        Some(FieldValue::Dictionary(prev)) => assert!(alike(prev, &g.dict)),
        other => panic!("{:?}", other),
    }
    assert_eq!(plan.new_state.signer.text, "pk-alice");
    assert_eq!(plan.signing_key, SecretKey { slot: 0 });
    assert!(plan.mock);
}

#[test]
fn step_leaves_the_previous_state_alone() {
    let g = genesis();
    let _ = step(&g, &person(0, "pk-alice"), "pk-bob", &[("val_a", 9)]);
    assert_eq!(int_at(&g.dict, "val_a"), Some(1));
    assert_eq!(g.version(), Some(0));
    assert!(g.dict.get("writer_pk").unwrap().is_key(&key("pk-alice")));
}

fn shape(o: &PlannedOp) -> (bool, &'static str, String) {
    match &o.op {
        Operation::DictSignedBy { signer, .. } => (o.public, "signed_by", signer.text.clone()),
        Operation::DictContains { key, .. } => (o.public, "contains", key.clone()),
        Operation::PublicKeyOf { key, .. } => (o.public, "public_key_of", key.clone()),
        Operation::SumOf { key, .. } => (o.public, "sum_of", key.clone()),
        Operation::DictDelete { key, .. } => (o.public, "delete", key.clone()),
        Operation::DictInsert { key, .. } => (o.public, "insert", key.clone()),
        Operation::DictUpdate { key, .. } => (o.public, "update", key.clone()),
    }
}

#[test]
fn step_plans_its_statements_in_order() {
    let g = genesis();
    let plan = step(&g, &person(4, "pk-alice"), "pk-bob", &[("val_c", 30), ("val_a", 10)]);
    let got: Vec<(bool, &str, String)> = plan.operations.iter().map(shape).collect();
    let expected: Vec<(bool, &str, String)> = vec![
        (true, "signed_by", "pk-admin".to_string()),
        (false, "contains", "version".to_string()),
        (false, "public_key_of", "writer_pk".to_string()),
        (true, "sum_of", "version".to_string()),
        (true, "delete", "writer_pk".to_string()),
        (false, "insert", "writer_pk".to_string()),
        (false, "update", "val_a".to_string()),
        (false, "update", "val_c".to_string()),
        (false, "update", "version".to_string()),
        (true, "update", "prev_hash".to_string()),
    ];
    assert_eq!(got, expected);
    assert_eq!(plan.operations.len(), 8 + 2);
    match &plan.operations[3].op {
        Operation::SumOf { sum, addend, .. } => assert_eq!((*sum, *addend), (1, 1)),
        other => panic!("{:?}", other),
    }
    match &plan.operations[2].op {
        Operation::PublicKeyOf { sk, .. } => assert_eq!(sk.slot, 4),
        other => panic!("{:?}", other),
    }
}

#[test]
fn each_statement_starts_where_the_last_one_ended() {
    let g = genesis();
    let plan = step(&g, &person(0, "pk-alice"), "pk-bob", &[("val_a", 10), ("val_b", 20)]);
    let mut at: Arc<Dict> = g.dict.clone();
    for o in &plan.operations {
        let (before, after, key, value) = match &o.op {
            Operation::DictDelete { before, after, key } => (before, after, key, None),
            Operation::DictInsert { before, after, key, value } => (before, after, key, Some(value)),
            Operation::DictUpdate { before, after, key, value } => (before, after, key, Some(value)),
            _ => continue,
        };
        assert!(alike(before, &at));
        match value {
            Some(v) => assert!(alike_value(after.get(key).unwrap(), v)),
            None => assert!(after.get(key).is_none()),
        }
        at = after.clone();
    }
    assert!(alike(&at, &plan.new_state.dict));
}

#[test]
fn mock_and_real_plans_are_alike() {
    let g = genesis();
    let alice = person(0, "pk-alice");
    let mock = write_step(&g, &alice, &key("pk-bob"), &fields(&[("val_a", 5)]), true).unwrap();
    let real = write_step(&g, &alice, &key("pk-bob"), &fields(&[("val_a", 5)]), false).unwrap();
    assert!(mock.mock && !real.mock);
    assert!(alike(&mock.new_state.dict, &real.new_state.dict));
    assert_eq!(mock.operations.len(), real.operations.len());
}

#[test]
fn a_life_is_linked_back_to_its_genesis() {
    let g = genesis();
    let alice = person(0, "pk-alice");
    let bob = person(1, "pk-bob");
    let one = step(&g, &alice, "pk-bob", &[("val_a", 10)]).new_state;
    let two = step(&one, &bob, "pk-alice", &[]).new_state;
    let three = step(&two, &alice, "pk-alice", &[("val_c", 0)]).new_state;
    let states = [&g, &one, &two, &three];
    for i in 1..states.len() {
        assert_eq!(states[i].version(), Some(i as i64));
        match states[i].dict.get("prev_hash") {
            Some(FieldValue::Dictionary(prev)) => assert!(alike(prev, &states[i - 1].dict)),
            other => panic!("{:?}", other),
        }
    }
}

#[test]
fn different_pasts_give_different_states() {
    let alice = person(0, "pk-alice");
    let a = create_genesis(&fields(&[("x", 1)]), &key("pk-alice"), &key("admin"));
    let b = create_genesis(&fields(&[("x", 2)]), &key("pk-alice"), &key("admin"));
    let a1 = step(&a, &alice, "pk-bob", &[("x", 5)]).new_state;
    let b1 = step(&b, &alice, "pk-bob", &[("x", 5)]).new_state;
    assert!(!alike(&a1.dict, &b1.dict));
}

#[test]
fn updating_system_fields_has_no_effect() {
    let g = genesis();
    let updates = [("prev_hash", 3), ("val_a", 7), ("version", 99), ("writer_pk", 5)];
    let plan = step(&g, &person(0, "pk-alice"), "pk-bob", &updates);
    let plain = step(&g, &person(0, "pk-alice"), "pk-bob", &[("val_a", 7)]);
    assert!(alike(&plan.new_state.dict, &plain.new_state.dict));
    assert_eq!(plan.new_state.version(), Some(1));
    assert!(matches!(plan.new_state.dict.get("prev_hash"), Some(FieldValue::Dictionary(_))));
    assert_eq!(plan.operations.iter().map(shape).collect::<Vec<_>>(), plain.operations.iter().map(shape).collect::<Vec<_>>());
    assert_eq!(plan.operations.len(), 9);
}

#[test]
fn updating_writer_pk_still_names_the_next_holder() {
    let g = create_genesis(&fields(&[("val_a", 1)]), &key("pk-p"), &key("pk-admin"));
    let plan = step(&g, &person(0, "pk-p"), "pk-q", &[("writer_pk", 5)]);
    assert!(plan.new_state.dict.get("writer_pk").unwrap().is_key(&key("pk-q")));
    assert_eq!(plan.operations.len(), 8);
}

fn refusal(prev: &SignedDict, writer: &Participant, updates: &[(&str, i64)]) -> StepError {
    match write_step(prev, writer, &key("n"), &fields(updates), true) {
        Ok(_) => panic!("accepted"),
        Err(e) => e,
    }
}

fn state_of(dict: Dict) -> SignedDict {
    SignedDict { dict: Arc::new(dict), signer: key("s") }
}

#[test]
fn step_refuses_a_state_without_version() {
    let e = refusal(&state_of(Dict::new()), &person(0, "w"), &[]);
    assert!(matches!(e, StepError::MissingVersion));
    assert_eq!(e.message(), "missing version field");
}

#[test]
fn step_refuses_a_version_that_is_no_integer() {
    let mut d = Dict::new();
    d.put("version", FieldValue::PublicKey(key("w")));
    let e = refusal(&state_of(d), &person(0, "w"), &[]);
    assert!(matches!(e, StepError::VersionNotInteger));
    assert_eq!(e.message(), "version is not an integer");
}

#[test]
fn step_refuses_missing_fields() {
    let mut d = Dict::new();
    d.put("version", FieldValue::Int(3));
    let e = refusal(&state_of(d), &person(0, "w"), &[]);
    assert_eq!(e.message(), "key not found: writer_pk");

    let mut d = Dict::new();
    d.put("version", FieldValue::Int(3));
    d.put("writer_pk", FieldValue::PublicKey(key("w")));
    let e = refusal(&state_of(d), &person(0, "w"), &[]);
    assert_eq!(e.message(), "key not found: prev_hash");

    let e = refusal(&genesis(), &person(0, "pk-alice"), &[("val_a", 1), ("zz", 1), ("yy", 1)]);
    assert!(matches!(e, StepError::MissingField(_)));
    assert_eq!(e.message(), "key not found: yy");
}

#[test]
fn step_refuses_another_key_than_the_named_one() {
    let e = refusal(&genesis(), &person(1, "pk-bob"), &[("val_a", 1)]);
    assert!(matches!(e, StepError::WrongWriter));
    assert_eq!(e.message(), "writer_pk is not the public key of the writer");
}

#[test]
fn step_refuses_the_last_version() {
    let mut d = Dict::new();
    d.put("version", FieldValue::Int(i64::MAX));
    d.put("writer_pk", FieldValue::PublicKey(key("w")));
    d.put("prev_hash", FieldValue::Int(0));
    let e = refusal(&state_of(d), &person(0, "w"), &[]);
    assert!(matches!(e, StepError::VersionAtLimit));
    assert_eq!(e.message(), "version cannot be incremented");
}

#[test]
fn dictionaries_are_compared_through_and_through() {
    let alice = person(0, "pk-alice");
    let a = step(&genesis(), &alice, "pk-bob", &[("val_a", 4)]).new_state;
    let b = step(&genesis(), &alice, "pk-bob", &[("val_a", 4)]).new_state;
    assert!(!Arc::ptr_eq(&a.dict, &b.dict));
    assert!(same_dict(&a.dict, &b.dict));
    assert!(!same_dict(&a.dict, &genesis().dict));
    let other = create_genesis(&fields(&[("val_a", 0), ("val_b", 2), ("val_c", 3)]), &key("pk-alice"), &key("x"));
    let c = step(&other, &alice, "pk-bob", &[("val_a", 4)]).new_state;
    assert!(!same_dict(&a.dict, &c.dict));
    assert!(!same_value(&FieldValue::Int(1), &FieldValue::PublicKey(key("1"))));
    assert!(same_value(&FieldValue::PublicKey(key("1")), &FieldValue::PublicKey(key("1"))));
}

#[test]
fn step_accepts_the_last_version_but_one() {
    let mut d = Dict::new();
    d.put("version", FieldValue::Int(i64::MAX - 1));
    d.put("writer_pk", FieldValue::PublicKey(key("w")));
    d.put("prev_hash", FieldValue::Int(0));
    let plan = step(&state_of(d), &person(0, "w"), "n", &[]);
    assert_eq!(plan.new_version, i64::MAX);
}

#[test]
fn dictionaries_tell_keys_that_are_there() {
    let mut d = Dict::new();
    assert_eq!(d.delete("a"), Err(DictError::KeyNotFound));
    assert_eq!(d.update("a", FieldValue::Int(1)), Err(DictError::KeyNotFound));
    assert_eq!(d.insert("a", FieldValue::Int(1)), Ok(()));
    assert_eq!(d.insert("a", FieldValue::Int(2)), Err(DictError::KeyExists));
    assert_eq!(int_at(&d, "a"), Some(1));
    assert_eq!(d.update("a", FieldValue::Int(3)), Ok(()));
    assert_eq!(int_at(&d, "a"), Some(3));
    let c = d.copy();
    assert_eq!(d.delete("a"), Ok(()));
    assert_eq!(d.len(), 0);
    assert_eq!(int_at(&c, "a"), Some(3));
}

#[test]
fn values_are_what_they_are() {
    let shared = FieldValue::Dictionary(Arc::new(Dict::new()));
    assert_eq!(shared.as_int(), None);
    assert_eq!(FieldValue::Int(-5).as_int(), Some(-5));
    assert!(!FieldValue::Int(1).is_key(&key("1")));
    assert!(FieldValue::PublicKey(key("k")).copy().is_key(&key("k")));
    match (&shared, shared.copy()) {
        (FieldValue::Dictionary(a), FieldValue::Dictionary(b)) => assert!(Arc::ptr_eq(a, &b)),
        other => panic!("{:?}", other),
    }
}

#[test]
fn json_shows_integers_as_numbers_and_the_rest_as_text() {
    let g = genesis();
    let one = step(&g, &person(0, "pk-alice"), "pk-bob", &[("val_a", -10)]).new_state;
    let mut texts: StringMap<String> = StringMap::new();
    for i in 0..one.dict.len() {
        let k = one.dict.entry(i).0.clone();
        texts.insert(k.clone(), format!("<{}>", k));
    }
    let json = state_to_json(&one, &texts);
    let object = json.as_object().unwrap();
    assert_eq!(object.len(), 6);
    assert_eq!(object["val_a"].as_i64(), Some(-10));
    assert_eq!(object["val_b"].as_i64(), Some(2));
    assert_eq!(object["version"].as_i64(), Some(1));
    assert_eq!(object["writer_pk"].as_str(), Some("<writer_pk>"));
    assert_eq!(object["prev_hash"].as_str(), Some("<prev_hash>"));
}

#[test]
fn json_leaves_out_what_cannot_be_read() {
    let g = genesis();
    let mut texts: StringMap<String> = StringMap::new();
    texts.insert("val_b".to_string(), "2".to_string());
    texts.insert("elsewhere".to_string(), "?".to_string());
    let json = state_to_json(&g, &texts);
    assert_eq!(json.to_string(), "{\"val_b\":2}");
}

#[test]
fn the_order_of_the_updates_does_not_matter() {
    let g = genesis();
    let alice = person(0, "pk-alice");
    let a = step(&g, &alice, "pk-bob", &[("val_a", 1), ("val_c", 9), ("val_b", 4)]);
    let b = step(&g, &alice, "pk-bob", &[("val_c", 9), ("val_b", 4), ("val_a", 1)]);
    assert!(alike(&a.new_state.dict, &b.new_state.dict));
    let keys = |p: &WritePlan| p.operations.iter().map(shape).collect::<Vec<_>>();
    assert_eq!(keys(&a), keys(&b));
}
