use schattenform::api::{bad_req, internal_err, GenesisReq, RegisterReq, StatusCode, WriteReq};
use schattenform::dict::{PublicKey, SecretKey};
use schattenform::pod::{create_genesis, Participant, SignedDict};
use schattenform::server::{
    current_writer_name, handle_genesis_check, handle_genesis_commit, handle_history,
    handle_participants, handle_register, handle_reset, handle_status, handle_write_check,
    handle_write_commit, handle_write_plan, parse_args, seed_participants, AppState, Proved,
};
use schattenform::string_map::StringMap;

fn key(text: &str) -> PublicKey {
    PublicKey::new(text.to_string())
}

fn person(slot: u64, text: &str) -> Participant {
    Participant::new(SecretKey { slot }, key(text))
}

fn fields(pairs: &[(&str, i64)]) -> StringMap<i64> {
    let mut m = StringMap::new();
    for (k, v) in pairs {
        m.insert(k.to_string(), *v);
    }
    m
}

fn texts_of(state: &SignedDict) -> StringMap<String> {
    let mut m = StringMap::new();
    for i in 0..state.dict.len() {
        let k = state.dict.entry(i).0.clone();
        m.insert(k.clone(), format!("text of {}", k));
    }
    m
}

fn seeded() -> AppState {
    let mut app = AppState::new(true);
    seed_participants(&mut app, person(0, "A"), person(1, "B"), person(2, "C"));
    app
}

fn begun() -> AppState {
    let mut app = seeded();
    let req = GenesisReq { fields: fields(&[("val_a", 1), ("val_b", 2)]), first_writer: "alice".to_string() };
    let pk = handle_genesis_check(&app, &req).unwrap();
    let state = create_genesis(&req.fields, &pk, &key("admin"));
    let texts = texts_of(&state);
    let resp = handle_genesis_commit(&mut app, state, Ok(texts), req.first_writer).unwrap();
    assert_eq!(resp.first_writer, "alice");
    assert_eq!(resp.state["val_a"].as_i64(), Some(1));
    assert_eq!(resp.state["version"].as_i64(), Some(0));
    assert_eq!(resp.state["prev_hash"].as_i64(), Some(0));
    assert_eq!(resp.state["writer_pk"].as_str(), Some("text of writer_pk"));
    app
}

fn request(writer: &str, next_writer: &str, updates: &[(&str, i64)]) -> WriteReq {
    WriteReq {
        writer: writer.to_string(),
        next_writer: next_writer.to_string(),
        updates: fields(updates),
    }
}

fn write(app: &mut AppState, writer: &str, next: &str, updates: &[(&str, i64)]) -> i64 {
    let req = request(writer, next, updates);
    let (p, next_pk) = handle_write_check(app, &req).unwrap();
    let plan = handle_write_plan(app, &p, &next_pk, &req.updates).unwrap();
    let texts = texts_of(&plan.new_state);
    let proved = Proved { proof: serde_json::Value::from("proof"), texts };
    let resp = handle_write_commit(app, req, plan, Ok(proved)).unwrap();
    assert_eq!(resp.proof.as_str(), Some("proof"));
    assert_eq!(resp.state["version"].as_i64(), Some(resp.version));
    resp.version
}

#[test]
fn the_mock_prover_is_the_default() {
    let args = |a: &[&str]| a.iter().map(|s| s.to_string()).collect::<Vec<String>>();
    assert!(parse_args(&args(&[])));
    assert!(parse_args(&args(&["server", "--real-proof", "real-proofs"])));
    assert!(!parse_args(&args(&["server", "--real-proofs"])));
    assert!(!parse_args(&args(&["--real-proofs", "x"])));
}

#[test]
fn status_codes_have_their_numbers() {
    assert_eq!(StatusCode::BadRequest.as_u16(), 400);
    assert_eq!(StatusCode::Forbidden.as_u16(), 403);
    assert_eq!(StatusCode::InternalServerError.as_u16(), 500);
    let e = bad_req("x".to_string());
    assert_eq!((e.status, e.message.as_str()), (StatusCode::BadRequest, "x"));
    let e = internal_err("y".to_string());
    assert_eq!((e.status, e.message.as_str()), (StatusCode::InternalServerError, "y"));
}

#[test]
fn seeding_keeps_who_is_there() {
    let mut app = AppState::new(false);
    handle_register(&mut app, RegisterReq { name: "bob".to_string() }, person(9, "own"), "own".to_string());
    seed_participants(&mut app, person(0, "A"), person(1, "B"), person(2, "C"));
    assert_eq!(app.participants.len(), 3);
    assert_eq!(app.participants.get("bob").unwrap().pk.text, "own");
    assert_eq!(app.participants.get("alice").unwrap().pk.text, "A");
    seed_participants(&mut app, person(3, "D"), person(4, "E"), person(5, "F"));
    assert_eq!(app.participants.get("alice").unwrap().pk.text, "A");
    assert_eq!(app.participants.get("charlie").unwrap().sk.slot, 2);
}

#[test]
fn registering_replaces_the_key() {
    let mut app = seeded();
    let resp = handle_register(&mut app, RegisterReq { name: "dora".to_string() }, person(7, "D"), "shown".to_string());
    assert_eq!(resp.name, "dora");
    assert_eq!(resp.public_key, "shown");
    assert_eq!(app.participants.len(), 4);
    handle_register(&mut app, RegisterReq { name: "dora".to_string() }, person(8, "D2"), "again".to_string());
    assert_eq!(app.participants.len(), 4);
    assert_eq!(app.participants.get("dora").unwrap().pk.text, "D2");
    assert_eq!(app.participants.get("dora").unwrap().sk.slot, 8);
}

#[test]
fn a_holder_with_a_new_key_loses_the_baton() {
    let mut app = begun();
    handle_register(&mut app, RegisterReq { name: "alice".to_string() }, person(7, "A2"), String::new());
    assert_eq!(current_writer_name(&app), None);
    let e = handle_write_check(&app, &request("alice", "bob", &[])).unwrap_err();
    assert_eq!(e.message, "baton held by nobody, not alice");
}

#[test]
fn genesis_wants_a_known_first_writer() {
    let app = seeded();
    let req = GenesisReq { fields: fields(&[]), first_writer: "mallory".to_string() };
    let e = handle_genesis_check(&app, &req).unwrap_err();
    assert_eq!(e.status, StatusCode::BadRequest);
    assert_eq!(e.message, "unknown participant: mallory");
}

#[test]
fn genesis_is_made_once() {
    let app = begun();
    let req = GenesisReq { fields: fields(&[]), first_writer: "mallory".to_string() };
    let e = handle_genesis_check(&app, &req).unwrap_err();
    assert_eq!(e.status, StatusCode::BadRequest);
    assert_eq!(e.message, "genesis already exists — call /api/reset first");
}

#[test]
fn a_failed_genesis_changes_nothing() {
    let mut app = seeded();
    let state = create_genesis(&fields(&[]), &key("A"), &key("admin"));
    let e = handle_genesis_commit(&mut app, state, Err("no entropy".to_string()), "alice".to_string())
        .unwrap_err();
    assert_eq!(e.status, StatusCode::InternalServerError);
    assert_eq!(e.message, "no entropy");
    assert!(app.current_state.is_none());
}

#[test]
fn nobody_writes_before_the_genesis() {
    let app = seeded();
    assert_eq!(current_writer_name(&app), None);
    let e = handle_write_check(&app, &request("alice", "bob", &[])).unwrap_err();
    assert_eq!(e.status, StatusCode::Forbidden);
    assert_eq!(e.message, "baton held by nobody, not alice");
    let e = handle_write_plan(&app, &person(0, "A"), &key("B"), &fields(&[])).unwrap_err();
    assert_eq!(e.status, StatusCode::InternalServerError);
    assert_eq!(e.message, "no genesis yet");
}

#[test]
fn only_the_holder_writes() {
    let app = begun();
    assert_eq!(current_writer_name(&app), Some("alice".to_string()));
    let e = handle_write_check(&app, &request("bob", "charlie", &[])).unwrap_err();
    assert_eq!(e.status, StatusCode::Forbidden);
    assert_eq!(e.message, "baton held by alice, not bob");
    let e = handle_write_check(&app, &request("mallory", "charlie", &[])).unwrap_err();
    assert_eq!(e.message, "baton held by alice, not mallory");
    let e = handle_write_check(&app, &request("alice", "mallory", &[])).unwrap_err();
    assert_eq!(e.status, StatusCode::BadRequest);
    assert_eq!(e.message, "unknown participant: mallory");
    let (p, next_pk) = handle_write_check(&app, &request("alice", "charlie", &[])).unwrap();
    assert_eq!((p.sk.slot, p.pk.text.as_str(), next_pk.text.as_str()), (0, "A", "C"));
}

#[test]
fn the_baton_moves() {
    let mut app = begun();
    assert_eq!(write(&mut app, "alice", "bob", &[("val_a", 10)]), 1);
    assert_eq!(current_writer_name(&app), Some("bob".to_string()));
    let e = handle_write_check(&app, &request("alice", "bob", &[])).unwrap_err();
    assert_eq!(e.message, "baton held by bob, not alice");
    assert_eq!(write(&mut app, "bob", "bob", &[]), 2);
    assert_eq!(write(&mut app, "bob", "charlie", &[("val_b", -1), ("val_a", 0)]), 3);
    assert_eq!(current_writer_name(&app), Some("charlie".to_string()));

    let history = handle_history(&app);
    let seen: Vec<(i64, &str, &str, usize)> = history
        .iter()
        .map(|e| (e.version, e.writer.as_str(), e.next_writer.as_str(), e.updates.len()))
        .collect();
    assert_eq!(seen, vec![(1, "alice", "bob", 1), (2, "bob", "bob", 0), (3, "bob", "charlie", 2)]);
    assert_eq!(history[2].updates.get("val_b"), Some(&-1));
    assert_eq!(history[2].state["val_b"].as_i64(), Some(-1));
    assert_eq!(history[1].state["val_a"].as_i64(), Some(10));
    assert_eq!(history[0].proof.as_str(), Some("proof"));
}

#[test]
fn an_unknown_field_is_refused() {
    let app = begun();
    let (p, next_pk) = handle_write_check(&app, &request("alice", "bob", &[])).unwrap();
    let e = handle_write_plan(&app, &p, &next_pk, &fields(&[("val_z", 1)])).unwrap_err();
    assert_eq!(e.status, StatusCode::InternalServerError);
    assert_eq!(e.message, "key not found: val_z");
}

#[test]
fn a_failed_proof_changes_nothing() {
    let mut app = begun();
    let req = request("alice", "bob", &[("val_a", 10)]);
    let (p, next_pk) = handle_write_check(&app, &req).unwrap();
    let plan = handle_write_plan(&app, &p, &next_pk, &req.updates).unwrap();
    let e = handle_write_commit(&mut app, req, plan, Err("prover failed".to_string())).unwrap_err();
    assert_eq!(e.status, StatusCode::InternalServerError);
    assert_eq!(e.message, "prover failed");
    assert_eq!(app.history.len(), 0);
    assert_eq!(app.current_state.as_ref().unwrap().version(), Some(0));
    assert_eq!(current_writer_name(&app), Some("alice".to_string()));
}

#[test]
fn the_first_of_two_names_with_one_key_writes() {
    let mut app = begun();
    handle_register(&mut app, RegisterReq { name: "zoe".to_string() }, person(7, "A"), String::new());
    assert_eq!(current_writer_name(&app), Some("alice".to_string()));
    handle_register(&mut app, RegisterReq { name: "aaron".to_string() }, person(8, "A"), String::new());
    assert_eq!(current_writer_name(&app), Some("aaron".to_string()));
}

#[test]
fn status_without_an_object() {
    let s = handle_status(&seeded(), None);
    assert!(!s.has_genesis);
    assert_eq!(s.current_version, None);
    assert_eq!(s.current_writer, None);
    assert_eq!(s.participants, vec!["alice", "bob", "charlie"]);
    assert_eq!(s.history_len, 0);
    assert!(s.current_state.is_none());
    assert!(handle_status(&seeded(), Some(&StringMap::new())).current_state.is_none());
}

#[test]
fn status_of_an_object() {
    let mut app = begun();
    write(&mut app, "alice", "charlie", &[("val_b", 5)]);
    let texts = texts_of(app.current_state.as_ref().unwrap());
    let s = handle_status(&app, Some(&texts));
    assert!(s.has_genesis);
    assert_eq!(s.current_version, Some(1));
    assert_eq!(s.current_writer, Some("charlie".to_string()));
    assert_eq!(s.history_len, 1);
    let json = s.current_state.unwrap();
    assert_eq!(json["val_b"].as_i64(), Some(5));
    assert_eq!(json["prev_hash"].as_str(), Some("text of prev_hash"));
    assert!(handle_status(&app, None).current_state.is_none());
}

#[test]
fn participants_come_by_name() {
    let mut app = seeded();
    for (i, name) in ["zed", "Ann", "ärla", "amy"].iter().enumerate() {
        let req = RegisterReq { name: name.to_string() };
        handle_register(&mut app, req, person(10 + i as u64, &format!("key of {}", name)), String::new());
    }
    let list = handle_participants(&app);
    let names: Vec<&str> = list.iter().map(|p| p.name.as_str()).collect();
    let mut sorted = names.clone();
    sorted.sort();
    assert_eq!(names, sorted);
    assert_eq!(names.len(), 7);
    assert_eq!(list[0].name, "Ann");
    assert_eq!(list[0].public_key, "key of Ann");
    assert_eq!(list[1].name, "alice");
    assert_eq!(list[1].public_key, "A");
}

#[test]
fn reset_forgets_everything_but_the_prover() {
    for mock in [true, false] {
        let mut app = begun();
        app.mock = mock;
        write(&mut app, "alice", "bob", &[]);
        handle_register(&mut app, RegisterReq { name: "dora".to_string() }, person(7, "D"), String::new());
        let resp = handle_reset(&mut app, person(20, "A'"), person(21, "B'"), person(22, "C'"));
        assert_eq!(resp.to_string(), "{\"ok\":true}");
        assert_eq!(app.mock, mock);
        assert!(app.current_state.is_none());
        assert_eq!(app.history.len(), 0);
        assert_eq!(app.participants.len(), 3);
        assert_eq!(app.participants.get("bob").unwrap().pk.text, "B'");
        assert!(app.participants.get("dora").is_none());
        let req = GenesisReq { fields: fields(&[]), first_writer: "bob".to_string() };
        assert_eq!(handle_genesis_check(&app, &req).unwrap().text, "B'");
    }
}

#[test]
fn of_two_checked_geneses_one_is_taken() {
    let mut app = seeded();
    let req = |name: &str| GenesisReq { fields: fields(&[("x", 1)]), first_writer: name.to_string() };
    let (a, b) = (req("alice"), req("bob"));
    let pk_a = handle_genesis_check(&app, &a).unwrap();
    let pk_b = handle_genesis_check(&app, &b).unwrap();
    let first = create_genesis(&a.fields, &pk_a, &key("admin-1"));
    let second = create_genesis(&b.fields, &pk_b, &key("admin-2"));
    let (texts_a, texts_b) = (texts_of(&first), texts_of(&second));
    assert!(handle_genesis_commit(&mut app, first, Ok(texts_a), a.first_writer).is_ok());
    let e = handle_genesis_commit(&mut app, second, Ok(texts_b), b.first_writer).unwrap_err();
    assert_eq!(e.status, StatusCode::BadRequest);
    assert_eq!(e.message, "genesis already exists — call /api/reset first");
    assert_eq!(current_writer_name(&app), Some("alice".to_string()));
    assert_eq!(app.current_state.as_ref().unwrap().signer.text, "admin-1");
}

fn proved(state: &SignedDict) -> Result<Proved, String> {
    Ok(Proved { proof: serde_json::Value::from("p"), texts: texts_of(state) })
}

#[test]
fn of_two_writes_on_one_state_one_is_recorded() {
    for next in ["bob", "alice"] {
        let mut app = begun();
        let (a, b) = (request("alice", next, &[("val_a", 5)]), request("alice", "charlie", &[]));
        let (w, pk_a) = handle_write_check(&app, &a).unwrap();
        let (_, pk_b) = handle_write_check(&app, &b).unwrap();
        let plan_a = handle_write_plan(&app, &w, &pk_a, &a.updates).unwrap();
        let plan_b = handle_write_plan(&app, &w, &pk_b, &b.updates).unwrap();
        let (done_a, done_b) = (proved(&plan_a.new_state), proved(&plan_b.new_state));
        assert_eq!(handle_write_commit(&mut app, a, plan_a, done_a).unwrap().version, 1);
        let e = handle_write_commit(&mut app, b, plan_b, done_b).unwrap_err();
        assert_eq!(e.status, StatusCode::BadRequest);
        assert_eq!(e.message, "the object has changed since the write was planned");
        assert_eq!(app.history.len(), 1);
        assert_eq!(current_writer_name(&app), Some(next.to_string()));
        assert_eq!(app.current_state.as_ref().unwrap().version(), Some(1));
    }
}

#[test]
fn a_write_planned_before_a_reset_is_recorded() {
    let mut app = begun();
    write(&mut app, "alice", "bob", &[("val_a", 3)]);
    let req = request("bob", "charlie", &[("val_b", 8)]);
    let (w, pk) = handle_write_check(&app, &req).unwrap();
    let plan = handle_write_plan(&app, &w, &pk, &req.updates).unwrap();
    let done = proved(&plan.new_state);
    handle_reset(&mut app, person(20, "A'"), person(21, "B'"), person(22, "C'"));
    assert_eq!(handle_write_commit(&mut app, req, plan, done).unwrap().version, 2);
    let state = app.current_state.as_ref().unwrap();
    assert_eq!(state.version(), Some(2));
    let history = handle_history(&app);
    assert_eq!(history.len(), 1);
    assert_eq!(history[0].version, 2);
    assert_eq!(history[0].writer, "bob");
    assert_eq!(history[0].next_writer, "charlie");
    assert_eq!(current_writer_name(&app), None);
}

#[test]
fn one_of_two_writes_planned_before_a_reset_is_recorded() {
    let mut app = begun();
    let first = request("alice", "bob", &[]);
    let second = request("alice", "charlie", &[]);
    let (w, pk) = handle_write_check(&app, &first).unwrap();
    let plan = handle_write_plan(&app, &w, &pk, &first.updates).unwrap();
    let done = proved(&plan.new_state);
    let (w, pk) = handle_write_check(&app, &second).unwrap();
    let other_plan = handle_write_plan(&app, &w, &pk, &second.updates).unwrap();
    let other_done = proved(&other_plan.new_state);
    handle_reset(&mut app, person(20, "A'"), person(21, "B'"), person(22, "C'"));
    assert_eq!(handle_write_commit(&mut app, first, plan, done).unwrap().version, 1);
    let e = handle_write_commit(&mut app, second, other_plan, other_done).unwrap_err();
    assert_eq!(e.status, StatusCode::BadRequest);
    assert_eq!(e.message, "the object has changed since the write was planned");
    assert_eq!(app.history.len(), 1);
    assert_eq!(app.history[0].next_writer, "bob");
}

#[test]
fn a_registration_in_between_does_not_stop_a_write() {
    let mut app = begun();
    let req = request("alice", "bob", &[("val_b", 8)]);
    let (w, pk) = handle_write_check(&app, &req).unwrap();
    let plan = handle_write_plan(&app, &w, &pk, &req.updates).unwrap();
    let done = proved(&plan.new_state);
    handle_register(&mut app, RegisterReq { name: "dora".to_string() }, person(7, "D"), String::new());
    assert_eq!(handle_write_commit(&mut app, req, plan, done).unwrap().version, 1);
    assert_eq!(current_writer_name(&app), Some("bob".to_string()));
}

#[test]
fn the_object_goes_from_hand_to_hand() {
    let mut app = begun();
    let hands = ["alice", "charlie", "bob", "bob", "alice"];
    for i in 1..hands.len() {
        write(&mut app, hands[i - 1], hands[i], &[("val_a", i as i64)]);
        let history = handle_history(&app);
        assert_eq!(history.len(), i);
        for (j, e) in history.iter().enumerate() {
            assert_eq!(e.version, j as i64 + 1);
            assert_eq!(e.writer, hands[j]);
            assert_eq!(e.next_writer, hands[j + 1]);
        }
    }
}

#[test]
fn the_history_tells_how_the_object_came_about() {
    let mut app = begun();
    write(&mut app, "alice", "bob", &[("val_a", 5)]);
    write(&mut app, "bob", "charlie", &[]);
    write(&mut app, "charlie", "alice", &[("val_a", 7), ("val_b", 9)]);
    let (mut a, mut b) = (1, 2);
    for e in handle_history(&app) {
        a = e.updates.get("val_a").copied().unwrap_or(a);
        b = e.updates.get("val_b").copied().unwrap_or(b);
        assert_eq!(e.state["val_a"].as_i64(), Some(a));
        assert_eq!(e.state["val_b"].as_i64(), Some(b));
        assert_eq!(e.state["version"].as_i64(), Some(e.version));
    }
    let dict = &app.current_state.as_ref().unwrap().dict;
    assert_eq!(dict.get("val_a").unwrap().as_int(), Some(7));
    assert_eq!(dict.get("val_b").unwrap().as_int(), Some(9));
}
