//! What the server decides and remembers.
use vstd::prelude::*;
use crate::api::{
    bad_req, internal_err, ApiError, GenesisReq, GenesisResp, HistoryEntry, ParticipantInfo,
    RegisterReq, RegisterResp, StatusCode, StatusResp, WriteReq, WriteResp,
};
use crate::api::{bad, internal, EntryView, ErrorView};
use crate::dict::{same_dict, FieldValue, PublicKey};
use crate::dict::{lemma_value_view, ValueView};
use crate::json::{json_clone, json_flag, json_insert, json_map, json_object};
use crate::json::{json_of, Json};
use crate::pod::{state_to_json, write_step, Participant, SignedDict, WritePlan};
use crate::pod::{
    json_view, names_writer, plan_view, step_accepted, step_error_text, step_refused, version_of,
    ParticipantView, SignedView, StepErrorView,
};
use crate::string_map::StringMap;
use crate::string_map::{ascending, lemma_pairs_map, lemma_pairs_map_values, pairs_map};
use crate::text::{join, same};
use crate::text::text_less;

verus! {

/// One of the arguments asks for real proofs.
pub open spec fn asks_for_real_proofs(args: Seq<String>) -> bool {
    exists|i: int| 0 <= i < args.len() && (#[trigger] args[i])@ == "--real-proofs"@
}

/// The prover that the command line asks for: `true` for the mock prover, which is the default.
pub fn parse_args(args: &Vec<String>) -> (mock: bool)
    ensures
        mock == !exists|i: int| 0 <= i < args@.len() && (#[trigger] args@[i])@ == "--real-proofs"@,
        mock == !asks_for_real_proofs(args@),
{
    let mut i: usize = 0;
    while i < args.len()
        invariant
            i <= args@.len(),
            forall|j: int| 0 <= j < i ==> (#[trigger] args@[j])@ != "--real-proofs"@,
        decreases args@.len() - i,
    {
        if same(args[i].as_str(), "--real-proofs") {
            return false;
        }
        i = i + 1;
    }
    true
}

/// All that the server remembers.
#[derive(Debug)]
pub struct AppState {
    /// Whether the mock prover makes the proofs.
    pub mock: bool,
    /// The state of the object, once there is one.
    pub current_state: Option<SignedDict>,
    /// Everyone who is registered, by name.
    pub participants: StringMap<Participant>,
    /// The writes that were made, in order.
    pub history: Vec<HistoryEntry>,
}

/// The meaning of what the server remembers.
pub ghost struct AppView {
    pub mock: bool,
    pub current: Option<SignedView>,
    pub participants: Map<Seq<char>, ParticipantView>,
    pub history: Seq<EntryView>,
}

impl View for AppState {
    type V = AppView;

    open spec fn view(&self) -> AppView {
        AppView {
            mock: self.mock,
            current: match self.current_state {
                Some(s) => Some(s@),
                None => None,
            },
            participants: self.participants@.map_values(|p: Participant| p@),
            history: self.history@.map_values(|e: HistoryEntry| e@),
        }
    }
}

/// A server that remembers nothing yet.
pub open spec fn fresh(mock: bool) -> AppView {
    AppView { mock, current: None, participants: Map::empty(), history: Seq::empty() }
}

impl AppState {
    /// A server that remembers nothing yet.
    pub fn new(mock: bool) -> (app: AppState)
        ensures
            app@ == fresh(mock),
    {
        let app = AppState {
            mock,
            current_state: None,
            participants: StringMap::new(),
            history: Vec::new(),
        };
        assert(app@.participants =~= fresh(mock).participants);
        assert(app@.history =~= fresh(mock).history);
        app
    }
}

/// A registry with `p` under `name`, unless the name is taken.
pub open spec fn with_default(
    participants: Map<Seq<char>, ParticipantView>,
    name: Seq<char>,
    p: ParticipantView,
) -> Map<Seq<char>, ParticipantView> {
    if participants.contains_key(name) {
        participants
    } else {
        participants.insert(name, p)
    }
}

/// A registry with everyone who is there from the start.
pub open spec fn seeded(
    participants: Map<Seq<char>, ParticipantView>,
    alice: ParticipantView,
    bob: ParticipantView,
    charlie: ParticipantView,
) -> Map<Seq<char>, ParticipantView> {
    with_default(
        with_default(with_default(participants, "alice"@, alice), "bob"@, bob),
        "charlie"@,
        charlie,
    )
}

/// Registers `p` under `name`, unless the name is taken.
fn register_default(app: &mut AppState, name: &str, p: Participant)
    ensures
        final(app)@ == (AppView {
            participants: with_default(old(app)@.participants, name@, p@),
            ..old(app)@
        }),
{
    if !app.participants.contains(name) {
        app.participants.insert(name.to_owned(), p);
    }
    assert(app@.participants =~= with_default(old(app)@.participants, name@, p@));
}

/// Registers the participants who are there from the start, each with the given key pair, unless
/// the name is taken.
pub fn seed_participants(
    app: &mut AppState,
    alice: Participant,
    bob: Participant,
    charlie: Participant,
)
    ensures
        final(app)@ == (AppView {
            participants: seeded(old(app)@.participants, alice@, bob@, charlie@),
            ..old(app)@
        }),
{
    register_default(app, "alice", alice);
    register_default(app, "bob", bob);
    register_default(app, "charlie", charlie);
}

/// `name` is registered and the current state names its key as the writer.
pub open spec fn holds_baton(app: AppView, name: Seq<char>) -> bool {
    &&& app.current is Some
    &&& app.participants.contains_key(name)
    &&& names_writer(app.current->0.dict, app.participants[name].pk)
}

/// `writer` is who may write: the first holder of the baton by name.
pub open spec fn is_current_writer(app: AppView, writer: Option<Seq<char>>) -> bool {
    match writer {
        Some(name) => holds_baton(app, name) && forall|other: Seq<char>| #[trigger]
            holds_baton(app, other) ==> other == name || text_less(name, other),
        None => forall|other: Seq<char>| !#[trigger] holds_baton(app, other),
    }
}

/// The characters of an optional string.
pub open spec fn opt_text(s: Option<String>) -> Option<Seq<char>> {
    match s {
        Some(t) => Some(t@),
        None => None,
    }
}

/// The name of the participant who may write.
pub fn current_writer_name(app: &AppState) -> (name: Option<String>)
    ensures
        is_current_writer(app@, opt_text(name)),
{
    let state = match &app.current_state {
        Some(s) => s,
        None => {
            return None;
        },
    };
    let writer = match state.dict.get("writer_pk") {
        Some(v) => v,
        None => {
            return None;
        },
    };
    let n = app.participants.len();
    let ghost l = app.participants.listing();
    let mut i: usize = 0;
    while i < n
        invariant
            i <= n,
            n == l.len(),
            l == app.participants.listing(),
            ascending(l),
            pairs_map(l) == app.participants@,
            app.current_state == Some(*state),
            state@.dict.contains_key("writer_pk"@),
            state@.dict["writer_pk"@] == writer@,
            forall|j: int| 0 <= j < i ==> !holds_baton(app@, (#[trigger] l[j]).0),
        decreases n - i,
    {
        let (name, p) = app.participants.entry(i);
        if writer.is_key(&p.pk) {
            proof {
                assert(holds_baton(app@, name@));
                assert forall|other: Seq<char>| #[trigger] holds_baton(app@, other) implies other
                    == name@ || text_less(name@, other) by {
                    lemma_pairs_map(l);
                    let j = choose|j: int| 0 <= j < l.len() && #[trigger] l[j].0 == other;
                    assert(j >= i);
                }
            }
            return Some(name.clone());
        }
        i = i + 1;
    }
    proof {
        assert forall|other: Seq<char>| !#[trigger] holds_baton(app@, other) by {
            if holds_baton(app@, other) {
                lemma_pairs_map(l);
                let j = choose|j: int| 0 <= j < l.len() && #[trigger] l[j].0 == other;
                assert(holds_baton(app@, l[j].0));
            }
        }
    }
    None
}

/// Registers the participant `p` under the requested name, in place of who had it. `shown_key` is
/// the text that the public key is shown as.
pub fn handle_register(
    app: &mut AppState,
    req: RegisterReq,
    p: Participant,
    shown_key: String,
) -> (resp: RegisterResp)
    ensures
        final(app)@ == (AppView {
            participants: old(app)@.participants.insert(req.name@, p@),
            ..old(app)@
        }),
        resp.name == req.name,
        resp.public_key == shown_key,
{
    app.participants.insert(req.name.clone(), p);
    assert(app@.participants =~= old(app)@.participants.insert(req.name@, p@));
    RegisterResp { name: req.name, public_key: shown_key }
}

/// The answer to a request that names someone who is not registered.
pub open spec fn unknown_participant(name: Seq<char>) -> ErrorView {
    bad("unknown participant: "@ + name)
}

/// The answer to a genesis while there is an object.
pub open spec fn genesis_exists() -> ErrorView {
    bad("genesis already exists — call /api/reset first"@)
}

/// Whether a genesis may be made, and if so with whose key as that of the first writer.
pub fn handle_genesis_check(app: &AppState, req: &GenesisReq) -> (r: Result<PublicKey, ApiError>)
    ensures
        r is Ok <==> app@.current is None && app@.participants.contains_key(req.first_writer@),
        match r {
            Ok(pk) => pk@ == app@.participants[req.first_writer@].pk,
            Err(e) => e@ == if app@.current is Some {
                genesis_exists()
            } else {
                unknown_participant(req.first_writer@)
            },
        },
{
    if app.current_state.is_some() {
        return Err(bad_req("genesis already exists — call /api/reset first".to_owned()));
    }
    match app.participants.get(req.first_writer.as_str()) {
        Some(p) => Ok(p.pk.copy()),
        None => Err(bad_req(join("unknown participant: ", req.first_writer.as_str()))),
    }
}

/// Takes the genesis as the current state once it is signed, unless there is an object by then.
/// `outcome` holds what its entries are shown as, or what went wrong with the signature. Where the
/// genesis is not taken, nothing changes.
pub fn handle_genesis_commit(
    app: &mut AppState,
    state: SignedDict,
    outcome: Result<StringMap<String>, String>,
    first_writer: String,
) -> (r: Result<GenesisResp, ApiError>)
    ensures
        match outcome {
            Ok(texts) => if old(app)@.current is None {
                &&& final(app)@ == (AppView { current: Some(state@), ..old(app)@ })
                &&& r is Ok
                &&& json_of(r->Ok_0.state) == Json::Object(json_view(state@.dict, texts@))
                &&& r->Ok_0.first_writer == first_writer
            } else {
                &&& final(app)@ == old(app)@
                &&& r is Err
                &&& r->Err_0@ == genesis_exists()
            },
            Err(message) => {
                &&& final(app)@ == old(app)@
                &&& r is Err
                &&& r->Err_0@ == internal(message@)
            },
        },
{
    match outcome {
        Ok(texts) => {
            if app.current_state.is_some() {
                return Err(bad_req("genesis already exists — call /api/reset first".to_owned()));
            }
            let json = state_to_json(&state, &texts);
            app.current_state = Some(state);
            Ok(GenesisResp { state: json, first_writer })
        },
        Err(message) => Err(internal_err(message)),
    }
}

/// The answer to a write by someone who does not hold the baton.
pub open spec fn not_the_holder(holder: Option<Seq<char>>, writer: Seq<char>) -> ErrorView {
    ErrorView {
        status: StatusCode::Forbidden,
        message: "baton held by "@ + match holder {
            Some(name) => name,
            None => "nobody"@,
        } + ", not "@ + writer,
    }
}

/// Whether a write may be made, and if so by whom and to whose key.
pub fn handle_write_check(app: &AppState, req: &WriteReq) -> (r: Result<
    (Participant, PublicKey),
    ApiError,
>)
    ensures
        r is Ok <==> is_current_writer(app@, Some(req.writer@)) && app@.participants.contains_key(
            req.next_writer@,
        ),
        match r {
            Ok((writer, next_pk)) => writer@ == app@.participants[req.writer@] && next_pk@
                == app@.participants[req.next_writer@].pk,
            Err(e) => if is_current_writer(app@, Some(req.writer@)) {
                e@ == unknown_participant(req.next_writer@)
            } else {
                exists|holder: Option<Seq<char>>| #[trigger]
                    is_current_writer(app@, holder) && e@ == not_the_holder(holder, req.writer@)
            },
        },
{
    let expected = current_writer_name(app);
    let ghost holder = opt_text(expected);
    let held = match &expected {
        Some(name) => same(name.as_str(), req.writer.as_str()),
        None => false,
    };
    proof {
        if is_current_writer(app@, Some(req.writer@)) {
            lemma_current_writer_unique(app@, holder, Some(req.writer@));
        }
    }
    if !held {
        let mut message = "baton held by ".to_owned();
        match &expected {
            Some(name) => message.append(name.as_str()),
            None => message.append("nobody"),
        }
        message.append(", not ");
        message.append(req.writer.as_str());
        let e = ApiError { status: StatusCode::Forbidden, message };
        assert(e@ == not_the_holder(holder, req.writer@));
        return Err(e);
    }
    let writer = match app.participants.get(req.writer.as_str()) {
        Some(p) => p.copy(),
        None => {
            return Err(bad_req(join("unknown participant: ", req.writer.as_str())));
        },
    };
    match app.participants.get(req.next_writer.as_str()) {
        Some(p) => Ok((writer, p.pk.copy())),
        None => Err(bad_req(join("unknown participant: ", req.next_writer.as_str()))),
    }
}

/// There is one current writer at most.
pub proof fn lemma_current_writer_unique(
    app: AppView,
    a: Option<Seq<char>>,
    b: Option<Seq<char>>,
)
    requires
        is_current_writer(app, a),
        is_current_writer(app, b),
    ensures
        a == b,
{
    if let (Some(x), Some(y)) = (a, b) {
        assert(holds_baton(app, x) && holds_baton(app, y));
        if x != y {
            crate::text::lemma_text_transitive(x, y, x);
            crate::text::lemma_text_irreflexive(x);
        }
    }
}

/// Plans the write of `writer` on the current state, with the prover that the server runs with.
pub fn handle_write_plan(
    app: &AppState,
    writer: &Participant,
    next_pk: &PublicKey,
    updates: &StringMap<i64>,
) -> (r: Result<WritePlan, ApiError>)
    ensures
        r is Ok <==> app@.current is Some && step_accepted(
            app@.current->0.dict,
            writer@.pk,
            updates@,
        ),
        match r {
            Ok(plan) => plan@ == plan_view(
                app@.current->0,
                writer@,
                next_pk@,
                updates@,
                updates.listing(),
                app@.mock,
            ),
            Err(e) => if app@.current is None {
                e@ == internal("no genesis yet"@)
            } else {
                exists|why: StepErrorView| #[trigger]
                    step_refused(app@.current->0.dict, writer@.pk, updates@, why) && e@ == internal(
                        step_error_text(why),
                    )
            },
        },
        ascending(updates.listing()),
        pairs_map(updates.listing()) == updates@,
{
    // Tells that the fields are listed in key order, also where nothing is planned.
    let _ = updates.len();
    match &app.current_state {
        None => Err(internal_err("no genesis yet".to_owned())),
        Some(prev_state) => match write_step(prev_state, writer, next_pk, updates, app.mock) {
            Ok(plan) => Ok(plan),
            Err(why) => {
                let e = internal_err(why.message());
                assert(step_refused(app@.current->0.dict, writer@.pk, updates@, why@));
                Err(e)
            },
        },
    }
}

/// The version that a state is recorded under.
pub open spec fn recorded_version(state: SignedView) -> int {
    match version_of(state.dict) {
        Some(v) => v,
        None => 0,
    }
}

/// What the server remembers once a write is made.
pub open spec fn written(app: AppView, new_state: SignedView, entry: EntryView) -> AppView {
    AppView { current: Some(new_state), history: app.history.push(entry), ..app }
}

/// A proof that was made and a state that was signed.
#[derive(Debug)]
pub struct Proved {
    /// The proof.
    pub proof: serde_json::Value,
    /// What the entries of the new state are shown as.
    pub texts: StringMap<String>,
}

/// Nothing stands against the new state: there is no object, or the new state commits to the current
/// one as the state before.
pub open spec fn continues(current: Option<SignedView>, new_state: SignedView) -> bool {
    current is Some ==> {
        &&& new_state.dict.contains_key("prev_hash"@)
        &&& new_state.dict["prev_hash"@] == ValueView::Dictionary(current->0.dict)
    }
}

/// The answer to a write whose plan does not start from the current state.
pub open spec fn outdated() -> ErrorView {
    bad("the object has changed since the write was planned"@)
}

/// Takes the state that a plan leads to as the current state and records the write, once the plan is
/// proved and the state signed, unless the object has changed by then. A reset does not stop a write
/// that is under way: with no object there, the write is recorded. `outcome` holds the proof, or what
/// went wrong with it. Where the write is not recorded, nothing changes.
pub fn handle_write_commit(
    app: &mut AppState,
    req: WriteReq,
    plan: WritePlan,
    outcome: Result<Proved, String>,
) -> (r: Result<WriteResp, ApiError>)
    ensures
        match outcome {
            Ok(proved) => if continues(old(app)@.current, plan@.new_state) {
                let new_state = plan@.new_state;
                &&& r is Ok
                &&& r->Ok_0.version == recorded_version(new_state)
                &&& r->Ok_0.proof == proved.proof
                &&& json_of(r->Ok_0.state) == Json::Object(
                    json_view(new_state.dict, proved.texts@),
                )
                &&& final(app)@ == written(
                    old(app)@,
                    new_state,
                    (EntryView {
                        version: recorded_version(new_state),
                        writer: req.writer@,
                        next_writer: req.next_writer@,
                        updates: req.updates@,
                        proof: proved.proof,
                        state: r->Ok_0.state,
                    }),
                )
            } else {
                &&& final(app)@ == old(app)@
                &&& r is Err
                &&& r->Err_0@ == outdated()
            },
            Err(message) => {
                &&& final(app)@ == old(app)@
                &&& r is Err
                &&& r->Err_0@ == internal(message@)
            },
        },
{
    broadcast use lemma_value_view;

    let proved = match outcome {
        Ok(proved) => proved,
        Err(message) => {
            return Err(internal_err(message));
        },
    };
    let new_state = plan.new_state;
    let up_to_date = match &app.current_state {
        Some(current) => match new_state.dict.get("prev_hash") {
            Some(FieldValue::Dictionary(d)) => same_dict(&**d, &*current.dict),
            _ => false,
        },
        None => true,
    };
    if !up_to_date {
        return Err(bad_req("the object has changed since the write was planned".to_owned()));
    }
    let version: i64 = match new_state.version() {
        Some(v) => v,
        None => 0,
    };
    let state_json = state_to_json(&new_state, &proved.texts);
    app.history.push(
        HistoryEntry {
            version,
            writer: req.writer,
            next_writer: req.next_writer,
            updates: req.updates,
            proof: json_clone(&proved.proof),
            state: json_clone(&state_json),
        },
    );
    app.current_state = Some(new_state);
    assert(app@.history =~= old(app)@.history.push(app@.history.last()));
    Ok(WriteResp { proof: proved.proof, state: state_json, version })
}

/// `names` are the names of the participants, in order.
pub open spec fn lists_names(
    names: Seq<String>,
    participants: Map<Seq<char>, ParticipantView>,
) -> bool {
    &&& forall|i: int, j: int|
        0 <= i < j < names.len() ==> text_less((#[trigger] names[i])@, (#[trigger] names[j])@)
    &&& forall|name: Seq<char>| #[trigger]
        participants.contains_key(name) <==> exists|i: int|
            0 <= i < names.len() && (#[trigger] names[i])@ == name
}

/// The names of the participants, in order.
fn participant_names(app: &AppState) -> (names: Vec<String>)
    ensures
        lists_names(names@, app@.participants),
{
    let mut names: Vec<String> = Vec::new();
    let n = app.participants.len();
    let ghost l = app.participants.listing();
    let mut i: usize = 0;
    while i < n
        invariant
            i <= n,
            n == l.len(),
            l == app.participants.listing(),
            names@.len() == i,
            forall|j: int| 0 <= j < i ==> (#[trigger] names@[j])@ == l[j].0,
        decreases n - i,
    {
        let (name, _) = app.participants.entry(i);
        names.push(name.clone());
        i = i + 1;
    }
    proof {
        lemma_pairs_map(l);
        assert forall|name: Seq<char>| #[trigger]
            app@.participants.contains_key(name) <==> exists|i: int|
                0 <= i < names@.len() && (#[trigger] names@[i])@ == name by {
            if app@.participants.contains_key(name) {
                let j = choose|j: int| 0 <= j < l.len() && #[trigger] l[j].0 == name;
                assert(names@[j]@ == name);
            }
            if exists|i: int| 0 <= i < names@.len() && (#[trigger] names@[i])@ == name {
                let j = choose|i: int| 0 <= i < names@.len() && (#[trigger] names@[i])@ == name;
                assert(pairs_map(l).contains_key(l[j].0));
            }
        }
        assert forall|i: int, j: int| 0 <= i < j < names@.len() implies text_less(
            (#[trigger] names@[i])@,
            (#[trigger] names@[j])@,
        ) by {
            assert(text_less(l[i].0, l[j].0));
        }
    }
    names
}

/// Where the object stands. `texts` holds what the entries of the current state are shown as, where
/// they could be read.
pub fn handle_status(app: &AppState, texts: Option<&StringMap<String>>) -> (resp: StatusResp)
    ensures
        resp.has_genesis == app@.current is Some,
        match resp.current_version {
            Some(v) => app@.current is Some && version_of(app@.current->0.dict) == Some(v as int),
            None => app@.current is Some ==> version_of(app@.current->0.dict) is None,
        },
        is_current_writer(app@, opt_text(resp.current_writer)),
        lists_names(resp.participants@, app@.participants),
        resp.history_len == app@.history.len(),
        match resp.current_state {
            Some(json) => app@.current is Some && texts is Some && json_of(json) == Json::Object(
                json_view(app@.current->0.dict, texts->0@),
            ),
            None => app@.current is None || texts is None,
        },
{
    let current_version = match &app.current_state {
        Some(s) => s.version(),
        None => None,
    };
    let current_state = match &app.current_state {
        Some(s) => match texts {
            Some(t) => Some(state_to_json(s, t)),
            None => None,
        },
        None => None,
    };
    StatusResp {
        has_genesis: app.current_state.is_some(),
        current_version,
        current_writer: current_writer_name(app),
        participants: participant_names(app),
        history_len: app.history.len(),
        current_state,
    }
}

/// The listing that a list of participants shows.
pub open spec fn info_pairs(list: Seq<ParticipantInfo>) -> Seq<(Seq<char>, Seq<char>)> {
    list.map_values(|p: ParticipantInfo| (p.name@, p.public_key@))
}

/// Everyone who is registered, with their public keys, by name.
pub fn handle_participants(app: &AppState) -> (list: Vec<ParticipantInfo>)
    ensures
        ascending(info_pairs(list@)),
        pairs_map(info_pairs(list@)) == app@.participants.map_values(|p: ParticipantView| p.pk),
{
    let mut list: Vec<ParticipantInfo> = Vec::new();
    let n = app.participants.len();
    let ghost l = app.participants.listing();
    let mut i: usize = 0;
    while i < n
        invariant
            i <= n,
            n == l.len(),
            l == app.participants.listing(),
            list@.len() == i,
            forall|j: int|
                0 <= j < i ==> (#[trigger] list@[j]).name@ == l[j].0 && list@[j].public_key@
                    == l[j].1.pk@,
        decreases n - i,
    {
        let (name, p) = app.participants.entry(i);
        list.push(ParticipantInfo { name: name.clone(), public_key: p.pk.text.clone() });
        i = i + 1;
    }
    proof {
        let f = |p: Participant| p.pk@;
        let m = info_pairs(list@);
        assert(m =~= l.map_values(|e: (Seq<char>, Participant)| (e.0, f(e.1))));
        lemma_pairs_map_values(l, f);
        assert(app.participants@.map_values(f) =~= app@.participants.map_values(
            |p: ParticipantView| p.pk,
        ));
        assert forall|i: int, j: int| 0 <= i < j < m.len() implies text_less(m[i].0, m[j].0) by {
            assert(text_less(l[i].0, l[j].0));
        }
    }
    list
}

/// The writes that were made, in order.
pub fn handle_history(app: &AppState) -> (history: Vec<HistoryEntry>)
    ensures
        history@.map_values(|e: HistoryEntry| e@) == app@.history,
{
    let mut history: Vec<HistoryEntry> = Vec::new();
    let mut i: usize = 0;
    while i < app.history.len()
        invariant
            i <= app.history@.len(),
            history@.len() == i,
            forall|j: int| 0 <= j < i ==> (#[trigger] history@[j])@ == app.history@[j]@,
        decreases app.history@.len() - i,
    {
        history.push(app.history[i].copy());
        i = i + 1;
    }
    assert(history@.map_values(|e: HistoryEntry| e@) =~= app@.history);
    history
}

/// Forgets the object and its history, and everyone but the participants who are there from the
/// start, who get the given key pairs.
pub fn handle_reset(
    app: &mut AppState,
    alice: Participant,
    bob: Participant,
    charlie: Participant,
) -> (resp: serde_json::Value)
    ensures
        final(app)@ == (AppView {
            participants: seeded(Map::empty(), alice@, bob@, charlie@),
            ..fresh(old(app)@.mock)
        }),
        json_of(resp) == Json::Object(Map::empty().insert("ok"@, Json::Flag(true))),
{
    let mut next = AppState::new(app.mock);
    seed_participants(&mut next, alice, bob, charlie);
    *app = next;
    let mut map = json_map();
    json_insert(&mut map, "ok".to_owned(), json_flag(true));
    let resp = json_object(map);
    assert(json_of(resp)->Object_0 =~= Map::empty().insert("ok"@, Json::Flag(true)));
    resp
}

} // verus!
