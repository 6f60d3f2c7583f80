//! What the server answers and remembers, told from what goes in and what comes out. Each law
//! speaks of every call: `call_ensures` says that the call gave this result.
use vstd::prelude::*;
use crate::api::{
    ApiError, GenesisReq, GenesisResp, HistoryEntry, ParticipantInfo, RegisterReq, RegisterResp,
    StatusCode, StatusResp, WriteReq, WriteResp,
};
use crate::api::internal;
use crate::dict::{DictView, PublicKey, ValueView};
use crate::json::{json_of, Json};
use crate::laws::{law_names_are_complete, law_one_answer, law_reset};
use crate::object_laws::{same_entry, shows};
use crate::pod::{step_error_text, step_refused, ParticipantView, StepErrorView};
use crate::pod::{
    create_genesis, state_to_json, write_step, Participant, SignedDict, StepError, WritePlan,
};
use crate::server::{
    asks_for_real_proofs, holds_baton, info_pairs, is_current_writer, not_the_holder,
};
use crate::server::{
    current_writer_name, handle_genesis_check, handle_genesis_commit, handle_history,
    handle_participants, handle_register, handle_reset, handle_status, handle_write_check,
    handle_write_commit, handle_write_plan, parse_args, seed_participants, AppState, Proved,
};
use crate::string_map::StringMap;
use crate::string_map::{lemma_pairs_map, pairs_map};
use crate::text::text_less;

verus! {

/// Two participants have the same key pair.
pub open spec fn same_person(a: Participant, b: Participant) -> bool {
    a.sk == b.sk && a.pk.text@ == b.pk.text@
}

/// The same names are registered with the same key pairs.
pub open spec fn same_people(
    a: Map<Seq<char>, Participant>,
    b: Map<Seq<char>, Participant>,
) -> bool {
    forall|name: Seq<char>|
        (#[trigger] a.contains_key(name) <==> b.contains_key(name)) && (a.contains_key(name)
            ==> same_person(a[name], b[name]))
}

/// There is the same object in the same state, signed by the same key, or none.
pub open spec fn same_object(a: Option<SignedDict>, b: Option<SignedDict>) -> bool {
    match (a, b) {
        (Some(x), Some(y)) => x.dict@ == y.dict@ && x.signer.text@ == y.signer.text@,
        (None, None) => true,
        _ => false,
    }
}

/// The same writes are recorded in the same order.
pub open spec fn same_history(a: Seq<HistoryEntry>, b: Seq<HistoryEntry>) -> bool {
    &&& a.len() == b.len()
    &&& forall|i: int| 0 <= i < a.len() ==> same_entry(#[trigger] a[i], b[i])
}

/// The server remembers the same.
pub open spec fn unchanged(a: AppState, b: AppState) -> bool {
    &&& a.mock == b.mock
    &&& same_object(a.current_state, b.current_state)
    &&& same_people(a.participants@, b.participants@)
    &&& same_history(a.history@, b.history@)
}

proof fn lemma_object(a: AppState, b: AppState)
    requires
        a@.current == b@.current,
    ensures
        same_object(a.current_state, b.current_state),
{
    if let (Some(x), Some(y)) = (a.current_state, b.current_state) {
        assert(x@ == y@);
    }
}

proof fn lemma_history(a: AppState, b: AppState)
    requires
        a@.history == b@.history,
    ensures
        same_history(a.history@, b.history@),
{
    assert(a@.history.len() == a.history@.len());
    assert(b@.history.len() == b.history@.len());
    assert forall|i: int| 0 <= i < a.history@.len() implies same_entry(
        #[trigger] a.history@[i],
        b.history@[i],
    ) by {
        lemma_entry(a, i);
        lemma_entry(b, i);
    }
}

proof fn lemma_entry(a: AppState, i: int)
    requires
        0 <= i < a.history@.len(),
    ensures
        a@.history[i] == a.history@[i]@,
        a@.history[i].version == a.history@[i].version,
        a@.history[i].writer == a.history@[i].writer@,
        a@.history[i].next_writer == a.history@[i].next_writer@,
        a@.history[i].updates == a.history@[i].updates@,
        a@.history[i].proof == a.history@[i].proof,
        a@.history[i].state == a.history@[i].state,
{
}

proof fn lemma_person(a: AppState, name: Seq<char>)
    ensures
        a@.participants.contains_key(name) <==> a.participants@.contains_key(name),
        a.participants@.contains_key(name) ==> a@.participants[name].sk
            == a.participants@[name].sk.slot && a@.participants[name].pk
            == a.participants@[name].pk.text@,
{
}

proof fn lemma_people(a: AppState, b: AppState)
    requires
        a@.participants == b@.participants,
    ensures
        same_people(a.participants@, b.participants@),
{
    assert forall|name: Seq<char>|
        (#[trigger] a.participants@.contains_key(name) <==> b.participants@.contains_key(name)) && (
        a.participants@.contains_key(name) ==> same_person(
            a.participants@[name],
            b.participants@[name],
        )) by {
        lemma_person(a, name);
        lemma_person(b, name);
    }
}

proof fn lemma_unchanged(a: AppState, b: AppState)
    requires
        a@ == b@,
    ensures
        unchanged(a, b),
{
    lemma_object(a, b);
    lemma_history(a, b);
    lemma_people(a, b);
    assert(a@.mock == a.mock && b@.mock == b.mock);
}

/// The mock prover is chosen unless one of the arguments asks for real proofs.
pub proof fn law_arguments(args: Vec<String>, mock: bool)
    requires
        call_ensures(parse_args, (&args,), mock),
    ensures
        mock <==> forall|i: int|
            0 <= i < args@.len() ==> (#[trigger] args@[i])@ != "--real-proofs"@,
{
    assert(mock == !asks_for_real_proofs(args@));
}

/// A new server has no object, no history and nobody registered, and runs with the given prover.
pub proof fn law_new_server(mock: bool, app: AppState)
    requires
        call_ensures(AppState::new, (mock,), app),
    ensures
        app.mock == mock,
        app.current_state is None,
        app.history@.len() == 0,
        forall|name: Seq<char>| !#[trigger] app.participants@.contains_key(name),
{
    assert(app@.mock == app.mock);
    assert(app@.history.len() == app.history@.len());
    assert forall|name: Seq<char>| !#[trigger] app.participants@.contains_key(name) by {
        lemma_person(app, name);
    }
}

/// Seeding registers Alice, Bob and Charlie with the given key pairs, unless they are registered, and
/// changes nothing else.
pub proof fn law_seeding(
    app: &mut AppState,
    alice: Participant,
    bob: Participant,
    charlie: Participant,
)
    requires
        call_ensures(seed_participants, (app, alice, bob, charlie), ()),
    ensures
        final(app).mock == old(app).mock,
        same_object(final(app).current_state, old(app).current_state),
        same_history(final(app).history@, old(app).history@),
        forall|name: Seq<char>| #[trigger]
            final(app).participants@.contains_key(name) <==> old(app).participants@.contains_key(
                name,
            ) || name == "alice"@ || name == "bob"@ || name == "charlie"@,
        forall|name: Seq<char>| #[trigger]
            final(app).participants@.contains_key(name) ==> same_person(
                final(app).participants@[name],
                if old(app).participants@.contains_key(name) {
                    old(app).participants@[name]
                } else if name == "alice"@ {
                    alice
                } else if name == "bob"@ {
                    bob
                } else {
                    charlie
                },
            ),
{
    reveal_strlit("alice");
    reveal_strlit("bob");
    reveal_strlit("charlie");
    assert("alice"@.len() == 5);
    assert("bob"@.len() == 3);
    assert("charlie"@.len() == 7);
    lemma_object(*final(app), *old(app));
    lemma_history(*final(app), *old(app));
    assert(final(app)@.mock == final(app).mock && old(app)@.mock == old(app).mock);
    assert forall|name: Seq<char>| #[trigger]
        final(app).participants@.contains_key(name) <==> old(app).participants@.contains_key(name)
            || name == "alice"@ || name == "bob"@ || name == "charlie"@ by {
        lemma_person(*final(app), name);
        lemma_person(*old(app), name);
    }
    assert forall|name: Seq<char>| #[trigger]
        final(app).participants@.contains_key(name) implies same_person(
        final(app).participants@[name],
        if old(app).participants@.contains_key(name) {
            old(app).participants@[name]
        } else if name == "alice"@ {
            alice
        } else if name == "bob"@ {
            bob
        } else {
            charlie
        },
    ) by {
        lemma_person(*final(app), name);
        lemma_person(*old(app), name);
    }
}

/// `name` is registered, and the object names the key of `name` as that of its writer.
pub open spec fn holds_object(app: AppState, name: Seq<char>) -> bool {
    &&& app.current_state is Some
    &&& app.participants@.contains_key(name)
    &&& app.current_state->0.dict@.contains_key("writer_pk"@)
    &&& app.current_state->0.dict@["writer_pk"@] == ValueView::PublicKey(
        app.participants@[name].pk.text@,
    )
}

/// `name` is the first by name who holds the object.
pub open spec fn may_write(app: AppState, name: Seq<char>) -> bool {
    &&& holds_object(app, name)
    &&& forall|other: Seq<char>| #[trigger]
        holds_object(app, other) ==> other == name || text_less(name, other)
}

proof fn lemma_holds(app: AppState, name: Seq<char>)
    ensures
        holds_object(app, name) == holds_baton(app@, name),
{
    lemma_person(app, name);
}

proof fn lemma_may_write(app: AppState, name: Seq<char>)
    ensures
        may_write(app, name) == is_current_writer(app@, Some(name)),
{
    lemma_holds(app, name);
    assert forall|other: Seq<char>| holds_object(app, other) == holds_baton(app@, other) by {
        lemma_holds(app, other);
    }
    if may_write(app, name) {
        assert forall|other: Seq<char>| #[trigger] holds_baton(app@, other) implies other == name
            || text_less(name, other) by {
            assert(holds_object(app, other));
        }
    }
    if is_current_writer(app@, Some(name)) {
        assert forall|other: Seq<char>| #[trigger] holds_object(app, other) implies other == name
            || text_less(name, other) by {
            assert(holds_baton(app@, other));
        }
    }
}

proof fn lemma_nobody(app: AppState)
    requires
        is_current_writer(app@, None),
    ensures
        forall|name: Seq<char>| !#[trigger] holds_object(app, name),
{
    assert forall|name: Seq<char>| !#[trigger] holds_object(app, name) by {
        lemma_holds(app, name);
        assert(!holds_baton(app@, name));
    }
}

/// Whoever holds the object may write, the first by name where several do, and nobody where nobody
/// does.
pub proof fn law_current_writer(app: AppState, name: Option<String>)
    requires
        call_ensures(current_writer_name, (&app,), name),
    ensures
        match name {
            Some(s) => may_write(app, s@),
            None => forall|other: Seq<char>| !#[trigger] holds_object(app, other),
        },
{
    match name {
        Some(s) => {
            lemma_may_write(app, s@);
        },
        None => {
            lemma_nobody(app);
        },
    }
}

/// Registering puts the given key pair under the name, in place of any other, and changes nothing
/// else. The answer has the name and the text of the key.
pub proof fn law_register(
    app: &mut AppState,
    req: RegisterReq,
    p: Participant,
    shown_key: String,
    resp: RegisterResp,
)
    requires
        call_ensures(handle_register, (app, req, p, shown_key), resp),
    ensures
        resp.name@ == req.name@,
        resp.public_key@ == shown_key@,
        final(app).mock == old(app).mock,
        same_object(final(app).current_state, old(app).current_state),
        same_history(final(app).history@, old(app).history@),
        final(app).participants@.contains_key(req.name@),
        same_person(final(app).participants@[req.name@], p),
        forall|name: Seq<char>|
            name != req.name@ ==> (#[trigger] final(app).participants@.contains_key(name) <==> old(
                app,
            ).participants@.contains_key(name)) && (final(app).participants@.contains_key(name)
                ==> same_person(final(app).participants@[name], old(app).participants@[name])),
{
    lemma_object(*final(app), *old(app));
    lemma_history(*final(app), *old(app));
    lemma_person(*final(app), req.name@);
    assert(final(app)@.mock == final(app).mock && old(app)@.mock == old(app).mock);
    assert forall|name: Seq<char>|
        name != req.name@ implies (#[trigger] final(app).participants@.contains_key(name) <==> old(
        app,
    ).participants@.contains_key(name)) && (final(app).participants@.contains_key(name)
        ==> same_person(final(app).participants@[name], old(app).participants@[name])) by {
        lemma_person(*final(app), name);
        lemma_person(*old(app), name);
    }
}

/// A genesis may be made if and only if there is no object and the first writer is registered, and
/// then with the first writer's key. Otherwise the request is bad, and the answer says why.
pub proof fn law_genesis_check(app: AppState, req: GenesisReq, r: Result<PublicKey, ApiError>)
    requires
        call_ensures(handle_genesis_check, (&app, &req), r),
    ensures
        match r {
            Ok(pk) => {
                &&& app.current_state is None
                &&& app.participants@.contains_key(req.first_writer@)
                &&& pk.text@ == app.participants@[req.first_writer@].pk.text@
            },
            Err(e) => {
                &&& e.status == StatusCode::BadRequest
                &&& app.current_state is Some ==> e.message@
                    == "genesis already exists — call /api/reset first"@
                &&& app.current_state is None ==> !app.participants@.contains_key(req.first_writer@)
                    && e.message@ == "unknown participant: "@ + req.first_writer@
            },
        },
{
    lemma_person(app, req.first_writer@);
    if let Err(e) = r {
        assert(e@.status == e.status);
    }
}

/// A genesis that is signed becomes the object where there is none, and the answer shows it. Where
/// there is one, or the signature failed, nothing changes, and the answer says why.
pub proof fn law_genesis_commit(
    app: &mut AppState,
    state: SignedDict,
    outcome: Result<StringMap<String>, String>,
    first_writer: String,
    r: Result<GenesisResp, ApiError>,
)
    requires
        call_ensures(handle_genesis_commit, (app, state, outcome, first_writer), r),
    ensures
        r is Ok <==> outcome is Ok && old(app).current_state is None,
        match r {
            Ok(resp) => {
                &&& shows(resp.state, state.dict@, outcome->Ok_0@)
                &&& resp.first_writer@ == first_writer@
                &&& same_object(final(app).current_state, Some(state))
                &&& final(app).mock == old(app).mock
                &&& same_people(final(app).participants@, old(app).participants@)
                &&& same_history(final(app).history@, old(app).history@)
            },
            Err(e) => {
                &&& unchanged(*final(app), *old(app))
                &&& match outcome {
                    Ok(_) => e.status == StatusCode::BadRequest && e.message@
                        == "genesis already exists — call /api/reset first"@,
                    Err(message) => e.status == StatusCode::InternalServerError && e.message@
                        == message@,
                }
            },
        },
{
    assert(final(app)@.mock == final(app).mock && old(app)@.mock == old(app).mock);
    match r {
        Ok(_) => {
            lemma_people(*final(app), *old(app));
            lemma_history(*final(app), *old(app));
            assert(final(app)@.current == Some(state@));
        },
        Err(e) => {
            lemma_unchanged(*final(app), *old(app));
            assert(e@.status == e.status);
        },
    }
}

/// A write may be made if and only if the writer is the one who may write and the next writer is
/// registered, and then by the writer's key pair and to the next writer's key. Otherwise the answer
/// says who holds the object, or who is not registered.
pub proof fn law_write_check(
    app: AppState,
    req: WriteReq,
    r: Result<(Participant, PublicKey), ApiError>,
)
    requires
        call_ensures(handle_write_check, (&app, &req), r),
    ensures
        match r {
            Ok((writer, next_pk)) => {
                &&& may_write(app, req.writer@)
                &&& same_person(writer, app.participants@[req.writer@])
                &&& app.participants@.contains_key(req.next_writer@)
                &&& next_pk.text@ == app.participants@[req.next_writer@].pk.text@
            },
            Err(e) => if may_write(app, req.writer@) {
                &&& !app.participants@.contains_key(req.next_writer@)
                &&& e.status == StatusCode::BadRequest
                &&& e.message@ == "unknown participant: "@ + req.next_writer@
            } else {
                &&& e.status == StatusCode::Forbidden
                &&& {
                    ||| exists|holder: Seq<char>| #[trigger]
                        may_write(app, holder) && e.message@ == "baton held by "@ + holder
                            + ", not "@ + req.writer@
                    ||| (forall|other: Seq<char>| !#[trigger] holds_object(app, other))
                        && e.message@ == "baton held by "@ + "nobody"@ + ", not "@ + req.writer@
                }
            },
        },
{
    lemma_may_write(app, req.writer@);
    lemma_person(app, req.writer@);
    lemma_person(app, req.next_writer@);
    if let Err(e) = r {
        assert(e@.status == e.status);
        if !may_write(app, req.writer@) {
            let holder = choose|holder: Option<Seq<char>>| #[trigger]
                is_current_writer(app@, holder) && e@ == not_the_holder(
                    holder,
                    req.writer@,
                );
            match holder {
                Some(name) => {
                    lemma_may_write(app, name);
                },
                None => {
                    lemma_nobody(app);
                },
            }
        }
    }
}

/// A write is planned as the step on the current state with the server's prover: the plan is that of
/// the step, and a refusal says what the step's says. Without an object nothing is planned.
pub proof fn law_write_plan_is_the_step(
    app: AppState,
    writer: Participant,
    next_pk: PublicKey,
    updates: StringMap<i64>,
    r: Result<WritePlan, ApiError>,
    state: SignedDict,
    step: Result<WritePlan, StepError>,
    words: String,
)
    requires
        call_ensures(handle_write_plan, (&app, &writer, &next_pk, &updates), r),
        same_object(app.current_state, Some(state)),
        call_ensures(write_step, (&state, &writer, &next_pk, &updates, app.mock), step),
        step is Err ==> call_ensures(StepError::message, (&step->Err_0,), words),
    ensures
        match (r, step) {
            (Ok(plan), Ok(same)) => {
                &&& plan.mock == app.mock
                &&& plan.new_version == same.new_version
                &&& plan.new_state.dict@ == same.new_state.dict@
                &&& plan.new_state.signer.text@ == same.new_state.signer.text@
                &&& plan.signing_key == writer.sk
                &&& plan.operations@.len() == same.operations@.len()
                &&& forall|i: int|
                    0 <= i < plan.operations@.len() ==> (#[trigger] plan.operations@[i])@
                        == same.operations@[i]@
            },
            (Err(e), Err(_)) => e.status == StatusCode::InternalServerError && e.message@ == words@,
            _ => false,
        },
{
    assert(app@.current == Some(state@));
    assert(app@.mock == app.mock);
    match (r, step) {
        (Ok(plan), Ok(same)) => {
            assert(plan@ == same@);
            assert(plan@.mock == plan.mock);
            assert(plan@.new_version == plan.new_version && same@.new_version == same.new_version);
            assert(plan@.new_state == plan.new_state@ && same@.new_state == same.new_state@);
            assert(plan@.signing_key == plan.signing_key.slot);
            assert(plan@.operations.len() == plan.operations@.len());
            assert(same@.operations.len() == same.operations@.len());
            assert forall|i: int| 0 <= i < plan.operations@.len() implies (
            #[trigger] plan.operations@[i])@ == same.operations@[i]@ by {
                assert(plan@.operations[i] == plan.operations@[i]@);
                assert(same@.operations[i] == same.operations@[i]@);
            }
        },
        (Err(e), Err(why)) => {
            assert(e@.status == e.status);
            let other = choose|other: StepErrorView| #[trigger]
                step_refused(app@.current->0.dict, writer@.pk, updates@, other) && e@ == internal(
                    step_error_text(other),
                );
            law_one_answer(state.dict@, writer@.pk, updates@, why@, other);
        },
        _ => {},
    }
}

/// Without an object no write is planned, and the answer says so.
pub proof fn law_no_plan_without_object(
    app: AppState,
    writer: Participant,
    next_pk: PublicKey,
    updates: StringMap<i64>,
    r: Result<WritePlan, ApiError>,
)
    requires
        call_ensures(handle_write_plan, (&app, &writer, &next_pk, &updates), r),
        app.current_state is None,
    ensures
        r is Err,
        r->Err_0.status == StatusCode::InternalServerError,
        r->Err_0.message@ == "no genesis yet"@,
{
    assert(r->Err_0@.status == r->Err_0.status);
}

/// The state can follow what there is: there is no object, or the state has the object's state as the
/// one before it.
pub open spec fn can_follow(new_state: DictView, current: Option<SignedDict>) -> bool {
    match current {
        Some(state) => new_state.contains_key("prev_hash"@) && new_state["prev_hash"@]
            == ValueView::Dictionary(state.dict@),
        None => true,
    }
}

/// A write that is proved is recorded if and only if its state can follow what there is. The entry
/// has its own version, hands, updates and proof, and the state as it is answered; the entries before
/// it, the registry and the prover stay, and the new state is the object's.
pub proof fn law_write_commit(
    app: &mut AppState,
    req: WriteReq,
    plan: WritePlan,
    outcome: Result<Proved, String>,
    r: Result<WriteResp, ApiError>,
)
    requires
        call_ensures(handle_write_commit, (app, req, plan, outcome), r),
    ensures
        r is Ok <==> outcome is Ok && can_follow(
            plan.new_state.dict@,
            old(app).current_state,
        ),
        match r {
            Ok(resp) => {
                let n = old(app).history@.len();
                let entry = final(app).history@[n as int];
                &&& resp.proof == outcome->Ok_0.proof
                &&& shows(resp.state, plan.new_state.dict@, outcome->Ok_0.texts@)
                &&& resp.version == if plan.new_state.dict@.contains_key("version"@)
                    && plan.new_state.dict@["version"@] is Int {
                    plan.new_state.dict@["version"@]->Int_0
                } else {
                    0
                }
                &&& final(app).history@.len() == n + 1
                &&& forall|i: int|
                    0 <= i < n ==> same_entry(
                        #[trigger] final(app).history@[i],
                        old(app).history@[i],
                    )
                &&& entry.version == resp.version
                &&& entry.writer@ == req.writer@
                &&& entry.next_writer@ == req.next_writer@
                &&& entry.updates@ == req.updates@
                &&& entry.proof == outcome->Ok_0.proof
                &&& entry.state == resp.state
                &&& same_object(final(app).current_state, Some(plan.new_state))
                &&& same_people(final(app).participants@, old(app).participants@)
                &&& final(app).mock == old(app).mock
            },
            Err(e) => {
                &&& unchanged(*final(app), *old(app))
                &&& match outcome {
                    Ok(_) => e.status == StatusCode::BadRequest && e.message@
                        == "the object has changed since the write was planned"@,
                    Err(message) => e.status == StatusCode::InternalServerError && e.message@
                        == message@,
                }
            },
        },
{
    assert(plan@.new_state.dict == plan.new_state.dict@);
    if let Some(state) = old(app).current_state {
        assert(old(app)@.current == Some(state@));
    }
    assert(final(app)@.mock == final(app).mock && old(app)@.mock == old(app).mock);
    match r {
        Ok(_) => {
            let n = old(app).history@.len() as int;
            assert(old(app)@.history.len() == n);
            assert(final(app)@.history.len() == final(app).history@.len());
            lemma_entry(*final(app), n);
            assert forall|i: int| 0 <= i < n implies same_entry(
                #[trigger] final(app).history@[i],
                old(app).history@[i],
            ) by {
                lemma_entry(*final(app), i);
                lemma_entry(*old(app), i);
            }
            lemma_people(*final(app), *old(app));
            assert(final(app)@.current == Some(plan.new_state@));
        },
        Err(e) => {
            lemma_unchanged(*final(app), *old(app));
            assert(e@.status == e.status);
        },
    }
}

/// The status tells whether there is an object, its version and state, who may write, how many
/// writes were recorded, and the names of everyone who is registered, nobody else and nobody twice.
pub proof fn law_status(
    app: AppState,
    texts: Option<&StringMap<String>>,
    resp: StatusResp,
    version: Option<i64>,
)
    requires
        call_ensures(handle_status, (&app, texts), resp),
        app.current_state is Some ==> call_ensures(
            SignedDict::version,
            (&app.current_state->0,),
            version,
        ),
    ensures
        resp.has_genesis <==> app.current_state is Some,
        app.current_state is Some ==> resp.current_version == version,
        app.current_state is None ==> resp.current_version is None,
        match resp.current_writer {
            Some(name) => may_write(app, name@),
            None => forall|other: Seq<char>| !#[trigger] holds_object(app, other),
        },
        resp.history_len == app.history@.len(),
        resp.current_state is Some <==> app.current_state is Some && texts is Some,
        resp.current_state is Some ==> shows(
            resp.current_state->0,
            app.current_state->0.dict@,
            texts->0@,
        ),
        forall|name: Seq<char>| #[trigger]
            app.participants@.contains_key(name) <==> exists|i: int|
                0 <= i < resp.participants@.len() && (#[trigger] resp.participants@[i])@ == name,
        forall|i: int, j: int|
            0 <= i < j < resp.participants@.len() ==> (#[trigger] resp.participants@[i])@ != (
            #[trigger] resp.participants@[j])@,
        resp.participants@.len() == app.participants@.dom().len(),
{
    match resp.current_writer {
        Some(name) => {
            lemma_may_write(app, name@);
        },
        None => {
            lemma_nobody(app);
        },
    }
    if let Some(state) = app.current_state {
        assert(app@.current == Some(state@));
    }
    assert(app@.history.len() == app.history@.len());
    assert forall|name: Seq<char>| #[trigger]
        app.participants@.contains_key(name) <==> exists|i: int|
            0 <= i < resp.participants@.len() && (#[trigger] resp.participants@[i])@ == name by {
        lemma_person(app, name);
        law_names_are_complete(resp.participants@, app@.participants, name);
    }
    law_names_are_complete(resp.participants@, app@.participants, Seq::empty());
    assert(app@.participants.dom() =~= app.participants@.dom());
}

/// The list of participants has everyone who is registered with their key, nobody else and nobody
/// twice, by name.
pub proof fn law_participants(app: AppState, list: Vec<ParticipantInfo>)
    requires
        call_ensures(handle_participants, (&app,), list),
    ensures
        forall|i: int|
            0 <= i < list@.len() ==> app.participants@.contains_key((#[trigger] list@[i]).name@)
                && list@[i].public_key@ == app.participants@[list@[i].name@].pk.text@,
        forall|name: Seq<char>| #[trigger]
            app.participants@.contains_key(name) ==> exists|i: int|
                0 <= i < list@.len() && (#[trigger] list@[i]).name@ == name,
        forall|i: int, j: int|
            0 <= i < j < list@.len() ==> text_less(
                (#[trigger] list@[i]).name@,
                (#[trigger] list@[j]).name@,
            ),
        list@.len() == app.participants@.dom().len(),
{
    let l = info_pairs(list@);
    let keys = app@.participants.map_values(|p: ParticipantView| p.pk);
    lemma_pairs_map(l);
    assert(pairs_map(l) == keys);
    assert(keys.dom() =~= app.participants@.dom());
    assert forall|i: int| 0 <= i < list@.len() implies app.participants@.contains_key(
        (#[trigger] list@[i]).name@,
    ) && list@[i].public_key@ == app.participants@[list@[i].name@].pk.text@ by {
        assert(l[i] == (list@[i].name@, list@[i].public_key@));
        assert(pairs_map(l).contains_key(l[i].0));
        lemma_person(app, list@[i].name@);
    }
    assert forall|name: Seq<char>| #[trigger]
        app.participants@.contains_key(name) implies exists|i: int|
        0 <= i < list@.len() && (#[trigger] list@[i]).name@ == name by {
        assert(pairs_map(l).contains_key(name));
        let i = choose|i: int| 0 <= i < l.len() && #[trigger] l[i].0 == name;
        assert(list@[i].name@ == name);
    }
    assert forall|i: int, j: int| 0 <= i < j < list@.len() implies text_less(
        (#[trigger] list@[i]).name@,
        (#[trigger] list@[j]).name@,
    ) by {
        assert(text_less(l[i].0, l[j].0));
    }
}

/// The history that is shown has every write that was recorded, in order and as it was recorded.
pub proof fn law_history(app: AppState, history: Vec<HistoryEntry>)
    requires
        call_ensures(handle_history, (&app,), history),
    ensures
        same_history(history@, app.history@),
{
    let shown = history@.map_values(|e: HistoryEntry| e@);
    assert(shown == app@.history);
    assert(shown.len() == history@.len());
    assert(app@.history.len() == app.history@.len());
    assert forall|i: int| 0 <= i < history@.len() implies same_entry(
        #[trigger] history@[i],
        app.history@[i],
    ) by {
        lemma_entry(app, i);
        assert(shown[i] == history@[i]@);
    }
}

/// A reset forgets the object, its history and everyone but Alice, Bob and Charlie, who get the given
/// key pairs. The prover stays. The answer says `ok`.
pub proof fn law_reset_forgets(
    app: &mut AppState,
    alice: Participant,
    bob: Participant,
    charlie: Participant,
    resp: serde_json::Value,
)
    requires
        call_ensures(handle_reset, (app, alice, bob, charlie), resp),
    ensures
        final(app).mock == old(app).mock,
        final(app).current_state is None,
        final(app).history@.len() == 0,
        forall|name: Seq<char>| #[trigger]
            final(app).participants@.contains_key(name) <==> name == "alice"@ || name == "bob"@
                || name == "charlie"@,
        same_person(final(app).participants@["alice"@], alice),
        same_person(final(app).participants@["bob"@], bob),
        same_person(final(app).participants@["charlie"@], charlie),
        json_of(resp) is Object,
        forall|k: Seq<char>| #[trigger]
            json_of(resp)->Object_0.contains_key(k) <==> k == "ok"@,
        json_of(resp)->Object_0["ok"@] == Json::Flag(true),
{
    law_reset(old(app).mock, alice@, bob@, charlie@);
    assert(final(app)@.mock == final(app).mock && old(app)@.mock == old(app).mock);
    assert(final(app)@.history.len() == final(app).history@.len());
    assert forall|name: Seq<char>| #[trigger]
        final(app).participants@.contains_key(name) <==> name == "alice"@ || name == "bob"@ || name
            == "charlie"@ by {
        lemma_person(*final(app), name);
    }
    lemma_person(*final(app), "alice"@);
    lemma_person(*final(app), "bob"@);
    lemma_person(*final(app), "charlie"@);
}

/// What is written is read back: right after a write the history ends with it, with its own proof and
/// the state as it was answered, and starts with what it was before; the status counts it.
pub proof fn law_write_is_read_back(
    app: &mut AppState,
    req: WriteReq,
    plan: WritePlan,
    proved: Proved,
    resp: WriteResp,
    history: Vec<HistoryEntry>,
    texts: Option<&StringMap<String>>,
    status: StatusResp,
    version: Option<i64>,
)
    requires
        call_ensures(handle_write_commit, (app, req, plan, Ok(proved)), Ok(resp)),
        call_ensures(handle_history, (&*final(app),), history),
        call_ensures(handle_status, (&*final(app), texts), status),
        final(app).current_state is Some ==> call_ensures(
            SignedDict::version,
            (&final(app).current_state->0,),
            version,
        ),
    ensures
        ({
            let n = old(app).history@.len() as int;
            &&& history@.len() == n + 1
            &&& same_history(history@.take(n), old(app).history@)
            &&& history@[n].version == resp.version
            &&& history@[n].writer@ == req.writer@
            &&& history@[n].next_writer@ == req.next_writer@
            &&& history@[n].updates@ == req.updates@
            &&& history@[n].proof == proved.proof
            &&& history@[n].state == resp.state
            &&& status.has_genesis
            &&& status.history_len == n + 1
            &&& plan.new_state.dict@.contains_key("version"@) && plan.new_state.dict@["version"@] is Int
                ==> status.current_version == Some(resp.version)
        }),
{
    law_write_commit(app, req, plan, Ok(proved), Ok(resp));
    law_history(*final(app), history);
    law_status(*final(app), texts, status, version);
    let n = old(app).history@.len() as int;
    assert(same_entry(history@[n], final(app).history@[n]));
    assert forall|i: int| 0 <= i < n implies same_entry(
        #[trigger] history@.take(n)[i],
        old(app).history@[i],
    ) by {
        assert(same_entry(history@[i], final(app).history@[i]));
    }
}

/// Whoever registers is in the list of participants with their key, and so is everyone who was.
pub proof fn law_registered_is_listed(
    app: &mut AppState,
    req: RegisterReq,
    p: Participant,
    shown_key: String,
    resp: RegisterResp,
    list: Vec<ParticipantInfo>,
    name: Seq<char>,
)
    requires
        call_ensures(handle_register, (app, req, p, shown_key), resp),
        call_ensures(handle_participants, (&*final(app),), list),
        name == req.name@ || old(app).participants@.contains_key(name),
    ensures
        exists|i: int|
            0 <= i < list@.len() && (#[trigger] list@[i]).name@ == name && list@[i].public_key@
                == if name == req.name@ {
                p.pk.text@
            } else {
                old(app).participants@[name].pk.text@
            },
{
    law_register(app, req, p, shown_key, resp);
    law_participants(*final(app), list);
    assert(final(app).participants@.contains_key(name));
    let i = choose|i: int| 0 <= i < list@.len() && (#[trigger] list@[i]).name@ == name;
    assert(list@[i].name@ == name);
}

/// Every request is answered, whatever it asks and whatever the server remembers: no operation
/// demands anything of its caller.
pub proof fn law_every_request_is_answered(
    app: AppState,
    changing: &mut AppState,
    register: RegisterReq,
    genesis: GenesisReq,
    write: WriteReq,
    p: Participant,
    q: Participant,
    s: Participant,
    pk: PublicKey,
    admin: PublicKey,
    state: SignedDict,
    fields: StringMap<i64>,
    texts: StringMap<String>,
    plan: WritePlan,
    signed: Result<StringMap<String>, String>,
    proved: Result<Proved, String>,
    name: String,
    args: Vec<String>,
    mock: bool,
)
    ensures
        call_requires(parse_args, (&args,)),
        call_requires(AppState::new, (mock,)),
        call_requires(seed_participants, (changing, p, q, s)),
        call_requires(current_writer_name, (&app,)),
        call_requires(handle_register, (changing, register, p, name)),
        call_requires(handle_genesis_check, (&app, &genesis)),
        call_requires(create_genesis, (&fields, &pk, &admin)),
        call_requires(handle_genesis_commit, (changing, state, signed, name)),
        call_requires(handle_write_check, (&app, &write)),
        call_requires(handle_write_plan, (&app, &p, &pk, &fields)),
        call_requires(write_step, (&state, &p, &pk, &fields, mock)),
        call_requires(handle_write_commit, (changing, write, plan, proved)),
        call_requires(state_to_json, (&state, &texts)),
        call_requires(handle_status, (&app, Some(&texts))),
        call_requires(handle_status, (&app, None)),
        call_requires(handle_participants, (&app,)),
        call_requires(handle_history, (&app,)),
        call_requires(handle_reset, (changing, p, q, s)),
{
}

} // verus!
