//! What becomes of the object, told from what goes in and what comes out. Each law speaks of every
//! call: `call_ensures` says that the call gave this result.
use vstd::prelude::*;
use crate::api::{bad_req, internal_err, ApiError, HistoryEntry, StatusCode};
use crate::dict::{lemma_value_view, Dict, DictView, FieldValue, PublicKey, SecretKey, ValueView};
use crate::json::{json_of, Json};
use crate::operation::Operation;
use crate::operation::{hidden, OperationView};
use crate::pod::{
    applied, closing_ops, lemma_applied, lemma_field_names, lemma_user_fields, opening_ops, step_ops,
    step_view, update_ops, user_fields,
};
use crate::pod::{
    create_genesis, state_to_json, write_step, Participant, SignedDict, StepError, WritePlan,
};
use crate::string_map::StringMap;
use crate::string_map::{ascending, lemma_pairs_map, pairs_map};
use crate::text::text_less;

verus! {

/// A field that is none of those that the object manages itself.
pub open spec fn is_user_key(k: Seq<char>) -> bool {
    k != "version"@ && k != "prev_hash"@ && k != "writer_pk"@
}

/// The first state has the given fields and no others beside the system fields. It starts at version
/// 0 with nothing before it and names the first writer's key. The admin's key signs it.
pub proof fn law_genesis_state(
    fields: StringMap<i64>,
    first: PublicKey,
    admin: PublicKey,
    state: SignedDict,
)
    requires
        call_ensures(create_genesis, (&fields, &first, &admin), state),
    ensures
        state.dict@.contains_key("version"@) && state.dict@["version"@] == ValueView::Int(0),
        state.dict@.contains_key("prev_hash"@) && state.dict@["prev_hash"@] == ValueView::Int(0),
        state.dict@.contains_key("writer_pk"@) && state.dict@["writer_pk"@]
            == ValueView::PublicKey(first.text@),
        forall|k: Seq<char>|
            is_user_key(k) ==> (#[trigger] state.dict@.contains_key(k) <==> fields@.contains_key(
                k,
            )),
        forall|k: Seq<char>|
            is_user_key(k) && fields@.contains_key(k) ==> #[trigger] state.dict@[k]
                == ValueView::Int(fields@[k] as int),
        state.signer.text@ == admin.text@,
{
    lemma_field_names();
}

/// The version of a state is the integer that is found under `version`, and a state without one has
/// none.
pub proof fn law_version(
    state: SignedDict,
    v: Option<i64>,
    found: Option<&FieldValue>,
)
    requires
        call_ensures(SignedDict::version, (&state,), v),
        call_ensures(Dict::get, (&*state.dict, "version"), found),
    ensures
        match found {
            Some(FieldValue::Int(n)) => v == Some(*n),
            _ => v is None,
        },
{
    broadcast use lemma_value_view;

}

/// A participant has the key pair that it was made of, and so has a copy.
pub proof fn law_participant(
    sk: SecretKey,
    pk: PublicKey,
    p: Participant,
    copied: Participant,
)
    requires
        call_ensures(Participant::new, (sk, pk), p),
        call_ensures(Participant::copy, (&p,), copied),
    ensures
        p.sk == sk && p.pk.text@ == pk.text@,
        copied.sk == sk && copied.pk.text@ == pk.text@,
{
}

/// A write is made if and only if the state names the writer's key, has a version that can be
/// incremented and a place for the state before, and has every field to update.
pub proof fn law_write_accepted(
    prev: SignedDict,
    writer: Participant,
    next: PublicKey,
    updates: StringMap<i64>,
    mock: bool,
    r: Result<WritePlan, StepError>,
)
    requires
        call_ensures(write_step, (&prev, &writer, &next, &updates, mock), r),
    ensures
        r is Ok <==> {
            let d = prev.dict@;
            &&& d.contains_key("version"@) && d["version"@] is Int && d["version"@]->Int_0
                < i64::MAX
            &&& d.contains_key("writer_pk"@) && d["writer_pk"@] == ValueView::PublicKey(
                writer.pk.text@,
            )
            &&& d.contains_key("prev_hash"@)
            &&& forall|k: Seq<char>|
                is_user_key(k) && #[trigger] updates@.contains_key(k) ==> d.contains_key(k)
        },
{
}

/// A write that is not made is refused for the first thing that is wrong: the version, no holder, the
/// first field in order that is not there, another holder, no place for the state before.
pub proof fn law_write_refused(
    prev: SignedDict,
    writer: Participant,
    next: PublicKey,
    updates: StringMap<i64>,
    mock: bool,
    e: StepError,
)
    requires
        call_ensures(write_step, (&prev, &writer, &next, &updates, mock), Err(e)),
    ensures
        ({
            let d = prev.dict@;
            let has_version = d.contains_key("version"@);
            let counts = has_version && d["version"@] is Int;
            let ready = counts && d["version"@]->Int_0 < i64::MAX;
            let known = forall|k: Seq<char>|
                is_user_key(k) && #[trigger] updates@.contains_key(k) ==> d.contains_key(k);
            let held = d.contains_key("writer_pk"@);
            let holds = held && d["writer_pk"@] == ValueView::PublicKey(writer.pk.text@);
            match e {
                StepError::MissingVersion => !has_version,
                StepError::VersionNotInteger => has_version && !counts,
                StepError::VersionAtLimit => counts && !ready,
                StepError::MissingField(name) => ready && !d.contains_key(name@) && if !held {
                    name@ == "writer_pk"@
                } else if known {
                    holds && name@ == "prev_hash"@
                } else {
                    &&& is_user_key(name@) && updates@.contains_key(name@)
                    &&& forall|k: Seq<char>|
                        is_user_key(k) && #[trigger] updates@.contains_key(k) && !d.contains_key(k)
                            ==> k == name@ || text_less(name@, k)
                },
                StepError::WrongWriter => ready && held && known && !holds,
            }
        }),
{
}

/// What a refusal says.
pub proof fn law_refusal_texts(e: StepError, s: String)
    requires
        call_ensures(StepError::message, (&e,), s),
    ensures
        match e {
            StepError::MissingVersion => s@ == "missing version field"@,
            StepError::VersionNotInteger => s@ == "version is not an integer"@,
            StepError::VersionAtLimit => s@ == "version cannot be incremented"@,
            StepError::MissingField(name) => s@ == "key not found: "@ + name@,
            StepError::WrongWriter => s@ == "writer_pk is not the public key of the writer"@,
        },
{
}

/// The state after a write: the version is one more, the next holder is named, the state before is
/// committed to, each updated field has its new value, and every other field is as it was. No field
/// comes or goes.
pub proof fn law_write_leads_to(
    prev: SignedDict,
    writer: Participant,
    next: PublicKey,
    updates: StringMap<i64>,
    mock: bool,
    plan: WritePlan,
)
    requires
        call_ensures(write_step, (&prev, &writer, &next, &updates, mock), Ok(plan)),
    ensures
        ({
            let d = prev.dict@;
            let new = plan.new_state.dict@;
            &&& new["version"@] == ValueView::Int(d["version"@]->Int_0 + 1)
            &&& new["writer_pk"@] == ValueView::PublicKey(next.text@)
            &&& new["prev_hash"@] == ValueView::Dictionary(d)
            &&& forall|k: Seq<char>| #[trigger] new.contains_key(k) <==> d.contains_key(k)
            &&& forall|k: Seq<char>|
                is_user_key(k) && new.contains_key(k) ==> #[trigger] new[k]
                    == if updates@.contains_key(k) {
                    ValueView::Int(updates@[k] as int)
                } else {
                    d[k]
                }
        }),
{
    lemma_field_names();
    assert(plan@.new_state.dict == plan.new_state.dict@);
}

/// The rest of a plan: the version that is answered is that of the new state, the writer's key signs
/// it, and the prover is the one that was asked for, whatever the state.
pub proof fn law_write_plan(
    prev: SignedDict,
    writer: Participant,
    next: PublicKey,
    updates: StringMap<i64>,
    mock: bool,
    plan: WritePlan,
)
    requires
        call_ensures(write_step, (&prev, &writer, &next, &updates, mock), Ok(plan)),
    ensures
        plan.mock == mock,
        plan.signing_key == writer.sk,
        plan.new_state.signer.text@ == writer.pk.text@,
        prev.dict@["writer_pk"@] == ValueView::PublicKey(plan.new_state.signer.text@),
        plan.new_version == prev.dict@["version"@]->Int_0 + 1,
        plan.new_state.dict@["version"@] == ValueView::Int(plan.new_version as int),
{
    lemma_field_names();
    assert(plan@.new_state.dict == plan.new_state.dict@);
    assert(plan@.mock == plan.mock);
    assert(plan@.new_version == plan.new_version);
    assert(plan@.signing_key == plan.signing_key.slot);
}

/// The dictionary that a change starts from.
pub open spec fn from_dict(op: Operation) -> DictView {
    match op {
        Operation::DictDelete { before, .. } => before@,
        Operation::DictInsert { before, .. } => before@,
        Operation::DictUpdate { before, .. } => before@,
        _ => DictView::empty(),
    }
}

/// The dictionary that a change leads to.
pub open spec fn to_dict(op: Operation) -> DictView {
    match op {
        Operation::DictDelete { after, .. } => after@,
        Operation::DictInsert { after, .. } => after@,
        Operation::DictUpdate { after, .. } => after@,
        _ => DictView::empty(),
    }
}

/// The statement says that `key` was there and now holds `value`, and it is true.
pub open spec fn sets(op: Operation, key: Seq<char>, value: ValueView) -> bool {
    &&& op matches Operation::DictUpdate { after, before, key: k, value: v }
    &&& k@ == key
    &&& v@ == value
    &&& before@.contains_key(key)
    &&& after@ == before@.insert(key, value)
}

/// The statement sets one of the users' fields to what `updates` has for it.
pub open spec fn sets_user_field(op: Operation, updates: Map<Seq<char>, i64>) -> bool {
    exists|k: Seq<char>|
        is_user_key(k) && #[trigger] updates.contains_key(k) && sets(
            op,
            k,
            ValueView::Int(updates[k] as int),
        )
}

/// The key that an update is about.
pub open spec fn updated_key(op: Operation) -> Seq<char> {
    match op {
        Operation::DictUpdate { key, .. } => key@,
        _ => Seq::empty(),
    }
}

proof fn lemma_update_op(base: DictView, l: Seq<(Seq<char>, i64)>, i: int)
    requires
        0 <= i < l.len(),
    ensures
        update_ops(base, l).len() == l.len(),
        update_ops(base, l)[i] == hidden(
            OperationView::DictUpdate {
                after: applied(base, l.take(i + 1)),
                before: applied(base, l.take(i)),
                key: l[i].0,
                value: ValueView::Int(l[i].1 as int),
            },
        ),
        applied(base, l.take(i + 1)) == applied(base, l.take(i)).insert(
            l[i].0,
            ValueView::Int(l[i].1 as int),
        ),
    decreases l.len(),
{
    let front = l.drop_last();
    assert(l.take(i + 1).drop_last() =~= l.take(i));
    if i < front.len() {
        lemma_update_op(base, front, i);
        assert(front.take(i + 1) =~= l.take(i + 1));
        assert(front.take(i) =~= l.take(i));
    } else {
        assert(l.take(i + 1) =~= l);
        assert(front =~= l.take(i));
        if front.len() > 0 {
            lemma_update_op(base, front, 0);
        }
    }
}

proof fn lemma_applied_keeps(base: DictView, l: Seq<(Seq<char>, i64)>, k: Seq<char>)
    requires
        base.contains_key(k),
    ensures
        applied(base, l).contains_key(k),
    decreases l.len(),
{
    if l.len() > 0 {
        lemma_applied_keeps(base, l.drop_last(), k);
    }
}

/// What the plan says of its statements, one by one.
proof fn lemma_plan_ops(
    prev: SignedDict,
    writer: Participant,
    next: PublicKey,
    updates: StringMap<i64>,
    mock: bool,
    plan: WritePlan,
)
    requires
        call_ensures(write_step, (&prev, &writer, &next, &updates, mock), Ok(plan)),
    ensures
        ({
            let ops = plan.operations@;
            let user = user_fields(updates.listing());
            let handed = prev.dict@.remove("writer_pk"@).insert(
                "writer_pk"@,
                ValueView::PublicKey(next.text@),
            );
            let opening = opening_ops(prev@, writer.sk.slot, next.text@);
            let closing = closing_ops(prev.dict@, applied(handed, user));
            &&& ops.len() == 8 + user.len()
            &&& ops[0]@ == opening[0]
            &&& ops[1]@ == opening[1]
            &&& ops[2]@ == opening[2]
            &&& ops[3]@ == opening[3]
            &&& ops[4]@ == opening[4]
            &&& ops[5]@ == opening[5]
            &&& forall|i: int|
                6 <= i < 6 + user.len() ==> (#[trigger] ops[i])@ == update_ops(handed, user)[i - 6]
            &&& ops[ops.len() - 2]@ == closing[0]
            &&& ops[ops.len() - 1]@ == closing[1]
            &&& update_ops(handed, user).len() == user.len()
        }),
{
    let ops = plan.operations@;
    let user = user_fields(updates.listing());
    let handed = prev.dict@.remove("writer_pk"@).insert(
        "writer_pk"@,
        ValueView::PublicKey(next.text@),
    );
    let all = step_ops(prev@, writer.sk.slot, next.text@, updates.listing());
    assert(plan@.operations == all);
    if user.len() > 0 {
        lemma_update_op(handed, user, 0);
    }
    assert forall|i: int| 0 <= i < all.len() implies (#[trigger] ops[i])@ == all[i] by {
        assert(plan@.operations[i] == ops[i]@);
    }
}

/// The statements of a write, in order: the state before was signed as it says; its version; the
/// writer's secret key belongs to the key that it names; the next version is one more; then the
/// changes that lead from it to the new state.
pub proof fn law_write_statements(
    prev: SignedDict,
    writer: Participant,
    next: PublicKey,
    updates: StringMap<i64>,
    mock: bool,
    plan: WritePlan,
)
    requires
        call_ensures(write_step, (&prev, &writer, &next, &updates, mock), Ok(plan)),
    ensures
        ({
            let d = prev.dict@;
            let ops = plan.operations@;
            &&& ops.len() >= 8
            &&& ops[0].public
            &&& ops[0].op matches Operation::DictSignedBy { dict, signer } && dict@ == d
                && signer.text@ == prev.signer.text@
            &&& !ops[1].public
            &&& ops[1].op matches Operation::DictContains { dict, key, value } && dict@ == d && key@
                == "version"@ && value@ == d["version"@]
            &&& !ops[2].public
            &&& ops[2].op matches Operation::PublicKeyOf { dict, key, sk } && dict@ == d && key@
                == "writer_pk"@ && sk == writer.sk
            &&& ops[3].public
            &&& ops[3].op matches Operation::SumOf { sum, dict, key, addend } && sum
                == plan.new_version && dict@ == d && key@ == "version"@ && addend == 1
        }),
{
    lemma_plan_ops(prev, writer, next, updates, mock, plan);
    law_write_plan(prev, writer, next, updates, mock, plan);
    assert(plan.operations@[0]@.op == plan.operations@[0].op@);
    assert(plan.operations@[1]@.op == plan.operations@[1].op@);
    assert(plan.operations@[2]@.op == plan.operations@[2].op@);
    assert(plan.operations@[3]@.op == plan.operations@[3].op@);
}

/// The changes that a write proves lead step by step from the state before to the new state, each
/// true: the holder's key is taken out and the next holder's put in its place, each of the users'
/// fields to update is set once and in order, then the version, and last the commitment to the state
/// before.
pub proof fn law_write_changes(
    prev: SignedDict,
    writer: Participant,
    next: PublicKey,
    updates: StringMap<i64>,
    mock: bool,
    plan: WritePlan,
)
    requires
        call_ensures(write_step, (&prev, &writer, &next, &updates, mock), Ok(plan)),
    ensures
        ({
            let d = prev.dict@;
            let ops = plan.operations@;
            let n = ops.len() as int;
            &&& n >= 8
            &&& ops[4].public
            &&& ops[4].op matches Operation::DictDelete { after, before, key } && before@ == d
                && key@ == "writer_pk"@ && d.contains_key("writer_pk"@) && after@ == d.remove(
                "writer_pk"@,
            )
            &&& !ops[5].public
            &&& ops[5].op matches Operation::DictInsert { after, before, key, value } && key@
                == "writer_pk"@ && value@ == ValueView::PublicKey(next.text@)
                && !before@.contains_key("writer_pk"@) && after@ == before@.insert(
                "writer_pk"@,
                value@,
            )
            &&& forall|i: int|
                6 <= i < n - 2 ==> !(#[trigger] ops[i]).public && sets_user_field(
                    ops[i].op,
                    updates@,
                )
            &&& !ops[n - 2].public
            &&& sets(ops[n - 2].op, "version"@, ValueView::Int(plan.new_version as int))
            &&& ops[n - 1].public
            &&& sets(ops[n - 1].op, "prev_hash"@, ValueView::Dictionary(d))
            &&& forall|i: int|
                4 < i < n ==> from_dict((#[trigger] ops[i]).op) == to_dict(ops[i - 1].op)
            &&& to_dict(ops[n - 1].op) == plan.new_state.dict@
        }),
{
    lemma_plan_ops(prev, writer, next, updates, mock, plan);
    law_write_plan(prev, writer, next, updates, mock, plan);
    law_write_accepted(prev, writer, next, updates, mock, Ok(plan));
    lemma_field_names();
    let d = prev.dict@;
    let ops = plan.operations@;
    let n = ops.len() as int;
    let l = updates.listing();
    let user = user_fields(l);
    let handed = d.remove("writer_pk"@).insert("writer_pk"@, ValueView::PublicKey(next.text@));
    lemma_user_fields(l);
    lemma_pairs_map(l);
    assert(ops[4]@.op == ops[4].op@);
    assert(ops[5]@.op == ops[5].op@);
    assert(ops[n - 2]@.op == ops[n - 2].op@);
    assert(ops[n - 1]@.op == ops[n - 1].op@);
    assert(user.take(0) =~= Seq::empty());
    assert(user.take(user.len() as int) =~= user);
    lemma_applied_keeps(handed, user, "version"@);
    lemma_applied_keeps(handed, user, "prev_hash"@);
    assert forall|i: int| 6 <= i < n - 2 implies !(#[trigger] ops[i]).public && sets_user_field(
        ops[i].op,
        updates@,
    ) && from_dict(ops[i].op) == applied(handed, user.take(i - 6)) && to_dict(ops[i].op) == applied(
        handed,
        user.take(i - 5),
    ) by {
        lemma_update_op(handed, user, i - 6);
        assert(ops[i]@.op == ops[i].op@);
        let k = user[i - 6].0;
        assert(l.contains(user[i - 6]));
        let j = choose|j: int| 0 <= j < l.len() && l[j] == user[i - 6];
        assert(pairs_map(l).contains_key(l[j].0));
        assert(updates@.contains_key(k) && updates@[k] == user[i - 6].1);
        lemma_applied_keeps(handed, user.take(i - 6), k);
        assert(sets(ops[i].op, k, ValueView::Int(updates@[k] as int)));
    }
    assert(to_dict(ops[5].op) == handed);
    assert forall|i: int| 4 < i < n implies from_dict((#[trigger] ops[i]).op) == to_dict(
        ops[i - 1].op,
    ) by {
        if 6 <= i < n - 2 {
            if i > 6 {
                assert(to_dict(ops[i - 1].op) == applied(handed, user.take(i - 6)));
            }
        } else if i == n - 2 && i > 6 {
            assert(to_dict(ops[i - 1].op) == applied(handed, user.take(i - 6)));
        }
    }
    lemma_write_state(prev, writer, next, updates, mock, plan);
}

proof fn lemma_write_state(
    prev: SignedDict,
    writer: Participant,
    next: PublicKey,
    updates: StringMap<i64>,
    mock: bool,
    plan: WritePlan,
)
    requires
        call_ensures(write_step, (&prev, &writer, &next, &updates, mock), Ok(plan)),
    ensures
        closing_ops(
            prev.dict@,
            applied(
                prev.dict@.remove("writer_pk"@).insert(
                    "writer_pk"@,
                    ValueView::PublicKey(next.text@),
                ),
                user_fields(updates.listing()),
            ),
        )[1].op->DictUpdate_after == plan.new_state.dict@,
{
    let handed = prev.dict@.remove("writer_pk"@).insert(
        "writer_pk"@,
        ValueView::PublicKey(next.text@),
    );
    let l = updates.listing();
    lemma_user_fields(l);
    lemma_applied(handed, user_fields(l));
    law_write_accepted(prev, writer, next, updates, mock, Ok(plan));
    assert(plan@.new_state.dict == plan.new_state.dict@);
    assert(closing_ops(prev.dict@, applied(handed, user_fields(l)))[1].op->DictUpdate_after
        =~= step_view(prev.dict@, next.text@, updates@));
}

/// Each of the users' fields to update has its statement, none has two, and there are no others: a
/// proof grows with the number of these fields and with nothing else.
pub proof fn law_write_changes_every_field(
    prev: SignedDict,
    writer: Participant,
    next: PublicKey,
    updates: StringMap<i64>,
    mock: bool,
    plan: WritePlan,
)
    requires
        call_ensures(write_step, (&prev, &writer, &next, &updates, mock), Ok(plan)),
    ensures
        ({
            let ops = plan.operations@;
            let n = ops.len() as int;
            &&& n == 8 + updates@.dom().filter(|k: Seq<char>| is_user_key(k)).len()
            &&& forall|k: Seq<char>|
                is_user_key(k) && #[trigger] updates@.contains_key(k) ==> exists|i: int|
                    6 <= i < n - 2 && updated_key((#[trigger] ops[i]).op) == k
            &&& forall|i: int, j: int|
                6 <= i < j < n - 2 ==> text_less(
                    updated_key((#[trigger] ops[i]).op),
                    updated_key((#[trigger] ops[j]).op),
                )
        }),
{
    lemma_plan_ops(prev, writer, next, updates, mock, plan);
    let ops = plan.operations@;
    let n = ops.len() as int;
    let l = updates.listing();
    let user = user_fields(l);
    let handed = prev.dict@.remove("writer_pk"@).insert(
        "writer_pk"@,
        ValueView::PublicKey(next.text@),
    );
    lemma_user_fields(l);
    lemma_pairs_map(user);
    assert(pairs_map(user).dom() =~= updates@.dom().filter(|k: Seq<char>| is_user_key(k)));
    assert forall|i: int| 6 <= i < n - 2 implies updated_key((#[trigger] ops[i]).op) == user[i
        - 6].0 by {
        lemma_update_op(handed, user, i - 6);
        assert(ops[i]@.op == ops[i].op@);
    }
    assert forall|k: Seq<char>|
        is_user_key(k) && #[trigger] updates@.contains_key(k) implies exists|i: int|
        6 <= i < n - 2 && updated_key((#[trigger] ops[i]).op) == k by {
        assert(pairs_map(user).contains_key(k));
        let i = choose|i: int| 0 <= i < user.len() && #[trigger] user[i].0 == k;
        assert(updated_key(ops[i + 6].op) == k);
    }
    assert forall|i: int, j: int| 6 <= i < j < n - 2 implies text_less(
        updated_key((#[trigger] ops[i]).op),
        updated_key((#[trigger] ops[j]).op),
    ) by {
        assert(text_less(user[i - 6].0, user[j - 6].0));
    }
}

/// The JSON shows a state: it is an object with a member for each entry that has a text, and no
/// others. An integer is shown as its number, and everything else as its text.
pub open spec fn shows(
    json: serde_json::Value,
    state: DictView,
    texts: Map<Seq<char>, String>,
) -> bool {
    &&& json_of(json) is Object
    &&& forall|k: Seq<char>| #[trigger]
        json_of(json)->Object_0.contains_key(k) <==> state.contains_key(k) && texts.contains_key(k)
    &&& forall|k: Seq<char>| #[trigger]
        json_of(json)->Object_0.contains_key(k) ==> json_of(json)->Object_0[k] == if state[k] is Int {
            Json::Number(state[k]->Int_0)
        } else {
            Json::Text(texts[k]@)
        }
}

/// A state is shown as JSON entry by entry: the integers as numbers, everything else as its text.
pub proof fn law_state_json(
    state: SignedDict,
    texts: StringMap<String>,
    json: serde_json::Value,
)
    requires
        call_ensures(state_to_json, (&state, &texts), json),
    ensures
        shows(json, state.dict@, texts@),
{
}

/// The numbers of the status codes, and the codes and messages of the errors.
pub proof fn law_errors(
    code: StatusCode,
    n: u16,
    message: String,
    internal: ApiError,
    bad: ApiError,
)
    requires
        call_ensures(StatusCode::as_u16, (code,), n),
        call_ensures(internal_err, (message,), internal),
        call_ensures(bad_req, (message,), bad),
    ensures
        code == StatusCode::BadRequest <==> n == 400,
        code == StatusCode::Forbidden <==> n == 403,
        code == StatusCode::InternalServerError <==> n == 500,
        internal.status == StatusCode::InternalServerError && internal.message@ == message@,
        bad.status == StatusCode::BadRequest && bad.message@ == message@,
{
    assert(internal@.status == internal.status && bad@.status == bad.status);
}

/// Two entries of a history record the same write: version, hands, updates, proof and state.
pub open spec fn same_entry(a: HistoryEntry, b: HistoryEntry) -> bool {
    &&& a.version == b.version
    &&& a.writer@ == b.writer@
    &&& a.next_writer@ == b.next_writer@
    &&& a.updates@ == b.updates@
    &&& a.proof == b.proof
    &&& a.state == b.state
}

/// A copy of an entry records the same write.
pub proof fn law_entry_copy(e: HistoryEntry, copied: HistoryEntry)
    requires
        call_ensures(HistoryEntry::copy, (&e,), copied),
    ensures
        same_entry(e, copied),
{
    assert(e@.version == copied@.version);
}

} // verus!
