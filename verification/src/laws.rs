//! What holds of the object and of the server as a whole.
use vstd::prelude::*;
use crate::api::ParticipantInfo;
use crate::api::EntryView;
use crate::dict::{DictView, ValueView};
use crate::json::Json;
use crate::operation::{holds, OperationView, PlannedView};
use crate::pod::{
    applied, closing_ops, fields_known, first_unknown, genesis_view, ints, is_system_field,
    json_view, lemma_applied, lemma_field_names, lemma_user_fields, names_writer, opening_ops, plan_view,
    step_accepted, step_ops, step_refused, step_view, stepped, update_ops, user_fields, version_of,
    version_ready, ParticipantView, PlanView, SignedView, StepErrorView,
};
use crate::server::{
    continues, fresh, holds_baton, info_pairs, is_current_writer, lemma_current_writer_unique,
    lists_names, recorded_version, seeded, written, AppView,
};
use crate::string_map::{ascending, lemma_listing_unique, lemma_pairs_map, pairs_map};
use crate::text::{lemma_text_irreflexive, lemma_text_transitive};

verus! {

/// A state has a version, a holder and a place for what came before.
pub open spec fn valid_state(d: DictView) -> bool {
    &&& version_of(d) is Some
    &&& d.contains_key("writer_pk"@)
    &&& d["writer_pk"@] is PublicKey
    &&& d.contains_key("prev_hash"@)
}

/// The first state is valid, has version 0, is held by the first writer, and has the given fields
/// beside its system fields, whatever the fields are.
pub proof fn law_genesis(fields: Map<Seq<char>, i64>, first_writer: Seq<char>)
    ensures
        valid_state(genesis_view(fields, first_writer)),
        version_of(genesis_view(fields, first_writer)) == Some(0int),
        names_writer(genesis_view(fields, first_writer), first_writer),
        genesis_view(fields, first_writer)["prev_hash"@] == ValueView::Int(0),
        forall|k: Seq<char>| #[trigger]
            genesis_view(fields, first_writer).contains_key(k) <==> fields.contains_key(k)
                || is_system_field(k),
        forall|k: Seq<char>| #[trigger]
            fields.contains_key(k) && !is_system_field(k) ==> genesis_view(fields, first_writer)[k]
                == ValueView::Int(fields[k] as int),
{
    lemma_field_names();
}

/// A write increments the version by exactly one.
pub proof fn law_version_increments(
    prev: DictView,
    writer: Seq<char>,
    next: Seq<char>,
    updates: Map<Seq<char>, i64>,
)
    requires
        step_accepted(prev, writer, updates),
    ensures
        version_of(step_view(prev, next, updates)) == Some(version_of(prev)->0 + 1),
{
    lemma_field_names();
}

/// A write is recorded under the version that its plan leads to.
pub proof fn law_recorded_version(
    prev: SignedView,
    writer: ParticipantView,
    next: Seq<char>,
    updates: Map<Seq<char>, i64>,
    l: Seq<(Seq<char>, i64)>,
    mock: bool,
)
    requires
        step_accepted(prev.dict, writer.pk, updates),
    ensures
        recorded_version(plan_view(prev, writer, next, updates, l, mock).new_state) == plan_view(
            prev,
            writer,
            next,
            updates,
            l,
            mock,
        ).new_version,
{
    law_version_increments(prev.dict, writer.pk, next, updates);
}

/// The state after a write holds the state before it, so equal states have equal predecessors.
pub proof fn law_commits_to_previous(
    prev: DictView,
    next: Seq<char>,
    updates: Map<Seq<char>, i64>,
    other_prev: DictView,
    other_next: Seq<char>,
    other_updates: Map<Seq<char>, i64>,
)
    ensures
        step_view(prev, next, updates)["prev_hash"@] == ValueView::Dictionary(prev),
        step_view(prev, next, updates) == step_view(other_prev, other_next, other_updates) ==> prev
            == other_prev,
{
    assert(step_view(other_prev, other_next, other_updates)["prev_hash"@] == ValueView::Dictionary(
        other_prev,
    ));
}

/// After a write the state names the next holder's key as the writer's, whatever is updated.
pub proof fn law_hands_over(prev: DictView, next: Seq<char>, updates: Map<Seq<char>, i64>)
    ensures
        names_writer(step_view(prev, next, updates), next),
{
    lemma_field_names();
}

/// A write sets each updated field to its new value, save the system fields.
pub proof fn law_sets_updates(
    prev: DictView,
    next: Seq<char>,
    updates: Map<Seq<char>, i64>,
    k: Seq<char>,
)
    requires
        updates.contains_key(k),
        !is_system_field(k),
    ensures
        step_view(prev, next, updates).contains_key(k),
        step_view(prev, next, updates)[k] == ValueView::Int(updates[k] as int),
{
    assert(ints(updates).contains_key(k));
}

/// Updates of system fields have no effect.
pub proof fn law_system_updates_have_no_effect(
    prev: DictView,
    next: Seq<char>,
    updates: Map<Seq<char>, i64>,
)
    ensures
        step_view(prev, next, updates) == step_view(prev, next, user_updates(updates)),
{
    assert(step_view(prev, next, updates) =~= step_view(prev, next, user_updates(updates)));
}

/// The updates without those of system fields.
pub open spec fn user_updates(updates: Map<Seq<char>, i64>) -> Map<Seq<char>, i64> {
    updates.remove("version"@).remove("prev_hash"@).remove("writer_pk"@)
}

/// A write leaves every field that it does not update as it was, save the system fields.
pub proof fn law_keeps_other_fields(
    prev: DictView,
    next: Seq<char>,
    updates: Map<Seq<char>, i64>,
    k: Seq<char>,
)
    requires
        prev.contains_key(k),
        !updates.contains_key(k),
        !is_system_field(k),
    ensures
        step_view(prev, next, updates).contains_key(k),
        step_view(prev, next, updates)[k] == prev[k],
{
}

/// A write neither adds nor removes a field.
pub proof fn law_keeps_field_names(
    prev: DictView,
    writer: Seq<char>,
    next: Seq<char>,
    updates: Map<Seq<char>, i64>,
)
    requires
        step_accepted(prev, writer, updates),
    ensures
        step_view(prev, next, updates).dom() == prev.dom(),
{
    assert(step_view(prev, next, updates).dom() =~= prev.dom());
}

/// A write leads from a valid state to a valid state.
pub proof fn law_stays_valid(
    prev: DictView,
    writer: Seq<char>,
    next: Seq<char>,
    updates: Map<Seq<char>, i64>,
)
    requires
        valid_state(prev),
        step_accepted(prev, writer, updates),
    ensures
        valid_state(step_view(prev, next, updates)),
{
    law_version_increments(prev, writer, next, updates);
    law_hands_over(prev, next, updates);
}

/// On a valid state a write is refused only for a field that the state does not have, for a writer
/// whom the state does not name, or where there is no greater version.
pub proof fn law_valid_state_refusals(
    prev: DictView,
    writer: Seq<char>,
    updates: Map<Seq<char>, i64>,
    why: StepErrorView,
)
    requires
        valid_state(prev),
        step_refused(prev, writer, updates, why),
    ensures
        match why {
            StepErrorView::MissingField(k) => first_unknown(prev, updates, k),
            StepErrorView::WrongWriter => !names_writer(prev, writer),
            StepErrorView::VersionAtLimit => !version_ready(prev),
            _ => false,
        },
{
}

/// A write is accepted or refused, never both, and it is refused for one reason.
pub proof fn law_one_answer(
    prev: DictView,
    writer: Seq<char>,
    updates: Map<Seq<char>, i64>,
    why: StepErrorView,
    other: StepErrorView,
)
    requires
        step_refused(prev, writer, updates, why),
    ensures
        !step_accepted(prev, writer, updates),
        step_refused(prev, writer, updates, other) ==> why == other,
{
    if step_refused(prev, writer, updates, other) && why != other {
        if let (StepErrorView::MissingField(a), StepErrorView::MissingField(b)) = (why, other) {
            if first_unknown(prev, updates, a) && first_unknown(prev, updates, b) {
                assert(updates.contains_key(a) && updates.contains_key(b));
                lemma_text_transitive(a, b, a);
                lemma_text_irreflexive(a);
            }
        }
    }
}

/// The new state is signed by the key that the previous state names as the writer's.
pub proof fn law_signed_by_named_writer(
    prev: SignedView,
    writer: ParticipantView,
    next: Seq<char>,
    updates: Map<Seq<char>, i64>,
    l: Seq<(Seq<char>, i64)>,
    mock: bool,
)
    requires
        step_accepted(prev.dict, writer.pk, updates),
    ensures
        names_writer(prev.dict, plan_view(prev, writer, next, updates, l, mock).new_state.signer),
        plan_view(prev, writer, next, updates, l, mock).signing_key == writer.sk,
{
}

/// A plan for the mock prover and one for the real prover prove the same statements and lead to
/// the same state.
pub proof fn law_mock_plans_alike(
    prev: SignedView,
    writer: ParticipantView,
    next: Seq<char>,
    updates: Map<Seq<char>, i64>,
    l: Seq<(Seq<char>, i64)>,
)
    ensures
        plan_view(prev, writer, next, updates, l, true) == (PlanView {
            mock: true,
            ..plan_view(prev, writer, next, updates, l, false)
        }),
{
}

/// The prover is the one that the server runs with, whatever the state and whatever is written.
pub proof fn law_prover_is_the_servers(
    prev: SignedView,
    writer: ParticipantView,
    next: Seq<char>,
    updates: Map<Seq<char>, i64>,
    l: Seq<(Seq<char>, i64)>,
    mock: bool,
)
    ensures
        plan_view(prev, writer, next, updates, l, mock).mock == mock,
{
}

/// The order in which the fields are updated does not matter for what comes out.
pub proof fn law_update_order_irrelevant(
    base: DictView,
    l: Seq<(Seq<char>, i64)>,
    other: Seq<(Seq<char>, i64)>,
)
    requires
        pairs_map(l) == pairs_map(other),
    ensures
        applied(base, l) == applied(base, other),
{
    lemma_applied(base, l);
    lemma_applied(base, other);
}

/// The fields to update determine the plan: there is one listing of them in key order.
pub proof fn law_plan_is_determined(
    prev: SignedView,
    writer: ParticipantView,
    next: Seq<char>,
    updates: Map<Seq<char>, i64>,
    l: Seq<(Seq<char>, i64)>,
    other: Seq<(Seq<char>, i64)>,
    mock: bool,
)
    requires
        ascending(l),
        ascending(other),
        pairs_map(l) == updates,
        pairs_map(other) == updates,
    ensures
        plan_view(prev, writer, next, updates, l, mock) == plan_view(
            prev,
            writer,
            next,
            updates,
            other,
            mock,
        ),
{
    lemma_listing_unique(l, other);
}

proof fn lemma_update_ops_len(base: DictView, l: Seq<(Seq<char>, i64)>)
    ensures
        update_ops(base, l).len() == l.len(),
    decreases l.len(),
{
    if l.len() > 0 {
        lemma_update_ops_len(base, l.drop_last());
    }
}

/// The number of statements to prove grows with the number of updated user fields and with nothing
/// else.
pub proof fn law_proof_cost(
    prev: SignedView,
    writer_sk: u64,
    next: Seq<char>,
    l: Seq<(Seq<char>, i64)>,
)
    ensures
        step_ops(prev, writer_sk, next, l).len() == 8 + user_fields(l).len(),
        ascending(l) ==> step_ops(prev, writer_sk, next, l).len() == 8 + user_updates(
            pairs_map(l),
        ).dom().len(),
{
    let handed = prev.dict.remove("writer_pk"@).insert("writer_pk"@, ValueView::PublicKey(next));
    lemma_update_ops_len(handed, user_fields(l));
    if ascending(l) {
        lemma_user_fields(l);
        lemma_pairs_map(user_fields(l));
    }
}

proof fn lemma_update_ops_hold(
    base: DictView,
    l: Seq<(Seq<char>, i64)>,
    signed: spec_fn(DictView, Seq<char>) -> bool,
    key_of: spec_fn(u64) -> Seq<char>,
)
    requires
        forall|j: int| 0 <= j < l.len() ==> base.contains_key((#[trigger] l[j]).0),
    ensures
        applied(base, l).dom() == base.dom(),
        forall|i: int|
            0 <= i < update_ops(base, l).len() ==> holds(
                (#[trigger] update_ops(base, l)[i]).op,
                signed,
                key_of,
            ),
    decreases l.len(),
{
    if l.len() > 0 {
        let front = l.drop_last();
        assert forall|j: int| 0 <= j < front.len() implies base.contains_key(
            (#[trigger] front[j]).0,
        ) by {
            assert(front[j] == l[j]);
        }
        lemma_update_ops_hold(base, front, signed, key_of);
        assert(base.contains_key(l[l.len() - 1].0));
        assert(applied(base, l).dom() =~= base.dom());
        assert forall|i: int| 0 <= i < update_ops(base, l).len() implies holds(
            (#[trigger] update_ops(base, l)[i]).op,
            signed,
            key_of,
        ) by {
            if i < update_ops(base, l).len() - 1 {
                assert(update_ops(base, l)[i] == update_ops(base, front)[i]);
            }
        }
    }
}

/// Every statement of an accepted write is true, so it can be proved: given that the previous
/// state was signed as it says and that the writer's secret key belongs to the writer's public key.
pub proof fn law_statements_hold(
    prev: SignedView,
    writer: ParticipantView,
    next: Seq<char>,
    updates: Map<Seq<char>, i64>,
    l: Seq<(Seq<char>, i64)>,
    signed: spec_fn(DictView, Seq<char>) -> bool,
    key_of: spec_fn(u64) -> Seq<char>,
)
    requires
        step_accepted(prev.dict, writer.pk, updates),
        ascending(l),
        pairs_map(l) == updates,
        signed(prev.dict, prev.signer),
        key_of(writer.sk) == writer.pk,
    ensures
        forall|i: int|
            0 <= i < step_ops(prev, writer.sk, next, l).len() ==> holds(
                (#[trigger] step_ops(prev, writer.sk, next, l)[i]).op,
                signed,
                key_of,
            ),
{
    lemma_field_names();
    lemma_pairs_map(l);
    let handed = prev.dict.remove("writer_pk"@).insert("writer_pk"@, ValueView::PublicKey(next));
    assert(handed.dom() =~= prev.dict.dom());
    lemma_user_fields(l);
    let user = user_fields(l);
    assert forall|j: int| 0 <= j < user.len() implies handed.contains_key(
        (#[trigger] user[j]).0,
    ) by {
        assert(l.contains(user[j]));
        let i = choose|i: int| 0 <= i < l.len() && l[i] == user[j];
        assert(pairs_map(l).contains_key(l[i].0));
    }
    lemma_update_ops_hold(handed, user, signed, key_of);
    lemma_update_ops_len(handed, user);
    let ops = step_ops(prev, writer.sk, next, l);
    assert forall|i: int| 0 <= i < ops.len() implies holds(
        (#[trigger] ops[i]).op,
        signed,
        key_of,
    ) by {
        if 6 <= i < 6 + user.len() {
            assert(ops[i] == update_ops(handed, user)[i - 6]);
        }
    }
}

proof fn lemma_update_chain(chain: Seq<DictView>, l: Seq<(Seq<char>, i64)>)
    requires
        chain.len() == l.len() + 1,
        forall|i: int|
            0 <= i < l.len() ==> (#[trigger] chain[i]).contains_key(l[i].0) && chain[i + 1]
                == chain[i].insert(l[i].0, ValueView::Int(l[i].1 as int)),
    ensures
        chain.last() == applied(chain[0], l),
    decreases l.len(),
{
    if l.len() > 0 {
        let n = l.len() - 1;
        assert forall|i: int| 0 <= i < n implies (#[trigger] chain.drop_last()[i]).contains_key(
            l.drop_last()[i].0,
        ) && chain.drop_last()[i + 1] == chain.drop_last()[i].insert(
            l.drop_last()[i].0,
            ValueView::Int(l.drop_last()[i].1 as int),
        ) by {
            assert(chain[i] == chain.drop_last()[i]);
        }
        lemma_update_chain(chain.drop_last(), l.drop_last());
        assert(chain[n].contains_key(l[n].0));
    }
}

/// What a proof of a write shows: statements of that shape, about whatever dictionaries, that are
/// all true leave one state that the object can have gone to. The writer's key is the one that the
/// previous state names, the version is one more, the user fields are updated as stated and nothing
/// else, the next holder is named, and the state before is committed to.
#[verifier::spinoff_prover]
#[verifier::rlimit(30)]
pub proof fn law_statements_determine_state(
    prev: DictView,
    writer_sk: u64,
    next: Seq<char>,
    l: Seq<(Seq<char>, i64)>,
    sum: int,
    no_writer: DictView,
    chain: Seq<DictView>,
    with_values: DictView,
    new_state: DictView,
    signed: spec_fn(DictView, Seq<char>) -> bool,
    key_of: spec_fn(u64) -> Seq<char>,
)
    requires
        holds(
            OperationView::PublicKeyOf { dict: prev, key: "writer_pk"@, sk: writer_sk },
            signed,
            key_of,
        ),
        holds(
            OperationView::SumOf { sum, dict: prev, key: "version"@, addend: 1 },
            signed,
            key_of,
        ),
        holds(
            OperationView::DictDelete { after: no_writer, before: prev, key: "writer_pk"@ },
            signed,
            key_of,
        ),
        forall|i: int| 0 <= i < l.len() ==> !is_system_field((#[trigger] l[i]).0),
        chain.len() == l.len() + 1,
        holds(
            OperationView::DictInsert {
                after: chain[0],
                before: no_writer,
                key: "writer_pk"@,
                value: ValueView::PublicKey(next),
            },
            signed,
            key_of,
        ),
        forall|i: int|
            0 <= i < l.len() ==> holds(
                OperationView::DictUpdate {
                    after: chain[i + 1],
                    before: #[trigger] chain[i],
                    key: l[i].0,
                    value: ValueView::Int(l[i].1 as int),
                },
                signed,
                key_of,
            ),
        holds(
            OperationView::DictUpdate {
                after: with_values,
                before: chain.last(),
                key: "version"@,
                value: ValueView::Int(sum),
            },
            signed,
            key_of,
        ),
        holds(
            OperationView::DictUpdate {
                after: new_state,
                before: with_values,
                key: "prev_hash"@,
                value: ValueView::Dictionary(prev),
            },
            signed,
            key_of,
        ),
    ensures
        names_writer(prev, key_of(writer_sk)),
        version_of(prev) == Some(sum - 1),
        new_state == step_view(prev, next, pairs_map(l)),
{
    lemma_update_chain(chain, l);
    lemma_applied(chain[0], l);
    lemma_pairs_are_user_fields(l);
    assert(new_state =~= step_view(prev, next, pairs_map(l)));
}

proof fn lemma_pairs_are_user_fields(l: Seq<(Seq<char>, i64)>)
    requires
        forall|i: int| 0 <= i < l.len() ==> !is_system_field((#[trigger] l[i]).0),
    ensures
        forall|k: Seq<char>| #[trigger] pairs_map(l).contains_key(k) ==> !is_system_field(k),
    decreases l.len(),
{
    if l.len() > 0 {
        let front = l.drop_last();
        assert forall|i: int| 0 <= i < front.len() implies !is_system_field(
            (#[trigger] front[i]).0,
        ) by {
            assert(front[i] == l[i]);
        }
        lemma_pairs_are_user_fields(front);
        assert(!is_system_field(l[l.len() - 1].0));
        assert forall|k: Seq<char>| #[trigger] pairs_map(l).contains_key(k) implies !is_system_field(
            k,
        ) by {
            if k != l.last().0 {
                assert(pairs_map(front).contains_key(k));
            }
        }
    }
}

/// A proof of a write shows what it is about: that the state before was signed as it says, that the
/// version of the new state is one more than the version of this state before, that its holder was
/// taken out of it, and that the new state commits to it. It also proves, without showing it, that the
/// writer's secret key belongs to the key that the state before names.
#[verifier::spinoff_prover]
pub proof fn law_statements_are_about_the_write(
    prev: SignedView,
    writer: ParticipantView,
    next: Seq<char>,
    updates: Map<Seq<char>, i64>,
    l: Seq<(Seq<char>, i64)>,
)
    requires
        step_accepted(prev.dict, writer.pk, updates),
        ascending(l),
        pairs_map(l) == updates,
    ensures
        ({
            let ops = step_ops(prev, writer.sk, next, l);
            let new_state = step_view(prev.dict, next, updates);
            &&& ops.contains(
                PlannedView {
                    public: true,
                    op: OperationView::DictSignedBy { dict: prev.dict, signer: prev.signer },
                },
            )
            &&& ops.contains(
                PlannedView {
                    public: true,
                    op: OperationView::SumOf {
                        sum: version_of(new_state)->0,
                        dict: prev.dict,
                        key: "version"@,
                        addend: 1,
                    },
                },
            )
            &&& ops.contains(
                PlannedView {
                    public: true,
                    op: OperationView::DictDelete {
                        after: prev.dict.remove("writer_pk"@),
                        before: prev.dict,
                        key: "writer_pk"@,
                    },
                },
            )
            &&& ops.contains(
                PlannedView {
                    public: false,
                    op: OperationView::PublicKeyOf {
                        dict: prev.dict,
                        key: "writer_pk"@,
                        sk: writer.sk,
                    },
                },
            )
            &&& ops.last().public
            &&& ops.last().op is DictUpdate
            &&& ops.last().op->DictUpdate_after == new_state
            &&& ops.last().op->DictUpdate_key == "prev_hash"@
            &&& ops.last().op->DictUpdate_value == ValueView::Dictionary(prev.dict)
        }),
{
    let ops = step_ops(prev, writer.sk, next, l);
    let opening = opening_ops(prev, writer.sk, next);
    law_version_increments(prev.dict, writer.pk, next, updates);
    lemma_last_statement(prev, writer.sk, next, l);
    assert(ops[0] == opening[0]);
    assert(ops[2] == opening[2]);
    assert(ops[3] == opening[3]);
    assert(ops[4] == opening[4]);
}

proof fn lemma_last_statement(
    prev: SignedView,
    writer_sk: u64,
    next: Seq<char>,
    l: Seq<(Seq<char>, i64)>,
)
    requires
        ascending(l),
    ensures
        step_ops(prev, writer_sk, next, l).len() == 8 + user_fields(l).len(),
        step_ops(prev, writer_sk, next, l).last().public,
        step_ops(prev, writer_sk, next, l).last().op is DictUpdate,
        step_ops(prev, writer_sk, next, l).last().op->DictUpdate_after == step_view(
            prev.dict,
            next,
            pairs_map(l),
        ),
        step_ops(prev, writer_sk, next, l).last().op->DictUpdate_key == "prev_hash"@,
        step_ops(prev, writer_sk, next, l).last().op->DictUpdate_value == ValueView::Dictionary(
            prev.dict,
        ),
{
    lemma_field_names();
    let handed = prev.dict.remove("writer_pk"@).insert("writer_pk"@, ValueView::PublicKey(next));
    let ops = step_ops(prev, writer_sk, next, l);
    let closing = closing_ops(prev.dict, applied(handed, user_fields(l)));
    lemma_user_fields(l);
    lemma_applied(handed, user_fields(l));
    lemma_update_ops_len(handed, user_fields(l));
    assert(ops.last() == closing[1]);
    assert(closing[1].op->DictUpdate_after =~= step_view(prev.dict, next, pairs_map(l)));
}

/// Whatever is signed by whom and whichever keys belong together, where all the statements of a write
/// are true, the state before was signed as it says, it names the writer's key, it has a version and
/// every field to update, and the last statement leads to the state after the write, whose version is
/// one more.
#[verifier::spinoff_prover]
pub proof fn law_statements_force_the_write(
    prev: SignedView,
    writer_sk: u64,
    next: Seq<char>,
    l: Seq<(Seq<char>, i64)>,
    signed: spec_fn(DictView, Seq<char>) -> bool,
    key_of: spec_fn(u64) -> Seq<char>,
)
    requires
        ascending(l),
        forall|i: int|
            0 <= i < step_ops(prev, writer_sk, next, l).len() ==> holds(
                (#[trigger] step_ops(prev, writer_sk, next, l)[i]).op,
                signed,
                key_of,
            ),
    ensures
        signed(prev.dict, prev.signer),
        names_writer(prev.dict, key_of(writer_sk)),
        version_of(prev.dict) is Some,
        prev.dict.contains_key("prev_hash"@),
        fields_known(prev.dict, pairs_map(l)),
        ({
            let new_state = step_ops(prev, writer_sk, next, l).last().op->DictUpdate_after;
            &&& new_state == step_view(prev.dict, next, pairs_map(l))
            &&& version_of(new_state) == Some(version_of(prev.dict)->0 + 1)
        }),
{
    lemma_field_names();
    let handed = prev.dict.remove("writer_pk"@).insert("writer_pk"@, ValueView::PublicKey(next));
    let ops = step_ops(prev, writer_sk, next, l);
    let user = user_fields(l);
    let opening = opening_ops(prev, writer_sk, next);
    let closing = closing_ops(prev.dict, applied(handed, user));
    lemma_user_fields(l);
    lemma_applied(handed, user);
    lemma_update_ops_len(handed, user);
    assert(ops[0] == opening[0] && holds(ops[0].op, signed, key_of));
    assert(ops[1] == opening[1] && holds(ops[1].op, signed, key_of));
    assert(ops[2] == opening[2] && holds(ops[2].op, signed, key_of));
    assert(ops[4] == opening[4] && holds(ops[4].op, signed, key_of));
    assert(ops[ops.len() - 1] == closing[1] && holds(ops[ops.len() - 1].op, signed, key_of));
    assert forall|i: int| 0 <= i < update_ops(handed, user).len() implies holds(
        (#[trigger] update_ops(handed, user)[i]).op,
        signed,
        key_of,
    ) by {
        assert(ops[6 + i] == update_ops(handed, user)[i]);
        assert(holds(ops[6 + i].op, signed, key_of));
    }
    lemma_updates_known(handed, user, signed, key_of);
    assert(applied(handed, user).dom() =~= handed.dom());
    assert forall|k: Seq<char>| #[trigger]
        pairs_map(l).contains_key(k) && !is_system_field(k) implies prev.dict.contains_key(k) by {
        assert(pairs_map(user).contains_key(k));
        lemma_pairs_map(user);
        let i = choose|i: int| 0 <= i < user.len() && #[trigger] user[i].0 == k;
        assert(handed.contains_key(user[i].0));
    }
    lemma_last_statement(prev, writer_sk, next, l);
}

proof fn lemma_updates_known(
    base: DictView,
    l: Seq<(Seq<char>, i64)>,
    signed: spec_fn(DictView, Seq<char>) -> bool,
    key_of: spec_fn(u64) -> Seq<char>,
)
    requires
        forall|i: int|
            0 <= i < update_ops(base, l).len() ==> holds(
                (#[trigger] update_ops(base, l)[i]).op,
                signed,
                key_of,
            ),
    ensures
        applied(base, l).dom() == base.dom(),
        forall|i: int| 0 <= i < l.len() ==> base.contains_key((#[trigger] l[i]).0),
    decreases l.len(),
{
    if l.len() > 0 {
        let front = l.drop_last();
        let ops = update_ops(base, l);
        assert forall|i: int| 0 <= i < update_ops(base, front).len() implies holds(
            (#[trigger] update_ops(base, front)[i]).op,
            signed,
            key_of,
        ) by {
            assert(ops[i] == update_ops(base, front)[i]);
        }
        lemma_updates_known(base, front, signed, key_of);
        assert(holds(ops[ops.len() - 1].op, signed, key_of));
        assert(base.contains_key(l.last().0));
        assert(applied(base, l).dom() =~= base.dom());
        assert forall|i: int| 0 <= i < l.len() implies base.contains_key((#[trigger] l[i]).0) by {
            if i < front.len() {
                assert(front[i] == l[i]);
            }
        }
    }
}

/// `next` comes out of `prev` by one write.
pub open spec fn is_step(prev: DictView, next: DictView) -> bool {
    exists|writer: Seq<char>, holder: Seq<char>, updates: Map<Seq<char>, i64>|
        #[trigger] step_accepted(prev, writer, updates) && next == #[trigger] step_view(
            prev,
            holder,
            updates,
        )
}

/// The states of an object from its genesis on.
pub open spec fn is_life(states: Seq<DictView>) -> bool {
    &&& states.len() > 0
    &&& exists|fields: Map<Seq<char>, i64>, first: Seq<char>|
        states[0] == #[trigger] genesis_view(fields, first)
    &&& forall|i: int| 0 < i < states.len() ==> is_step(states[i - 1], #[trigger] states[i])
}

proof fn lemma_links(states: Seq<DictView>)
    requires
        is_life(states),
    ensures
        states[0]["prev_hash"@] == ValueView::Int(0),
        forall|i: int|
            0 < i < states.len() ==> (#[trigger] states[i])["prev_hash"@] == ValueView::Dictionary(
                states[i - 1],
            ),
{
    lemma_field_names();
    assert forall|i: int| 0 < i < states.len() implies (#[trigger] states[i])["prev_hash"@]
        == ValueView::Dictionary(states[i - 1]) by {
        assert(is_step(states[i - 1], states[i]));
    }
}

/// The last state determines the whole life of the object: two lives that end in the same state
/// are the same, state by state.
pub proof fn law_history_immutable(a: Seq<DictView>, b: Seq<DictView>)
    requires
        is_life(a),
        is_life(b),
        a.last() == b.last(),
    ensures
        a == b,
    decreases a.len(),
{
    lemma_links(a);
    lemma_links(b);
    if a.len() == 1 {
        assert(b.len() == 1) by {
            if b.len() > 1 {
                assert(b[b.len() - 1]["prev_hash"@] == ValueView::Dictionary(b[b.len() - 2]));
            }
        }
        assert(a =~= b);
    } else {
        assert(a[a.len() - 1]["prev_hash"@] == ValueView::Dictionary(a[a.len() - 2]));
        if b.len() > 1 {
            assert(b[b.len() - 1]["prev_hash"@] == ValueView::Dictionary(b[b.len() - 2]));
            let fa = a.drop_last();
            let fb = b.drop_last();
            assert(forall|i: int| 0 <= i < fa.len() ==> #[trigger] fa[i] == a[i]);
            assert(forall|i: int| 0 <= i < fb.len() ==> #[trigger] fb[i] == b[i]);
            assert(is_life(fa)) by {
                assert forall|i: int| 0 < i < fa.len() implies is_step(fa[i - 1], #[trigger] fa[i]) by {
                    assert(is_step(a[i - 1], a[i]));
                }
            }
            assert(is_life(fb)) by {
                assert forall|i: int| 0 < i < fb.len() implies is_step(fb[i - 1], #[trigger] fb[i]) by {
                    assert(is_step(b[i - 1], b[i]));
                }
            }
            law_history_immutable(fa, fb);
            assert(a =~= fa.push(a.last()));
            assert(b =~= fb.push(b.last()));
        }
    }
}

/// The versions count the writes, and the fields of the object stay those of its genesis.
pub proof fn law_versions_count_writes(states: Seq<DictView>, i: int)
    requires
        is_life(states),
        0 <= i < states.len(),
    ensures
        version_of(states[i]) == Some(i),
        states[i].dom() == states[0].dom(),
    decreases i,
{
    lemma_field_names();
    if i > 0 {
        law_versions_count_writes(states, i - 1);
        assert(is_step(states[i - 1], states[i]));
        let (writer, holder, updates) = choose|
            writer: Seq<char>,
            holder: Seq<char>,
            updates: Map<Seq<char>, i64>,
        |
            #[trigger] step_accepted(states[i - 1], writer, updates) && states[i]
                == #[trigger] step_view(states[i - 1], holder, updates);
        law_version_increments(states[i - 1], writer, holder, updates);
        law_keeps_field_names(states[i - 1], writer, holder, updates);
    }
}

/// No two participants have the same public key.
pub open spec fn keys_distinct(participants: Map<Seq<char>, ParticipantView>) -> bool {
    forall|a: Seq<char>, b: Seq<char>| #[trigger]
        participants.contains_key(a) && #[trigger] participants.contains_key(b)
            && participants[a].pk == participants[b].pk ==> a == b
}

/// What can happen to the server.
pub ghost enum Event {
    /// `p` registers under `name`.
    Register { name: Seq<char>, p: ParticipantView },
    /// An object is made with the given fields and signed by `admin_pk`. `first_pk` holds it, under
    /// the name that it had when it was checked.
    Genesis {
        fields: Map<Seq<char>, i64>,
        first_name: Seq<char>,
        first_pk: Seq<char>,
        admin_pk: Seq<char>,
    },
    /// `writer` hands the object in the state `prev` to `next_pk`, under the names that they had when
    /// they were checked.
    Write {
        prev: SignedView,
        writer_name: Seq<char>,
        writer: ParticipantView,
        next_name: Seq<char>,
        next_pk: Seq<char>,
        updates: Map<Seq<char>, i64>,
        proof_json: serde_json::Value,
        state_json: serde_json::Value,
    },
    /// Everything is forgotten and the first participants get new keys.
    Reset { alice: ParticipantView, bob: ParticipantView, charlie: ParticipantView },
    /// A request is refused or fails, or only asks.
    Nothing,
}

/// Whether the event can happen: a genesis where there is no object, and a write that is accepted on
/// the state it was planned on, where that is the current state or there is no object.
pub open spec fn can_happen(app: AppView, e: Event) -> bool {
    match e {
        Event::Genesis { .. } => app.current is None,
        Event::Write { prev, writer, updates, .. } => {
            &&& step_accepted(prev.dict, writer.pk, updates)
            &&& app.current is Some ==> app.current->0.dict == prev.dict
        },
        _ => true,
    }
}

/// A write that was under way at a reset and is recorded where there is no object.
pub open spec fn late(app: AppView, e: Event) -> bool {
    e is Write && app.current is None
}

/// What the server remembers after the event.
pub open spec fn after(app: AppView, e: Event) -> AppView {
    match e {
        Event::Register { name, p } => AppView {
            participants: app.participants.insert(name, p),
            ..app
        },
        Event::Genesis { fields, first_pk, admin_pk, .. } => AppView {
            current: Some(SignedView { dict: genesis_view(fields, first_pk), signer: admin_pk }),
            ..app
        },
        Event::Write {
            prev,
            writer_name,
            writer,
            next_name,
            next_pk,
            updates,
            proof_json,
            state_json,
        } => {
            let new_state = stepped(prev, writer, next_pk, updates);
            written(
                app,
                new_state,
                EntryView {
                    version: recorded_version(new_state),
                    writer: writer_name,
                    next_writer: next_name,
                    updates,
                    proof: proof_json,
                    state: state_json,
                },
            )
        },
        Event::Reset { alice, bob, charlie } => AppView {
            participants: seeded(Map::empty(), alice, bob, charlie),
            ..fresh(app.mock)
        },
        Event::Nothing => app,
    }
}

/// The event that an object is made for `first_writer`, as they are registered in `app`.
pub open spec fn beginning(
    app: AppView,
    fields: Map<Seq<char>, i64>,
    first_writer: Seq<char>,
    admin_pk: Seq<char>,
) -> Event {
    Event::Genesis {
        fields,
        first_name: first_writer,
        first_pk: app.participants[first_writer].pk,
        admin_pk,
    }
}

/// What the server remembers once a genesis with `first_writer` is made.
pub open spec fn begun(
    app: AppView,
    fields: Map<Seq<char>, i64>,
    first_writer: Seq<char>,
    admin_pk: Seq<char>,
) -> AppView {
    after(app, beginning(app, fields, first_writer, admin_pk))
}

/// The event that `writer` hands the object to `next_writer`, as they are registered in `app`.
pub open spec fn handing_on(
    app: AppView,
    writer: Seq<char>,
    next_writer: Seq<char>,
    updates: Map<Seq<char>, i64>,
    proof_json: serde_json::Value,
    state_json: serde_json::Value,
) -> Event {
    Event::Write {
        prev: app.current->0,
        writer_name: writer,
        writer: app.participants[writer],
        next_name: next_writer,
        next_pk: app.participants[next_writer].pk,
        updates,
        proof_json,
        state_json,
    }
}

/// What the server remembers once `writer` has handed the object to `next_writer`.
pub open spec fn passed_on(
    app: AppView,
    writer: Seq<char>,
    next_writer: Seq<char>,
    updates: Map<Seq<char>, i64>,
    proof_json: serde_json::Value,
    state_json: serde_json::Value,
) -> AppView {
    after(app, handing_on(app, writer, next_writer, updates, proof_json, state_json))
}

/// The first writer holds the baton after the genesis, where no two participants share a key.
pub proof fn law_first_writer_holds_baton(
    app: AppView,
    fields: Map<Seq<char>, i64>,
    first_writer: Seq<char>,
    admin_pk: Seq<char>,
)
    requires
        app.participants.contains_key(first_writer),
        keys_distinct(app.participants),
    ensures
        is_current_writer(begun(app, fields, first_writer, admin_pk), Some(first_writer)),
{
    let after = begun(app, fields, first_writer, admin_pk);
    law_genesis(fields, app.participants[first_writer].pk);
    assert(holds_baton(after, first_writer));
    assert forall|other: Seq<char>| #[trigger] holds_baton(after, other) implies other
        == first_writer by {
        assert(app.participants.contains_key(other));
    }
}

/// The baton moves: after a write the next writer may write and nobody else, where no two
/// participants share a key.
pub proof fn law_baton_moves(
    app: AppView,
    writer: Seq<char>,
    next_writer: Seq<char>,
    updates: Map<Seq<char>, i64>,
    proof_json: serde_json::Value,
    state_json: serde_json::Value,
    other: Seq<char>,
)
    requires
        app.participants.contains_key(next_writer),
        keys_distinct(app.participants),
    ensures
        is_current_writer(
            passed_on(app, writer, next_writer, updates, proof_json, state_json),
            Some(next_writer),
        ),
        other != next_writer ==> !is_current_writer(
            passed_on(app, writer, next_writer, updates, proof_json, state_json),
            Some(other),
        ),
{
    let after = passed_on(app, writer, next_writer, updates, proof_json, state_json);
    law_hands_over(app.current->0.dict, app.participants[next_writer].pk, updates);
    assert(holds_baton(after, next_writer));
    assert forall|name: Seq<char>| #[trigger] holds_baton(after, name) implies name
        == next_writer by {
        assert(app.participants.contains_key(name));
    }
    if is_current_writer(after, Some(other)) {
        lemma_current_writer_unique(after, Some(other), Some(next_writer));
    }
}

/// Whoever may write on a valid state can: their write is accepted unless it updates a field that
/// the state does not have, or there is no greater version.
pub proof fn law_holder_can_write(app: AppView, writer: Seq<char>, updates: Map<Seq<char>, i64>)
    requires
        is_current_writer(app, Some(writer)),
        valid_state(app.current->0.dict),
    ensures
        step_accepted(app.current->0.dict, app.participants[writer].pk, updates) <==> version_ready(
            app.current->0.dict,
        ) && fields_known(app.current->0.dict, updates),
{
    assert(holds_baton(app, writer));
}

/// A holder who registers again with another key no longer holds the baton.
pub proof fn law_new_key_loses_baton(app: AppView, name: Seq<char>, p: ParticipantView)
    requires
        holds_baton(app, name),
        p.pk != app.participants[name].pk,
    ensures
        !holds_baton(AppView { participants: app.participants.insert(name, p), ..app }, name),
{
}

/// Seeding never changes a name that is taken, so seeding twice is seeding once.
pub proof fn law_seeding_is_idempotent(
    participants: Map<Seq<char>, ParticipantView>,
    alice: ParticipantView,
    bob: ParticipantView,
    charlie: ParticipantView,
    new_alice: ParticipantView,
    new_bob: ParticipantView,
    new_charlie: ParticipantView,
)
    ensures
        seeded(seeded(participants, alice, bob, charlie), new_alice, new_bob, new_charlie)
            == seeded(participants, alice, bob, charlie),
        forall|name: Seq<char>| #[trigger]
            participants.contains_key(name) ==> seeded(participants, alice, bob, charlie)[name]
                == participants[name] && seeded(participants, alice, bob, charlie).contains_key(
                name,
            ),
{
}

/// Right after a reset there is no object and no history, nobody may write, and exactly Alice, Bob
/// and Charlie are registered, with their new keys.
pub proof fn law_reset(
    mock: bool,
    alice: ParticipantView,
    bob: ParticipantView,
    charlie: ParticipantView,
)
    ensures
        ({
            let app = AppView {
                participants: seeded(Map::empty(), alice, bob, charlie),
                ..fresh(mock)
            };
            &&& app.mock == mock
            &&& app.current is None
            &&& app.history.len() == 0
            &&& is_current_writer(app, None)
            &&& forall|name: Seq<char>| #[trigger]
                app.participants.contains_key(name) <==> name == "alice"@ || name == "bob"@ || name
                    == "charlie"@
            &&& app.participants["alice"@] == alice
            &&& app.participants["bob"@] == bob
            &&& app.participants["charlie"@] == charlie
        }),
{
    reveal_strlit("alice");
    reveal_strlit("bob");
    reveal_strlit("charlie");
    assert("alice"@.len() == 5);
    assert("bob"@.len() == 3);
    assert("charlie"@.len() == 7);
}

/// A list of the names has everyone who is registered, nobody else and nobody twice.
pub proof fn law_names_are_complete(
    names: Seq<String>,
    participants: Map<Seq<char>, ParticipantView>,
    name: Seq<char>,
)
    requires
        lists_names(names, participants),
    ensures
        participants.contains_key(name) <==> exists|i: int|
            0 <= i < names.len() && (#[trigger] names[i])@ == name,
        forall|i: int, j: int|
            0 <= i < j < names.len() ==> (#[trigger] names[i])@ != (#[trigger] names[j])@,
        names.len() == participants.dom().len(),
{
    assert forall|i: int, j: int| 0 <= i < j < names.len() implies (#[trigger] names[i])@ != (
    #[trigger] names[j])@ by {
        lemma_text_irreflexive(names[i]@);
    }
    let texts = names.map_values(|s: String| s@);
    assert(texts.no_duplicates()) by {
        assert forall|i: int, j: int|
            0 <= i < texts.len() && 0 <= j < texts.len() && i != j implies texts[i] != texts[j] by {
            if i < j {
                assert(names[i]@ != names[j]@);
            } else {
                assert(names[j]@ != names[i]@);
            }
        }
    }
    texts.unique_seq_to_set();
    assert(texts.to_set() =~= participants.dom()) by {
        assert forall|k: Seq<char>| texts.to_set().contains(k) <==> participants.dom().contains(
            k,
        ) by {
            if participants.contains_key(k) {
                let i = choose|i: int| 0 <= i < names.len() && (#[trigger] names[i])@ == k;
                assert(texts[i] == k);
            }
            if texts.contains(k) {
                let i = choose|i: int| 0 <= i < texts.len() && texts[i] == k;
                assert(names[i]@ == k);
            }
        }
    }
}

/// The registry determines the list of participants: two lists of the same registry by name show
/// the same names and keys in the same order.
pub proof fn law_participant_list_is_determined(
    a: Seq<ParticipantInfo>,
    b: Seq<ParticipantInfo>,
)
    requires
        ascending(info_pairs(a)),
        ascending(info_pairs(b)),
        pairs_map(info_pairs(a)) == pairs_map(info_pairs(b)),
    ensures
        info_pairs(a) == info_pairs(b),
{
    lemma_listing_unique(info_pairs(a), info_pairs(b));
}

/// Every key of a state whose entries can all be read is a member of its JSON, and nothing else is;
/// the integers are numbers there, and everything else is its text.
pub proof fn law_json_is_complete(state: DictView, texts: Map<Seq<char>, String>)
    requires
        state.dom().subset_of(texts.dom()),
    ensures
        json_view(state, texts).dom() == state.dom(),
        forall|k: Seq<char>| #[trigger]
            state.contains_key(k) && state[k] is Int ==> json_view(state, texts)[k] == Json::Number(
                state[k]->Int_0,
            ),
        forall|k: Seq<char>| #[trigger]
            state.contains_key(k) && !(state[k] is Int) ==> json_view(state, texts)[k]
                == Json::Text(texts[k]@),
{
    assert(json_view(state, texts).dom() =~= state.dom());
}

/// A write that was checked and planned while the server remembered `base` is recorded on `app` if
/// and only if the object is still the one that was planned on or there is none, whatever happened in
/// between. What comes out then is the write on the state that was planned on.
pub proof fn law_write_is_served(
    base: AppView,
    app: AppView,
    writer: Seq<char>,
    next_writer: Seq<char>,
    updates: Map<Seq<char>, i64>,
    l: Seq<(Seq<char>, i64)>,
    proof_json: serde_json::Value,
    state_json: serde_json::Value,
)
    requires
        is_current_writer(base, Some(writer)),
        base.participants.contains_key(next_writer),
        step_accepted(base.current->0.dict, base.participants[writer].pk, updates),
    ensures
        ({
            let plan = plan_view(
                base.current->0,
                base.participants[writer],
                base.participants[next_writer].pk,
                updates,
                l,
                base.mock,
            );
            let entry = EntryView {
                version: recorded_version(plan.new_state),
                writer,
                next_writer,
                updates,
                proof: proof_json,
                state: state_json,
            };
            let e = handing_on(base, writer, next_writer, updates, proof_json, state_json);
            &&& continues(app.current, plan.new_state) <==> can_happen(app, e)
            &&& can_happen(app, e) <==> app.current is None || app.current->0.dict
                == base.current->0.dict
            &&& written(app, plan.new_state, entry) == after(app, e)
        }),
{
}

/// A genesis that was checked while the server remembered `base` is taken on `app` where there is no
/// object, whatever happened in between. What comes out then is the genesis.
pub proof fn law_genesis_is_served(
    base: AppView,
    app: AppView,
    fields: Map<Seq<char>, i64>,
    first_writer: Seq<char>,
    state: SignedView,
)
    requires
        base.participants.contains_key(first_writer),
        state.dict == genesis_view(fields, base.participants[first_writer].pk),
    ensures
        ({
            let e = beginning(base, fields, first_writer, state.signer);
            &&& can_happen(app, e) <==> app.current is None
            &&& (AppView { current: Some(state), ..app }) == after(app, e)
        }),
{
}

/// The object never forks: of two writes planned on the same state, once one is recorded, and until
/// a reset, the other is not.
pub proof fn law_no_fork(
    app: AppView,
    prev: SignedView,
    writer: ParticipantView,
    next: Seq<char>,
    updates: Map<Seq<char>, i64>,
    entry: EntryView,
    other_writer: ParticipantView,
    other_next: Seq<char>,
    other_updates: Map<Seq<char>, i64>,
)
    requires
        step_accepted(prev.dict, writer.pk, updates),
        step_accepted(prev.dict, other_writer.pk, other_updates),
    ensures
        !continues(
            written(app, stepped(prev, writer, next, updates), entry).current,
            stepped(prev, other_writer, other_next, other_updates),
        ),
{
    law_version_increments(prev.dict, writer.pk, next, updates);
}

/// The object can come to be in this state.
pub open spec fn lived(d: DictView) -> bool {
    exists|states: Seq<DictView>| #[trigger] is_life(states) && states.last() == d
}

/// The states that the object had up to this one, from its genesis on.
pub open spec fn life_of(d: DictView) -> Seq<DictView> {
    choose|states: Seq<DictView>| #[trigger] is_life(states) && states.last() == d
}

proof fn lemma_life_of(states: Seq<DictView>)
    requires
        is_life(states),
    ensures
        lived(states.last()),
        life_of(states.last()) == states,
{
    law_history_immutable(life_of(states.last()), states);
}

proof fn lemma_life_goes_on(
    prev: DictView,
    writer: Seq<char>,
    next: Seq<char>,
    updates: Map<Seq<char>, i64>,
)
    requires
        lived(prev),
        step_accepted(prev, writer, updates),
    ensures
        lived(step_view(prev, next, updates)),
        life_of(step_view(prev, next, updates)) == life_of(prev).push(
            step_view(prev, next, updates),
        ),
        life_of(prev).len() > 0,
        life_of(prev).last() == prev,
{
    let states = life_of(prev);
    let longer = states.push(step_view(prev, next, updates));
    assert(longer[0] == states[0]);
    assert forall|i: int| 0 < i < longer.len() implies is_step(
        longer[i - 1],
        #[trigger] longer[i],
    ) by {
        if i < states.len() {
            assert(is_step(states[i - 1], states[i]));
        } else {
            assert(step_accepted(prev, writer, updates));
            assert(longer[i] == step_view(prev, next, updates));
        }
    }
    assert(is_life(longer));
    lemma_life_of(longer);
}

/// The key that a state names as its holder.
pub open spec fn holder_key(d: DictView) -> Seq<char> {
    d["writer_pk"@]->PublicKey_0
}

/// The entry tells how `next` came out of `prev`: the holder of `prev` made the updates of the entry
/// and handed the object to the holder of `next`.
pub open spec fn tells(entry: EntryView, prev: DictView, next: DictView) -> bool {
    &&& step_accepted(prev, holder_key(prev), entry.updates)
    &&& next == step_view(prev, holder_key(next), entry.updates)
    &&& version_of(next) == Some(entry.version)
}

/// The place in the life of the object at which its history starts.
pub open spec fn start(app: AppView) -> int {
    life_of(app.current->0.dict).len() - 1 - app.history.len()
}

/// The history goes with the object: without one it is empty, and with one its entries tell, in
/// order, the last steps of the object's life.
pub open spec fn has_life(app: AppView) -> bool {
    match app.current {
        None => app.history.len() == 0,
        Some(state) => {
            &&& lived(state.dict)
            &&& start(app) >= 0
            &&& forall|i: int|
                0 <= i < app.history.len() ==> tells(
                    #[trigger] app.history[i],
                    life_of(state.dict)[start(app) + i],
                    life_of(state.dict)[start(app) + i + 1],
                )
        },
    }
}

/// The history is whole: without an object it is empty, and with one its entries count the versions
/// from 1 to that of the current state.
pub open spec fn history_matches(app: AppView) -> bool {
    match app.current {
        None => app.history.len() == 0,
        Some(state) => {
            &&& version_of(state.dict) == Some(app.history.len() as int)
            &&& forall|i: int|
                0 <= i < app.history.len() ==> (#[trigger] app.history[i]).version == i + 1
        },
    }
}

/// Whatever happens, the history goes on telling the last steps of the object's life.
pub proof fn law_history_tells_life(app: AppView, e: Event)
    requires
        has_life(app),
        can_happen(app, e),
        late(app, e) ==> lived(e->prev.dict),
    ensures
        has_life(after(app, e)),
        after(app, e).mock == app.mock,
{
    match e {
        Event::Genesis { fields, first_pk, .. } => {
            let states = seq![genesis_view(fields, first_pk)];
            assert(states[0] == genesis_view(fields, first_pk));
            assert(is_life(states));
            lemma_life_of(states);
        },
        Event::Write { prev, writer, next_pk, updates, .. } => {
            let next = after(app, e);
            let states = life_of(prev.dict);
            let longer = life_of(next.current->0.dict);
            lemma_life_goes_on(prev.dict, writer.pk, next_pk, updates);
            law_version_increments(prev.dict, writer.pk, next_pk, updates);
            law_hands_over(prev.dict, next_pk, updates);
            assert forall|i: int| 0 <= i < next.history.len() implies tells(
                #[trigger] next.history[i],
                longer[start(next) + i],
                longer[start(next) + i + 1],
            ) by {
                if i < app.history.len() {
                    assert(next.history[i] == app.history[i]);
                    assert(start(next) == start(app));
                    assert(longer[start(app) + i] == states[start(app) + i]);
                    assert(longer[start(app) + i + 1] == states[start(app) + i + 1]);
                }
            }
        },
        _ => {},
    }
}

/// Whatever happens, the history stays whole, unless a write is recorded where there is no object.
pub proof fn law_history_matches(app: AppView, e: Event)
    requires
        history_matches(app),
        can_happen(app, e),
        !late(app, e),
    ensures
        history_matches(after(app, e)),
{
    match e {
        Event::Genesis { fields, first_pk, .. } => {
            law_genesis(fields, first_pk);
        },
        Event::Write { prev, writer, next_pk, updates, .. } => {
            law_version_increments(prev.dict, writer.pk, next_pk, updates);
        },
        _ => {},
    }
}

/// A whole history tells the life of the object from its genesis on.
pub proof fn law_whole_history_starts_at_genesis(app: AppView)
    requires
        app.current is Some,
        has_life(app),
        history_matches(app),
    ensures
        start(app) == 0,
{
    let states = life_of(app.current->0.dict);
    law_versions_count_writes(states, states.len() - 1);
}

/// A write is recorded with its own version, hands, updates, proof and state, at the end of the
/// history, and the entries before it stay as they are. The new state is the current one.
pub proof fn law_write_is_recorded(
    app: AppView,
    prev: SignedView,
    writer_name: Seq<char>,
    writer: ParticipantView,
    next_name: Seq<char>,
    next_pk: Seq<char>,
    updates: Map<Seq<char>, i64>,
    proof_json: serde_json::Value,
    state_json: serde_json::Value,
)
    requires
        step_accepted(prev.dict, writer.pk, updates),
    ensures
        ({
            let e = Event::Write {
                prev,
                writer_name,
                writer,
                next_name,
                next_pk,
                updates,
                proof_json,
                state_json,
            };
            let next = after(app, e);
            let entry = next.history.last();
            &&& next.history.len() == app.history.len() + 1
            &&& next.history.drop_last() == app.history
            &&& entry.version == prev.dict["version"@]->Int_0 + 1
            &&& entry.writer == writer_name
            &&& entry.next_writer == next_name
            &&& entry.updates == updates
            &&& entry.proof == proof_json
            &&& entry.state == state_json
            &&& next.current is Some
            &&& next.current->0.dict["version"@] == ValueView::Int(entry.version)
            &&& next.current->0.dict["writer_pk"@] == ValueView::PublicKey(next_pk)
            &&& next.current->0.dict["prev_hash"@] == ValueView::Dictionary(prev.dict)
            &&& next.current->0.signer == writer.pk
            &&& next.participants == app.participants
            &&& next.mock == app.mock
        }),
{
    law_version_increments(prev.dict, writer.pk, next_pk, updates);
    law_hands_over(prev.dict, next_pk, updates);
    let e = Event::Write {
        prev,
        writer_name,
        writer,
        next_name,
        next_pk,
        updates,
        proof_json,
        state_json,
    };
    assert(after(app, e).history.drop_last() =~= app.history);
}

/// Until a reset the history only grows, by one entry at most and at its end.
pub proof fn law_history_only_appends(app: AppView, e: Event)
    requires
        !(e is Reset),
    ensures
        app.history.len() <= after(app, e).history.len() <= app.history.len() + 1,
        app.history.is_prefix_of(after(app, e).history),
{
}

/// Every key in the event is that of its name, where `owner` tells whose a key is.
pub open spec fn keys_owned(owner: spec_fn(Seq<char>) -> Seq<char>, e: Event) -> bool {
    match e {
        Event::Register { name, p } => owner(p.pk) == name,
        Event::Genesis { first_name, first_pk, .. } => owner(first_pk) == first_name,
        Event::Write { writer_name, writer, next_name, next_pk, .. } => owner(writer.pk)
            == writer_name && owner(next_pk) == next_name,
        Event::Reset { alice, bob, charlie } => owner(alice.pk) == "alice"@ && owner(bob.pk)
            == "bob"@ && owner(charlie.pk) == "charlie"@,
        Event::Nothing => true,
    }
}

/// Every registered key is that of its name, where `owner` tells whose a key is.
pub open spec fn registry_owned(
    owner: spec_fn(Seq<char>) -> Seq<char>,
    participants: Map<Seq<char>, ParticipantView>,
) -> bool {
    forall|name: Seq<char>| #[trigger]
        participants.contains_key(name) ==> owner(participants[name].pk) == name
}

/// The object went from hand to hand, `first` being the first: the first entry's writer is `first`,
/// each other entry's writer is the next writer of the entry before, and the current state names the
/// key of the last entry's next writer. Before the first write it names that of `first`.
pub open spec fn custody(
    owner: spec_fn(Seq<char>) -> Seq<char>,
    first: Seq<char>,
    app: AppView,
) -> bool {
    &&& app.history.len() > 0 ==> app.current is Some && app.history[0].writer == first
    &&& forall|i: int|
        0 < i < app.history.len() ==> (#[trigger] app.history[i]).writer == app.history[i
            - 1].next_writer
    &&& app.current is Some ==> {
        let pk = holder_key(app.current->0.dict);
        &&& names_writer(app.current->0.dict, pk)
        &&& owner(pk) == if app.history.len() == 0 {
            first
        } else {
            app.history.last().next_writer
        }
    }
}

/// The names in each entry are those of the keys in the states before and after it.
pub open spec fn names_told(owner: spec_fn(Seq<char>) -> Seq<char>, app: AppView) -> bool {
    app.current is Some ==> forall|i: int|
        0 <= i < app.history.len() ==> {
            let states = life_of(app.current->0.dict);
            &&& owner(holder_key(states[start(app) + i])) == (#[trigger] app.history[i]).writer
            &&& owner(holder_key(states[start(app) + i + 1])) == app.history[i].next_writer
        }
}

/// The first holder of the object as it is known after the event, where it was `first` before: a
/// genesis brings its first writer, and a write that was under way at a reset its writer.
pub open spec fn first_hand(first: Seq<char>, app: AppView, e: Event) -> Seq<char> {
    match e {
        Event::Genesis { first_name, .. } => first_name,
        Event::Write { writer_name, .. } => if app.current is None {
            writer_name
        } else {
            first
        },
        _ => first,
    }
}

/// The object goes from hand to hand, whatever happens, where no key is ever given to two names.
pub proof fn law_custody(
    owner: spec_fn(Seq<char>) -> Seq<char>,
    first: Seq<char>,
    app: AppView,
    e: Event,
)
    requires
        custody(owner, first, app),
        registry_owned(owner, app.participants),
        can_happen(app, e),
        keys_owned(owner, e),
    ensures
        custody(owner, first_hand(first, app, e), after(app, e)),
        registry_owned(owner, after(app, e).participants),
{
    match e {
        Event::Genesis { fields, first_pk, .. } => {
            law_genesis(fields, first_pk);
        },
        Event::Write { prev, writer, next_pk, updates, .. } => {
            law_hands_over(prev.dict, next_pk, updates);
            let next = after(app, e);
            assert(holder_key(prev.dict) == writer.pk);
            assert forall|i: int| 0 < i < next.history.len() implies (#[trigger] next.history[i]).writer
                == next.history[i - 1].next_writer by {
                if i < app.history.len() {
                    assert(next.history[i] == app.history[i]);
                }
                assert(next.history[i - 1] == app.history[i - 1]);
            }
        },
        Event::Reset { alice, bob, charlie } => {
            law_reset(app.mock, alice, bob, charlie);
        },
        _ => {},
    }
}

/// The names in the history go on being those of the keys in the states, whatever happens, where no
/// key is ever given to two names.
pub proof fn law_names_are_told(owner: spec_fn(Seq<char>) -> Seq<char>, app: AppView, e: Event)
    requires
        has_life(app),
        names_told(owner, app),
        can_happen(app, e),
        late(app, e) ==> lived(e->prev.dict),
        keys_owned(owner, e),
    ensures
        names_told(owner, after(app, e)),
{
    match e {
        Event::Write { prev, writer, next_pk, updates, .. } => {
            let next = after(app, e);
            let states = life_of(prev.dict);
            let longer = life_of(next.current->0.dict);
            lemma_life_goes_on(prev.dict, writer.pk, next_pk, updates);
            law_hands_over(prev.dict, next_pk, updates);
            assert(holder_key(prev.dict) == writer.pk);
            assert forall|i: int| 0 <= i < next.history.len() implies owner(
                holder_key(longer[start(next) + i]),
            ) == (#[trigger] next.history[i]).writer && owner(
                holder_key(longer[start(next) + i + 1]),
            ) == next.history[i].next_writer by {
                if i < app.history.len() {
                    assert(next.history[i] == app.history[i]);
                    assert(start(next) == start(app));
                    assert(longer[start(app) + i] == states[start(app) + i]);
                    assert(longer[start(app) + i + 1] == states[start(app) + i + 1]);
                }
            }
        },
        _ => {},
    }
}

/// A write that was checked against owned keys keeps every key with its name.
pub proof fn law_checked_keys_are_owned(
    owner: spec_fn(Seq<char>) -> Seq<char>,
    base: AppView,
    writer: Seq<char>,
    next_writer: Seq<char>,
    updates: Map<Seq<char>, i64>,
    proof_json: serde_json::Value,
    state_json: serde_json::Value,
)
    requires
        registry_owned(owner, base.participants),
        is_current_writer(base, Some(writer)),
        base.participants.contains_key(next_writer),
    ensures
        keys_owned(
            owner,
            handing_on(base, writer, next_writer, updates, proof_json, state_json),
        ),
{
    assert(holds_baton(base, writer));
}

/// A genesis that was checked against owned keys keeps the first key with its name.
pub proof fn law_checked_first_key_is_owned(
    owner: spec_fn(Seq<char>) -> Seq<char>,
    base: AppView,
    fields: Map<Seq<char>, i64>,
    first_writer: Seq<char>,
    admin_pk: Seq<char>,
)
    requires
        registry_owned(owner, base.participants),
        base.participants.contains_key(first_writer),
    ensures
        keys_owned(owner, beginning(base, fields, first_writer, admin_pk)),
{
}

/// What the server remembers after a run of events.
pub open spec fn run(app: AppView, events: Seq<Event>) -> AppView
    decreases events.len(),
{
    if events.len() == 0 {
        app
    } else {
        after(run(app, events.drop_last()), events.last())
    }
}

/// The first holder of the object as it is known after a run of events.
pub open spec fn first_holder(app: AppView, events: Seq<Event>) -> Seq<char>
    decreases events.len(),
{
    if events.len() == 0 {
        Seq::empty()
    } else {
        let front = events.drop_last();
        first_hand(first_holder(app, front), run(app, front), events.last())
    }
}

/// The object was in this state at some point of the run.
pub open spec fn was_current(app: AppView, events: Seq<Event>, d: DictView) -> bool {
    exists|j: int|
        0 <= j <= events.len() && (#[trigger] run(app, events.take(j))).current is Some && run(
            app,
            events.take(j),
        ).current->0.dict == d
}

/// Each event of the run can happen when its turn comes, and no write was planned on a state that
/// the object never had.
pub open spec fn can_run(app: AppView, events: Seq<Event>) -> bool {
    forall|n: int|
        0 <= n < events.len() ==> {
            let front = events.take(n);
            &&& can_happen(run(app, front), #[trigger] events[n])
            &&& late(run(app, front), events[n]) ==> was_current(app, front, events[n]->prev.dict)
        }
}

/// No write of the run was under way at a reset and recorded where there was no object.
pub open spec fn in_time(app: AppView, events: Seq<Event>) -> bool {
    forall|n: int| 0 <= n < events.len() ==> !late(run(app, events.take(n)), #[trigger] events[n])
}

/// Every key in the run is that of its name, where `owner` tells whose a key is.
pub open spec fn all_owned(owner: spec_fn(Seq<char>) -> Seq<char>, events: Seq<Event>) -> bool {
    forall|i: int| 0 <= i < events.len() ==> keys_owned(owner, #[trigger] events[i])
}

proof fn lemma_prefix(app: AppView, owner: spec_fn(Seq<char>) -> Seq<char>, events: Seq<Event>, j: int)
    requires
        0 <= j <= events.len(),
    ensures
        can_run(app, events) ==> can_run(app, events.take(j)),
        in_time(app, events) ==> in_time(app, events.take(j)),
        all_owned(owner, events) ==> all_owned(owner, events.take(j)),
        events.len() > 0 ==> events.drop_last() == events.take(events.len() - 1),
{
    let front = events.take(j);
    assert forall|n: int| 0 <= n < j implies front[n] == events[n] && #[trigger] front.take(n)
        == events.take(n) by {
        assert(front.take(n) =~= events.take(n));
    }
    if can_run(app, events) {
        assert forall|n: int| 0 <= n < front.len() implies ({
            let before = front.take(n);
            &&& can_happen(run(app, before), #[trigger] front[n])
            &&& late(run(app, before), front[n]) ==> was_current(app, before, front[n]->prev.dict)
        }) by {
            assert(front[n] == events[n] && front.take(n) == events.take(n));
        }
    }
    if in_time(app, events) {
        assert forall|n: int| 0 <= n < front.len() implies !late(
            run(app, front.take(n)),
            #[trigger] front[n],
        ) by {
            assert(front[n] == events[n] && front.take(n) == events.take(n));
        }
    }
    if events.len() > 0 {
        assert(events.drop_last() =~= events.take(events.len() - 1));
    }
}

/// After any run of a fresh server the history tells the last steps of the object's life, and where
/// no write came after a reset, all of it. Where no key is given to two names, the object went from
/// hand to hand, and the names in the history are those of the keys in the states.
pub proof fn law_every_run(
    mock: bool,
    owner: spec_fn(Seq<char>) -> Seq<char>,
    events: Seq<Event>,
)
    requires
        can_run(fresh(mock), events),
    ensures
        has_life(run(fresh(mock), events)),
        run(fresh(mock), events).mock == mock,
        in_time(fresh(mock), events) ==> history_matches(run(fresh(mock), events)),
        all_owned(owner, events) ==> {
            let app = run(fresh(mock), events);
            &&& custody(owner, first_holder(fresh(mock), events), app)
            &&& names_told(owner, app)
            &&& registry_owned(owner, app.participants)
        },
    decreases events.len(),
{
    if events.len() > 0 {
        let n: int = events.len() - 1;
        let front = events.drop_last();
        let app = run(fresh(mock), front);
        let e = events[n];
        lemma_prefix(fresh(mock), owner, events, n);
        law_every_run(mock, owner, front);
        if late(app, e) {
            assert(was_current(fresh(mock), front, e->prev.dict));
            let j = choose|j: int|
                0 <= j <= front.len() && (#[trigger] run(fresh(mock), front.take(j))).current is Some
                    && run(fresh(mock), front.take(j)).current->0.dict == e->prev.dict;
            lemma_prefix(fresh(mock), owner, front, j);
            law_every_run(mock, owner, front.take(j));
        }
        law_history_tells_life(app, e);
        if in_time(fresh(mock), events) {
            law_history_matches(app, e);
        }
        if all_owned(owner, events) {
            assert(keys_owned(owner, e));
            law_custody(owner, first_holder(fresh(mock), front), app, e);
            law_names_are_told(owner, app, e);
        }
    }
}

proof fn lemma_last_event(app: AppView, events: Seq<Event>)
    requires
        can_run(app, events),
        events.len() > 0,
    ensures
        can_run(app, events.drop_last()),
        can_happen(run(app, events.drop_last()), events.last()),
{
    lemma_prefix(app, |key: Seq<char>| key, events, events.len() - 1);
    assert(can_happen(run(app, events.take(events.len() - 1)), events[events.len() - 1]));
}

proof fn lemma_object_stays(first: Seq<char>, app: AppView, e: Event)
    requires
        app.current is Some,
        history_matches(app),
        can_happen(app, e),
        !(e is Reset),
    ensures
        after(app, e).current is Some,
        history_matches(after(app, e)),
        first_hand(first, app, e) == first,
{
    law_history_matches(app, e);
}

proof fn lemma_object_begins(mock: bool, events: Seq<Event>)
    requires
        can_run(fresh(mock), events),
        events.len() > 0,
        events.last() is Genesis,
    ensures
        run(fresh(mock), events).current is Some,
        history_matches(run(fresh(mock), events)),
        first_holder(fresh(mock), events) == events.last()->first_name,
{
    lemma_last_event(fresh(mock), events);
    law_every_run(mock, |key: Seq<char>| key, events.drop_last());
    law_history_matches(run(fresh(mock), events.drop_last()), events.last());
}

proof fn lemma_since_genesis(mock: bool, events: Seq<Event>, g: int)
    requires
        can_run(fresh(mock), events),
        0 <= g < events.len(),
        events[g] is Genesis,
        forall|n: int| g < n < events.len() ==> !(#[trigger] events[n] is Reset),
    ensures
        run(fresh(mock), events).current is Some,
        history_matches(run(fresh(mock), events)),
        first_holder(fresh(mock), events) == events[g]->first_name,
    decreases events.len(),
{
    if g == events.len() - 1 {
        lemma_object_begins(mock, events);
    } else {
        let front = events.drop_last();
        lemma_last_event(fresh(mock), events);
        lemma_since_genesis(mock, front, g);
        lemma_object_stays(
            first_holder(fresh(mock), front),
            run(fresh(mock), front),
            events.last(),
        );
    }
}

/// From a genesis on and until a reset, whatever else happens, the history is whole, and the object
/// goes from hand to hand where no key is given to two names: the first entry's writer is the first
/// writer of the genesis, and each other entry's writer is the next writer of the entry before.
pub proof fn law_since_genesis(
    mock: bool,
    owner: spec_fn(Seq<char>) -> Seq<char>,
    events: Seq<Event>,
    g: int,
)
    requires
        can_run(fresh(mock), events),
        0 <= g < events.len(),
        events[g] is Genesis,
        forall|n: int| g < n < events.len() ==> !(#[trigger] events[n] is Reset),
    ensures
        run(fresh(mock), events).current is Some,
        history_matches(run(fresh(mock), events)),
        start(run(fresh(mock), events)) == 0,
        all_owned(owner, events) ==> custody(
            owner,
            events[g]->first_name,
            run(fresh(mock), events),
        ),
{
    lemma_since_genesis(mock, events, g);
    law_every_run(mock, owner, events);
    law_whole_history_starts_at_genesis(run(fresh(mock), events));
}

/// Over any run without a reset the history only grows at its end: what was recorded stays.
pub proof fn law_run_only_appends(app: AppView, events: Seq<Event>)
    requires
        forall|i: int| 0 <= i < events.len() ==> !(#[trigger] events[i] is Reset),
    ensures
        app.history.is_prefix_of(run(app, events).history),
    decreases events.len(),
{
    if events.len() > 0 {
        let front = events.drop_last();
        assert forall|i: int| 0 <= i < front.len() implies !(#[trigger] front[i] is Reset) by {
            assert(front[i] == events[i]);
        }
        law_run_only_appends(app, front);
        assert(!(events[events.len() - 1] is Reset));
        law_history_only_appends(run(app, front), events.last());
    }
}

} // verus!
