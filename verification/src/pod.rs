//! The object: how it comes into being and how a holder passes it on.
use std::sync::Arc;
use vstd::prelude::*;
use crate::dict::{share, Dict, PublicKey, SecretKey, FieldValue};
use crate::dict::{lemma_value_view, DictView, ValueView};
use crate::json::{json_insert, json_map, json_number, json_object, json_text};
use crate::json::{json_of, members_of, Json};
use crate::operation::{Operation, PlannedOp};
use crate::operation::{hidden, shown, OperationView, PlannedView};
use crate::string_map::StringMap;
use crate::string_map::{ascending, lemma_pairs_map, pairs_map};
use crate::text::{join, same};
use crate::text::text_less;

verus! {

/// Someone who can hold the object: a key pair.
#[derive(Debug)]
pub struct Participant {
    pub sk: SecretKey,
    pub pk: PublicKey,
}

/// A state of the object and the key that signed it.
#[derive(Debug)]
pub struct SignedDict {
    pub dict: Arc<Dict>,
    pub signer: PublicKey,
}

/// The meaning of a participant.
pub ghost struct ParticipantView {
    pub sk: u64,
    pub pk: Seq<char>,
}

/// The meaning of a signed state.
pub ghost struct SignedView {
    pub dict: DictView,
    pub signer: Seq<char>,
}

impl View for Participant {
    type V = ParticipantView;

    open spec fn view(&self) -> ParticipantView {
        ParticipantView { sk: self.sk.slot, pk: self.pk@ }
    }
}

impl View for SignedDict {
    type V = SignedView;

    open spec fn view(&self) -> SignedView {
        SignedView { dict: self.dict@, signer: self.signer@ }
    }
}

/// Integer fields as a dictionary.
pub open spec fn ints(fields: Map<Seq<char>, i64>) -> DictView {
    fields.map_values(|i: i64| ValueView::Int(i as int))
}

/// The first state: the given fields, and over them the system fields.
pub open spec fn genesis_view(fields: Map<Seq<char>, i64>, first_writer: Seq<char>) -> DictView {
    ints(fields)
        .insert("version"@, ValueView::Int(0))
        .insert("prev_hash"@, ValueView::Int(0))
        .insert("writer_pk"@, ValueView::PublicKey(first_writer))
}

/// The version of a state, where it has one.
pub open spec fn version_of(state: DictView) -> Option<int> {
    if state.contains_key("version"@) && state["version"@] is Int {
        Some(state["version"@]->Int_0)
    } else {
        None
    }
}

/// The fields that the object manages itself.
pub open spec fn is_system_field(k: Seq<char>) -> bool {
    k == "version"@ || k == "prev_hash"@ || k == "writer_pk"@
}

/// Whether the object manages the field itself.
fn is_system(k: &str) -> (r: bool)
    ensures
        r == is_system_field(k@),
{
    same(k, "version") || same(k, "prev_hash") || same(k, "writer_pk")
}

/// The system fields have different names.
pub proof fn lemma_field_names()
    ensures
        "version"@ != "prev_hash"@,
        "version"@ != "writer_pk"@,
        "prev_hash"@ != "writer_pk"@,
{
    reveal_strlit("version");
    reveal_strlit("prev_hash");
    reveal_strlit("writer_pk");
    assert("version"@.len() == 7);
    assert("prev_hash"@.len() == 9);
    assert("writer_pk"@[0] == 'w');
    assert("prev_hash"@[0] == 'p');
    assert("writer_pk"@.len() == 9);
}

impl Participant {
    /// The participant with the given key pair.
    pub fn new(sk: SecretKey, pk: PublicKey) -> (p: Participant)
        ensures
            p.sk == sk,
            p.pk == pk,
    {
        Participant { sk, pk }
    }

    /// The same participant once more.
    pub fn copy(&self) -> (p: Participant)
        ensures
            p == *self,
    {
        Participant { sk: self.sk, pk: self.pk.copy() }
    }
}

impl SignedDict {
    /// The version of the state, where it has one.
    pub fn version(&self) -> (v: Option<i64>)
        ensures
            match v {
                Some(n) => version_of(self@.dict) == Some(n as int),
                None => version_of(self@.dict) is None,
            },
    {
        match self.dict.get("version") {
            Some(v) => v.as_int(),
            None => None,
        }
    }
}

/// The first pairs of a listing, laid over a dictionary one by one.
pub open spec fn applied(base: DictView, l: Seq<(Seq<char>, i64)>) -> DictView
    decreases l.len(),
{
    if l.len() == 0 {
        base
    } else {
        applied(base, l.drop_last()).insert(l.last().0, ValueView::Int(l.last().1 as int))
    }
}

/// Pairs laid over a dictionary one by one give the dictionary overlaid with their map.
pub proof fn lemma_applied(base: DictView, l: Seq<(Seq<char>, i64)>)
    ensures
        applied(base, l) == base.union_prefer_right(ints(pairs_map(l))),
    decreases l.len(),
{
    if l.len() > 0 {
        lemma_applied(base, l.drop_last());
    }
    assert(applied(base, l) =~= base.union_prefer_right(ints(pairs_map(l))));
}

/// The first state of the object. `fields` are its integer values, `first_writer_pk` is who may
/// write first, and the key `admin_pk` signs it.
pub fn create_genesis(
    fields: &StringMap<i64>,
    first_writer_pk: &PublicKey,
    admin_pk: &PublicKey,
) -> (state: SignedDict)
    ensures
        state@.dict == genesis_view(fields@, first_writer_pk@),
        state@.signer == admin_pk@,
{
    broadcast use lemma_value_view;

    let mut dict = Dict::new();
    let n = fields.len();
    let mut i: usize = 0;
    let ghost l = fields.listing();
    while i < n
        invariant
            i <= n,
            n == l.len(),
            l == fields.listing(),
            dict@ == applied(DictView::empty(), l.take(i as int)),
        decreases n - i,
    {
        broadcast use lemma_value_view;

        let (k, v) = fields.entry(i);
        dict.put(k.as_str(), FieldValue::Int(*v));
        assert(l.take(i + 1).drop_last() =~= l.take(i as int));
        i = i + 1;
    }
    proof {
        assert(l.take(n as int) =~= l);
        lemma_applied(DictView::empty(), l);
        assert(dict@ =~= ints(fields@));
    }
    dict.put("version", FieldValue::Int(0));
    dict.put("prev_hash", FieldValue::Int(0));
    dict.put("writer_pk", FieldValue::PublicKey(first_writer_pk.copy()));
    SignedDict { dict: Arc::new(dict), signer: admin_pk.copy() }
}

/// Why a write cannot be made.
#[derive(Debug)]
pub enum StepError {
    /// The state has no version.
    MissingVersion,
    /// The version of the state is not an integer.
    VersionNotInteger,
    /// The version of the state is the greatest that there is.
    VersionAtLimit,
    /// The state has no field of this name.
    MissingField(String),
    /// The state names another key than that of the writer.
    WrongWriter,
}

/// The meaning of a refusal.
pub ghost enum StepErrorView {
    MissingVersion,
    VersionNotInteger,
    VersionAtLimit,
    MissingField(Seq<char>),
    WrongWriter,
}

impl View for StepError {
    type V = StepErrorView;

    open spec fn view(&self) -> StepErrorView {
        match *self {
            StepError::MissingVersion => StepErrorView::MissingVersion,
            StepError::VersionNotInteger => StepErrorView::VersionNotInteger,
            StepError::VersionAtLimit => StepErrorView::VersionAtLimit,
            StepError::MissingField(name) => StepErrorView::MissingField(name@),
            StepError::WrongWriter => StepErrorView::WrongWriter,
        }
    }
}

/// What the refusal says.
pub open spec fn step_error_text(e: StepErrorView) -> Seq<char> {
    match e {
        StepErrorView::MissingVersion => "missing version field"@,
        StepErrorView::VersionNotInteger => "version is not an integer"@,
        StepErrorView::VersionAtLimit => "version cannot be incremented"@,
        StepErrorView::MissingField(name) => "key not found: "@ + name,
        StepErrorView::WrongWriter => "writer_pk is not the public key of the writer"@,
    }
}

impl StepError {
    /// The refusal in words.
    pub fn message(&self) -> (s: String)
        ensures
            s@ == step_error_text(self@),
    {
        match self {
            StepError::MissingVersion => "missing version field".to_owned(),
            StepError::VersionNotInteger => "version is not an integer".to_owned(),
            StepError::VersionAtLimit => "version cannot be incremented".to_owned(),
            StepError::MissingField(name) => join("key not found: ", name.as_str()),
            StepError::WrongWriter => "writer_pk is not the public key of the writer".to_owned(),
        }
    }
}

/// A write that is ready to be proved and signed.
#[derive(Debug)]
pub struct WritePlan {
    /// The statements to prove, in order.
    pub operations: Vec<PlannedOp>,
    /// The version that the write leads to.
    pub new_version: i64,
    /// The state that the write leads to.
    pub new_state: SignedDict,
    /// The secret key that signs the new state.
    pub signing_key: SecretKey,
    /// Whether the mock prover makes the proof.
    pub mock: bool,
}

/// The meaning of a plan.
pub ghost struct PlanView {
    pub operations: Seq<PlannedView>,
    pub new_version: int,
    pub new_state: SignedView,
    pub signing_key: u64,
    pub mock: bool,
}

impl View for WritePlan {
    type V = PlanView;

    open spec fn view(&self) -> PlanView {
        PlanView {
            operations: self.operations@.map_values(|o: PlannedOp| o@),
            new_version: self.new_version as int,
            new_state: self.new_state@,
            signing_key: self.signing_key.slot,
            mock: self.mock,
        }
    }
}

/// The state after a write: the new values of the users' fields, and over them the new holder, the
/// next version, and the previous state as a whole.
pub open spec fn step_view(
    prev: DictView,
    next: Seq<char>,
    updates: Map<Seq<char>, i64>,
) -> DictView {
    prev.union_prefer_right(ints(updates))
        .insert("writer_pk"@, ValueView::PublicKey(next))
        .insert("version"@, ValueView::Int(prev["version"@]->Int_0 + 1))
        .insert("prev_hash"@, ValueView::Dictionary(prev))
}

/// The signed state after a write: `writer` signs what the write leads to.
pub open spec fn stepped(
    prev: SignedView,
    writer: ParticipantView,
    next: Seq<char>,
    updates: Map<Seq<char>, i64>,
) -> SignedView {
    SignedView { dict: step_view(prev.dict, next, updates), signer: writer.pk }
}

/// Every field to update, save the system fields, is a field of the state.
pub open spec fn fields_known(prev: DictView, updates: Map<Seq<char>, i64>) -> bool {
    forall|k: Seq<char>| #[trigger]
        updates.contains_key(k) && !is_system_field(k) ==> prev.contains_key(k)
}

/// `k` is the first field to update, in key order and save the system fields, that the state does
/// not have.
pub open spec fn first_unknown(
    prev: DictView,
    updates: Map<Seq<char>, i64>,
    k: Seq<char>,
) -> bool {
    &&& updates.contains_key(k)
    &&& !is_system_field(k)
    &&& !prev.contains_key(k)
    &&& forall|j: Seq<char>| #[trigger]
        updates.contains_key(j) && !is_system_field(j) && !prev.contains_key(j) ==> j == k
            || text_less(k, j)
}

/// The state names `pk` as its writer.
pub open spec fn names_writer(prev: DictView, pk: Seq<char>) -> bool {
    prev.contains_key("writer_pk"@) && prev["writer_pk"@] == ValueView::PublicKey(pk)
}

/// The version of the state can be incremented.
pub open spec fn version_ready(prev: DictView) -> bool {
    version_of(prev) is Some && version_of(prev)->0 < i64::MAX
}

/// When a write is made.
pub open spec fn step_accepted(
    prev: DictView,
    writer: Seq<char>,
    updates: Map<Seq<char>, i64>,
) -> bool {
    &&& version_ready(prev)
    &&& names_writer(prev, writer)
    &&& fields_known(prev, updates)
    &&& prev.contains_key("prev_hash"@)
}

/// When a write is refused with `e`.
pub open spec fn step_refused(
    prev: DictView,
    writer: Seq<char>,
    updates: Map<Seq<char>, i64>,
    e: StepErrorView,
) -> bool {
    match e {
        StepErrorView::MissingVersion => !prev.contains_key("version"@),
        StepErrorView::VersionNotInteger => prev.contains_key("version"@)
            && !(prev["version"@] is Int),
        StepErrorView::VersionAtLimit => version_of(prev) is Some && version_of(prev)->0 >= i64::MAX,
        StepErrorView::MissingField(k) => version_ready(prev) && if !prev.contains_key(
            "writer_pk"@,
        ) {
            k == "writer_pk"@
        } else if !fields_known(prev, updates) {
            first_unknown(prev, updates, k)
        } else {
            names_writer(prev, writer) && !prev.contains_key("prev_hash"@) && k == "prev_hash"@
        },
        StepErrorView::WrongWriter => {
            &&& version_ready(prev)
            &&& prev.contains_key("writer_pk"@)
            &&& fields_known(prev, updates)
            &&& !names_writer(prev, writer)
        },
    }
}

/// A listing without the system fields.
pub open spec fn user_fields(l: Seq<(Seq<char>, i64)>) -> Seq<(Seq<char>, i64)>
    decreases l.len(),
{
    if l.len() == 0 {
        Seq::empty()
    } else if is_system_field(l.last().0) {
        user_fields(l.drop_last())
    } else {
        user_fields(l.drop_last()).push(l.last())
    }
}

/// The listing without the system fields keeps its order and the pairs of all other fields.
pub proof fn lemma_user_fields(l: Seq<(Seq<char>, i64)>)
    requires
        ascending(l),
    ensures
        ascending(user_fields(l)),
        forall|i: int|
            0 <= i < user_fields(l).len() ==> !is_system_field((#[trigger] user_fields(l)[i]).0)
                && l.contains(user_fields(l)[i]),
        pairs_map(user_fields(l)) == pairs_map(l).remove("version"@).remove("prev_hash"@).remove(
            "writer_pk"@,
        ),
    decreases l.len(),
{
    if l.len() > 0 {
        let front = l.drop_last();
        lemma_user_fields(front);
        let u = user_fields(l);
        let f = user_fields(front);
        assert forall|i: int| 0 <= i < u.len() implies !is_system_field((#[trigger] u[i]).0)
            && l.contains(u[i]) by {
            if i < f.len() {
                assert(front.contains(f[i]));
                let j = choose|j: int| 0 <= j < front.len() && front[j] == f[i];
                assert(l[j] == u[i]);
            } else {
                assert(l[l.len() - 1] == u[i]);
            }
        }
        assert forall|i: int, j: int| 0 <= i < j < u.len() implies text_less(u[i].0, u[j].0) by {
            if j < f.len() {
                assert(text_less(f[i].0, f[j].0));
            } else {
                assert(front.contains(f[i]));
                let m = choose|m: int| 0 <= m < front.len() && front[m] == f[i];
                assert(text_less(l[m].0, l[l.len() - 1].0));
            }
        }
        if !is_system_field(l.last().0) {
            assert(u.drop_last() =~= f);
        }
    }
    assert(pairs_map(user_fields(l)) =~= pairs_map(l).remove("version"@).remove(
        "prev_hash"@,
    ).remove("writer_pk"@));
}

/// One statement for each field to update, each from the dictionary before to the one after.
pub open spec fn update_ops(base: DictView, l: Seq<(Seq<char>, i64)>) -> Seq<PlannedView>
    decreases l.len(),
{
    if l.len() == 0 {
        Seq::empty()
    } else {
        update_ops(base, l.drop_last()).push(
            hidden(
                OperationView::DictUpdate {
                    after: applied(base, l),
                    before: applied(base, l.drop_last()),
                    key: l.last().0,
                    value: ValueView::Int(l.last().1 as int),
                },
            ),
        )
    }
}

/// The statements that a write proves before the fields are updated.
pub open spec fn opening_ops(
    prev: SignedView,
    writer_sk: u64,
    next: Seq<char>,
) -> Seq<PlannedView> {
    let v = prev.dict["version"@]->Int_0;
    let no_writer = prev.dict.remove("writer_pk"@);
    seq![
        shown(OperationView::DictSignedBy { dict: prev.dict, signer: prev.signer }),
        hidden(
            OperationView::DictContains {
                dict: prev.dict,
                key: "version"@,
                value: ValueView::Int(v),
            },
        ),
        hidden(OperationView::PublicKeyOf { dict: prev.dict, key: "writer_pk"@, sk: writer_sk }),
        shown(OperationView::SumOf { sum: v + 1, dict: prev.dict, key: "version"@, addend: 1 }),
        shown(
            OperationView::DictDelete { after: no_writer, before: prev.dict, key: "writer_pk"@ },
        ),
        hidden(
            OperationView::DictInsert {
                after: no_writer.insert("writer_pk"@, ValueView::PublicKey(next)),
                before: no_writer,
                key: "writer_pk"@,
                value: ValueView::PublicKey(next),
            },
        ),
    ]
}

/// The statements that a write proves once the fields are updated, from `updated` on.
pub open spec fn closing_ops(prev: DictView, updated: DictView) -> Seq<PlannedView> {
    let version = ValueView::Int(prev["version"@]->Int_0 + 1);
    let with_values = updated.insert("version"@, version);
    seq![
        hidden(
            OperationView::DictUpdate {
                after: with_values,
                before: updated,
                key: "version"@,
                value: version,
            },
        ),
        shown(
            OperationView::DictUpdate {
                after: with_values.insert("prev_hash"@, ValueView::Dictionary(prev)),
                before: with_values,
                key: "prev_hash"@,
                value: ValueView::Dictionary(prev),
            },
        ),
    ]
}

/// All the statements that a write proves. `l` lists the fields to update; those that are system
/// fields get no statement.
pub open spec fn step_ops(
    prev: SignedView,
    writer_sk: u64,
    next: Seq<char>,
    l: Seq<(Seq<char>, i64)>,
) -> Seq<PlannedView> {
    let handed = prev.dict.remove("writer_pk"@).insert(
        "writer_pk"@,
        ValueView::PublicKey(next),
    );
    opening_ops(prev, writer_sk, next) + update_ops(handed, user_fields(l)) + closing_ops(
        prev.dict,
        applied(handed, user_fields(l)),
    )
}

/// The plan of a write.
pub open spec fn plan_view(
    prev: SignedView,
    writer: ParticipantView,
    next: Seq<char>,
    updates: Map<Seq<char>, i64>,
    l: Seq<(Seq<char>, i64)>,
    mock: bool,
) -> PlanView {
    PlanView {
        operations: step_ops(prev, writer.sk, next, l),
        new_version: prev.dict["version"@]->Int_0 + 1,
        new_state: stepped(prev, writer, next, updates),
        signing_key: writer.sk,
        mock,
    }
}

/// Plans one write: `writer` hands the object in `prev_state` to `next_pk` and sets the fields in
/// `updates`, of which those for system fields have no effect. `mock` selects the prover. The fields
/// are taken in key order.
pub fn write_step(
    prev_state: &SignedDict,
    writer: &Participant,
    next_pk: &PublicKey,
    updates: &StringMap<i64>,
    mock: bool,
) -> (r: Result<WritePlan, StepError>)
    ensures
        r is Ok <==> step_accepted(prev_state@.dict, writer@.pk, updates@),
        match r {
            Ok(plan) => plan@ == plan_view(
                prev_state@,
                writer@,
                next_pk@,
                updates@,
                updates.listing(),
                mock,
            ),
            Err(e) => step_refused(prev_state@.dict, writer@.pk, updates@, e@),
        },
        r is Ok ==> names_writer(r->Ok_0@.new_state.dict, next_pk@),
        ascending(updates.listing()),
        pairs_map(updates.listing()) == updates@,
{
    broadcast use lemma_value_view;

    let ghost prev = prev_state@.dict;
    let ghost l = updates.listing();
    let n = updates.len();
    proof {
        lemma_field_names();
        lemma_pairs_map(l);
    }
    let old_version: i64 = match prev_state.dict.get("version") {
        None => {
            return Err(StepError::MissingVersion);
        },
        Some(v) => match v.as_int() {
            None => {
                return Err(StepError::VersionNotInteger);
            },
            Some(i) => i,
        },
    };
    if old_version == i64::MAX {
        return Err(StepError::VersionAtLimit);
    }
    let new_version: i64 = old_version + 1;
    let mut operations: Vec<PlannedOp> = Vec::new();
    operations.push(
        PlannedOp {
            public: true,
            op: Operation::DictSignedBy {
                dict: share(&prev_state.dict),
                signer: prev_state.signer.copy(),
            },
        },
    );
    operations.push(
        PlannedOp {
            public: false,
            op: Operation::DictContains {
                dict: share(&prev_state.dict),
                key: "version".to_owned(),
                value: FieldValue::Int(old_version),
            },
        },
    );
    operations.push(
        PlannedOp {
            public: false,
            op: Operation::PublicKeyOf {
                dict: share(&prev_state.dict),
                key: "writer_pk".to_owned(),
                sk: writer.sk,
            },
        },
    );
    operations.push(
        PlannedOp {
            public: true,
            op: Operation::SumOf {
                sum: new_version,
                dict: share(&prev_state.dict),
                key: "version".to_owned(),
                addend: 1,
            },
        },
    );

    let mut without = prev_state.dict.copy();
    if without.delete("writer_pk").is_err() {
        return Err(StepError::MissingField("writer_pk".to_owned()));
    }
    let no_writer = Arc::new(without);
    operations.push(
        PlannedOp {
            public: true,
            op: Operation::DictDelete {
                after: share(&no_writer),
                before: share(&prev_state.dict),
                key: "writer_pk".to_owned(),
            },
        },
    );
    let mut handed = no_writer.copy();
    let inserted = handed.insert("writer_pk", FieldValue::PublicKey(next_pk.copy()));
    assert(inserted is Ok);
    let mut current = Arc::new(handed);
    operations.push(
        PlannedOp {
            public: false,
            op: Operation::DictInsert {
                after: share(&current),
                before: no_writer,
                key: "writer_pk".to_owned(),
                value: FieldValue::PublicKey(next_pk.copy()),
            },
        },
    );
    let ghost base = current@;
    let ghost opening = opening_ops(prev_state@, writer@.sk, next_pk@);
    assert(operations@.map_values(|o: PlannedOp| o@) =~= opening);
    assert(opening + update_ops(base, user_fields(l.take(0))) =~= opening);

    let mut i: usize = 0;
    while i < n
        invariant
            i <= n,
            n == l.len(),
            l == updates.listing(),
            ascending(l),
            pairs_map(l) == updates@,
            prev == prev_state@.dict,
            base.dom() == prev.dom(),
            version_ready(prev),
            prev.contains_key("writer_pk"@),
            current@ == applied(base, user_fields(l.take(i as int))),
            current@.dom() == prev.dom(),
            forall|j: int|
                0 <= j < i && !is_system_field(l[j].0) ==> prev.contains_key((#[trigger] l[j]).0),
            operations@.map_values(|o: PlannedOp| o@) == opening + update_ops(
                base,
                user_fields(l.take(i as int)),
            ),
        decreases n - i,
    {
        broadcast use lemma_value_view;

        let (field, val) = updates.entry(i);
        assert(l.take(i + 1).drop_last() =~= l.take(i as int));
        if is_system(field.as_str()) {
            i = i + 1;
            continue;
        }
        let mut changed = current.copy();
        if changed.update(field.as_str(), FieldValue::Int(*val)).is_err() {
            proof {
                lemma_pairs_map(l);
                assert forall|j: Seq<char>| #[trigger]
                    updates@.contains_key(j) && !is_system_field(j) && !prev.contains_key(
                    j,
                ) implies j == field@ || text_less(field@, j) by {
                    let m = choose|m: int| 0 <= m < l.len() && #[trigger] l[m].0 == j;
                    assert(m >= i);
                }
                assert(updates@.contains_key(field@));
                assert(!fields_known(prev, updates@));
            }
            return Err(StepError::MissingField(field.clone()));
        }
        let next = Arc::new(changed);
        let ghost done = operations@.map_values(|o: PlannedOp| o@);
        operations.push(
            PlannedOp {
                public: false,
                op: Operation::DictUpdate {
                    after: share(&next),
                    before: current,
                    key: field.clone(),
                    value: FieldValue::Int(*val),
                },
            },
        );
        current = next;
        proof {
            let user = user_fields(l.take(i as int));
            assert(user_fields(l.take(i + 1)).drop_last() =~= user);
            assert(current@.dom() =~= prev.dom());
            assert(operations@.map_values(|o: PlannedOp| o@) =~= done.push(
                operations@.last()@,
            ));
            assert(operations@.map_values(|o: PlannedOp| o@) =~= opening + update_ops(
                base,
                user_fields(l.take(i + 1)),
            ));
        }
        i = i + 1;
    }
    let ghost updated = current@;
    let ghost so_far = operations@.map_values(|o: PlannedOp| o@);
    proof {
        assert(l.take(n as int) =~= l);
        assert forall|k: Seq<char>| #[trigger]
            updates@.contains_key(k) && !is_system_field(k) implies prev.contains_key(k) by {
            lemma_pairs_map(l);
            let m = choose|m: int| 0 <= m < l.len() && #[trigger] l[m].0 == k;
            assert(prev.contains_key(l[m].0));
        }
    }

    let mut values = current.copy();
    let incremented = values.update("version", FieldValue::Int(new_version));
    assert(incremented is Ok);
    let with_values = Arc::new(values);
    operations.push(
        PlannedOp {
            public: false,
            op: Operation::DictUpdate {
                after: share(&with_values),
                before: current,
                key: "version".to_owned(),
                value: FieldValue::Int(new_version),
            },
        },
    );

    let authorized = match prev_state.dict.get("writer_pk") {
        Some(v) => v.is_key(&writer.pk),
        None => false,
    };
    if !authorized {
        return Err(StepError::WrongWriter);
    }
    let mut linked = with_values.copy();
    if linked.update("prev_hash", FieldValue::Dictionary(share(&prev_state.dict))).is_err() {
        return Err(StepError::MissingField("prev_hash".to_owned()));
    }
    let with_prev = Arc::new(linked);
    operations.push(
        PlannedOp {
            public: true,
            op: Operation::DictUpdate {
                after: share(&with_prev),
                before: with_values,
                key: "prev_hash".to_owned(),
                value: FieldValue::Dictionary(share(&prev_state.dict)),
            },
        },
    );
    proof {
        assert(operations@.map_values(|o: PlannedOp| o@) =~= so_far + closing_ops(prev, updated));
        lemma_user_fields(l);
        lemma_applied(base, user_fields(l));
        assert(with_prev@ =~= step_view(prev, next_pk@, updates@));
    }
    Ok(
        WritePlan {
            operations,
            new_version,
            new_state: SignedDict { dict: with_prev, signer: writer.pk.copy() },
            signing_key: writer.sk,
            mock,
        },
    )
}

/// The JSON member for a value: integers as numbers, everything else as the text it is shown as.
pub open spec fn member(v: ValueView, text: Seq<char>) -> Json {
    match v {
        ValueView::Int(i) => Json::Number(i),
        _ => Json::Text(text),
    }
}

/// The JSON members for a state. `texts` holds what each readable entry is shown as; an entry that
/// cannot be read has no member.
pub open spec fn json_view(
    state: DictView,
    texts: Map<Seq<char>, String>,
) -> Map<Seq<char>, Json> {
    Map::new(
        |k: Seq<char>| state.contains_key(k) && texts.contains_key(k),
        |k: Seq<char>| member(state[k], texts[k]@),
    )
}

/// All keys and values of a state as a JSON object. `texts` holds what each entry that could be
/// read is shown as.
pub fn state_to_json(sd: &SignedDict, texts: &StringMap<String>) -> (json: serde_json::Value)
    ensures
        json_of(json) == Json::Object(json_view(sd@.dict, texts@)),
{
    let mut map = json_map();
    let n = sd.dict.len();
    let ghost l = sd.dict.listing();
    let ghost full = json_view(sd@.dict, texts@);
    proof {
        lemma_pairs_map(l);
    }
    let mut i: usize = 0;
    while i < n
        invariant
            i <= n,
            n == l.len(),
            l == sd.dict.listing(),
            ascending(l),
            sd@.dict == pairs_map(l),
            full == json_view(sd@.dict, texts@),
            forall|k: Seq<char>| #[trigger]
                members_of(map).contains_key(k) <==> full.contains_key(k) && exists|j: int|
                    0 <= j < i && #[trigger] l[j].0 == k,
            forall|k: Seq<char>| #[trigger]
                members_of(map).contains_key(k) ==> members_of(map)[k] == full[k],
        decreases n - i,
    {
        let (key, val) = sd.dict.entry(i);
        let ghost before = members_of(map);
        match texts.get(key.as_str()) {
            Some(text) => match val.as_int() {
                Some(number) => json_insert(&mut map, key.clone(), json_number(number)),
                None => json_insert(&mut map, key.clone(), json_text(text.clone())),
            },
            None => {},
        }
        proof {
            assert forall|k: Seq<char>| #[trigger]
                members_of(map).contains_key(k) <==> full.contains_key(k) && exists|j: int|
                    0 <= j < i + 1 && #[trigger] l[j].0 == k by {
                if full.contains_key(k) && exists|j: int|
                    0 <= j < i + 1 && #[trigger] l[j].0 == k {
                    let j = choose|j: int| 0 <= j < i + 1 && #[trigger] l[j].0 == k;
                    if j < i {
                        assert(before.contains_key(k));
                    }
                }
                if members_of(map).contains_key(k) {
                    if before.contains_key(k) {
                        let j = choose|j: int| 0 <= j < i && #[trigger] l[j].0 == k;
                        assert(l[j].0 == k);
                    } else {
                        assert(l[i as int].0 == k);
                    }
                }
            }
        }
        i = i + 1;
    }
    proof {
        assert(members_of(map) =~= full) by {
            assert forall|k: Seq<char>| full.contains_key(k) implies #[trigger] members_of(
                map,
            ).contains_key(k) by {
                lemma_pairs_map(l);
                let j = choose|j: int| 0 <= j < l.len() && #[trigger] l[j].0 == k;
                assert(l[j].0 == k);
            }
        }
    }
    json_object(map)
}

} // verus!
