//! The statements that a proof of a write is made of.
use std::sync::Arc;
use vstd::prelude::*;
use crate::dict::{Dict, PublicKey, SecretKey, FieldValue};
use crate::dict::{DictView, ValueView};

verus! {

/// One statement about dictionaries, keys and numbers.
#[derive(Debug)]
pub enum Operation {
    /// `signer` signed `dict`.
    DictSignedBy { dict: Arc<Dict>, signer: PublicKey },
    /// `dict` holds `value` under `key`.
    DictContains { dict: Arc<Dict>, key: String, value: FieldValue },
    /// `dict` holds under `key` the public key that belongs to `sk`.
    PublicKeyOf { dict: Arc<Dict>, key: String, sk: SecretKey },
    /// `sum` is what `dict` holds under `key`, plus `addend`.
    SumOf { sum: i64, dict: Arc<Dict>, key: String, addend: i64 },
    /// `after` is `before` without `key`, which was there.
    DictDelete { after: Arc<Dict>, before: Arc<Dict>, key: String },
    /// `after` is `before` with `value` under `key`, which was not there.
    DictInsert { after: Arc<Dict>, before: Arc<Dict>, key: String, value: FieldValue },
    /// `after` is `before` with `value` under `key`, which was there.
    DictUpdate { after: Arc<Dict>, before: Arc<Dict>, key: String, value: FieldValue },
}

/// A statement to prove, and whether the proof shows it.
#[derive(Debug)]
pub struct PlannedOp {
    pub public: bool,
    pub op: Operation,
}

/// The meaning of a statement.
pub ghost enum OperationView {
    DictSignedBy { dict: DictView, signer: Seq<char> },
    DictContains { dict: DictView, key: Seq<char>, value: ValueView },
    PublicKeyOf { dict: DictView, key: Seq<char>, sk: u64 },
    SumOf { sum: int, dict: DictView, key: Seq<char>, addend: int },
    DictDelete { after: DictView, before: DictView, key: Seq<char> },
    DictInsert { after: DictView, before: DictView, key: Seq<char>, value: ValueView },
    DictUpdate { after: DictView, before: DictView, key: Seq<char>, value: ValueView },
}

/// The meaning of a planned statement.
pub ghost struct PlannedView {
    pub public: bool,
    pub op: OperationView,
}

impl View for Operation {
    type V = OperationView;

    open spec fn view(&self) -> OperationView {
        match *self {
            Operation::DictSignedBy { dict, signer } => OperationView::DictSignedBy {
                dict: dict@,
                signer: signer@,
            },
            Operation::DictContains { dict, key, value } => OperationView::DictContains {
                dict: dict@,
                key: key@,
                value: value@,
            },
            Operation::PublicKeyOf { dict, key, sk } => OperationView::PublicKeyOf {
                dict: dict@,
                key: key@,
                sk: sk.slot,
            },
            Operation::SumOf { sum, dict, key, addend } => OperationView::SumOf {
                sum: sum as int,
                dict: dict@,
                key: key@,
                addend: addend as int,
            },
            Operation::DictDelete { after, before, key } => OperationView::DictDelete {
                after: after@,
                before: before@,
                key: key@,
            },
            Operation::DictInsert { after, before, key, value } => OperationView::DictInsert {
                after: after@,
                before: before@,
                key: key@,
                value: value@,
            },
            Operation::DictUpdate { after, before, key, value } => OperationView::DictUpdate {
                after: after@,
                before: before@,
                key: key@,
                value: value@,
            },
        }
    }
}

impl View for PlannedOp {
    type V = PlannedView;

    open spec fn view(&self) -> PlannedView {
        PlannedView { public: self.public, op: self.op@ }
    }
}

/// Whether a statement is true. `signed` tells which key signed which dictionary and `key_of`
/// which public key belongs to a secret key.
pub open spec fn holds(
    op: OperationView,
    signed: spec_fn(DictView, Seq<char>) -> bool,
    key_of: spec_fn(u64) -> Seq<char>,
) -> bool {
    match op {
        OperationView::DictSignedBy { dict, signer } => signed(dict, signer),
        OperationView::DictContains { dict, key, value } => dict.contains_key(key) && dict[key]
            == value,
        OperationView::PublicKeyOf { dict, key, sk } => dict.contains_key(key) && dict[key]
            == ValueView::PublicKey(key_of(sk)),
        OperationView::SumOf { sum, dict, key, addend } => {
            &&& dict.contains_key(key)
            &&& dict[key] is Int
            &&& sum == dict[key]->Int_0 + addend
        },
        OperationView::DictDelete { after, before, key } => before.contains_key(key) && after
            == before.remove(key),
        OperationView::DictInsert { after, before, key, value } => !before.contains_key(key)
            && after == before.insert(key, value),
        OperationView::DictUpdate { after, before, key, value } => before.contains_key(key) && after
            == before.insert(key, value),
    }
}

/// A statement that the proof shows.
pub open spec fn shown(op: OperationView) -> PlannedView {
    PlannedView { public: true, op }
}

/// A statement that the proof uses without showing it.
pub open spec fn hidden(op: OperationView) -> PlannedView {
    PlannedView { public: false, op }
}

} // verus!
