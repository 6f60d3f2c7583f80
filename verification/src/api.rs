//! Requests, responses and errors.
use vstd::prelude::*;
use crate::json::json_clone;
use crate::string_map::StringMap;

verus! {

/// How an error is answered.
#[derive(Clone, Copy, Debug, PartialEq, Eq, Structural)]
pub enum StatusCode {
    BadRequest,
    Forbidden,
    InternalServerError,
}

/// The number of a status code.
pub open spec fn status_number(s: StatusCode) -> u16 {
    match s {
        StatusCode::BadRequest => 400,
        StatusCode::Forbidden => 403,
        StatusCode::InternalServerError => 500,
    }
}

impl StatusCode {
    /// The number of the status code.
    pub fn as_u16(self) -> (n: u16)
        ensures
            n == status_number(self),
    {
        match self {
            StatusCode::BadRequest => 400,
            StatusCode::Forbidden => 403,
            StatusCode::InternalServerError => 500,
        }
    }
}

/// An error as it is answered.
#[derive(Debug)]
pub struct ApiError {
    pub status: StatusCode,
    pub message: String,
}

/// The meaning of an error.
pub ghost struct ErrorView {
    pub status: StatusCode,
    pub message: Seq<char>,
}

impl View for ApiError {
    type V = ErrorView;

    open spec fn view(&self) -> ErrorView {
        ErrorView { status: self.status, message: self.message@ }
    }
}

/// Something went wrong on the way.
pub open spec fn internal(message: Seq<char>) -> ErrorView {
    ErrorView { status: StatusCode::InternalServerError, message }
}

/// The request cannot be served.
pub open spec fn bad(message: Seq<char>) -> ErrorView {
    ErrorView { status: StatusCode::BadRequest, message }
}

/// The error for something that went wrong on the way.
pub fn internal_err(message: String) -> (e: ApiError)
    ensures
        e@ == internal(message@),
{
    ApiError { status: StatusCode::InternalServerError, message }
}

/// The error for a request that cannot be served.
pub fn bad_req(message: String) -> (e: ApiError)
    ensures
        e@ == bad(message@),
{
    ApiError { status: StatusCode::BadRequest, message }
}

#[derive(Debug)]
pub struct RegisterReq {
    pub name: String,
}

#[derive(Debug)]
pub struct RegisterResp {
    pub name: String,
    pub public_key: String,
}

#[derive(Debug)]
pub struct GenesisReq {
    pub fields: StringMap<i64>,
    pub first_writer: String,
}

#[derive(Debug)]
pub struct GenesisResp {
    pub state: serde_json::Value,
    pub first_writer: String,
}

#[derive(Debug)]
pub struct WriteReq {
    pub writer: String,
    pub next_writer: String,
    pub updates: StringMap<i64>,
}

#[derive(Debug)]
pub struct WriteResp {
    pub proof: serde_json::Value,
    pub state: serde_json::Value,
    pub version: i64,
}

/// One write that was made.
#[derive(Debug)]
pub struct HistoryEntry {
    pub version: i64,
    pub writer: String,
    pub next_writer: String,
    pub updates: StringMap<i64>,
    pub proof: serde_json::Value,
    pub state: serde_json::Value,
}

#[derive(Debug)]
pub struct ParticipantInfo {
    pub name: String,
    pub public_key: String,
}

#[derive(Debug)]
pub struct StatusResp {
    pub has_genesis: bool,
    pub current_version: Option<i64>,
    pub current_writer: Option<String>,
    pub participants: Vec<String>,
    pub history_len: usize,
    pub current_state: Option<serde_json::Value>,
}

/// The meaning of a history entry.
pub ghost struct EntryView {
    pub version: int,
    pub writer: Seq<char>,
    pub next_writer: Seq<char>,
    pub updates: Map<Seq<char>, i64>,
    pub proof: serde_json::Value,
    pub state: serde_json::Value,
}

impl View for HistoryEntry {
    type V = EntryView;

    open spec fn view(&self) -> EntryView {
        EntryView {
            version: self.version as int,
            writer: self.writer@,
            next_writer: self.next_writer@,
            updates: self.updates@,
            proof: self.proof,
            state: self.state,
        }
    }
}

impl HistoryEntry {
    /// The same entry once more.
    pub fn copy(&self) -> (e: HistoryEntry)
        ensures
            e@ == self@,
    {
        HistoryEntry {
            version: self.version,
            writer: self.writer.clone(),
            next_writer: self.next_writer.clone(),
            updates: self.updates.copy(),
            proof: json_clone(&self.proof),
            state: json_clone(&self.state),
        }
    }
}

} // verus!
