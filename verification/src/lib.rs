//! An object that passes between participants, and the server that keeps it.
//!
//! The state of the object is a dictionary with integer fields of the users' choice and three
//! system fields: `version`, `prev_hash` and `writer_pk`. The participant whose public key stands
//! under `writer_pk` may set fields and hand the object on. Each such write is planned here as a
//! list of statements to prove and the state that they lead to; making the proof and the signature
//! is the caller's part.
//!
//! - `text`, `string_map`: strings in order, and maps with string keys.
//! - `dict`: keys, values and dictionaries.
//! - `operation`: the statements that a proof consists of.
//! - `pod`: the genesis, the write step, and states as JSON.
//! - `json`: what is taken from `serde_json`.
//! - `api`, `server`: requests and responses, and what the server decides and remembers.
//! - `laws`: what holds of all this together.
//! - `data_laws`, `object_laws`, `server_laws`: what each operation does, told from what goes in and
//!   what comes out.

pub mod text;
pub mod string_map;
pub mod dict;
pub mod operation;
pub mod json;
pub mod pod;
pub mod api;
pub mod server;
pub mod laws;
pub mod data_laws;
pub mod object_laws;
pub mod server_laws;
