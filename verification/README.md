# schattenform

A digital object that passes between participants. One object exists at a time. It carries a small
set of integer values and an authorized writer. The current holder can update the values, name a new
holder, and have a proof made that the transition was valid. Each step commits to the state before.

- `src/` is the library, verified with Verus: the schema of the object, the plan of a write (which
  statements its proof consists of and which state it leads to), what the server answers and what it
  remembers. `src/laws.rs` states what holds of the whole.
- `app/` is the server around it: HTTP, threads, and the calls into pod2, which makes keys,
  signatures and proofs. pod2 is not on the crate registry and has to be added as a git dependency
  to build the server.
- `tests/` run the library.

## The schema

| Field | Value | Role |
|---|---|---|
| `version` | integer | counts the writes, from 0 at the genesis |
| `prev_hash` | dictionary | the previous state; the integer 0 at the genesis |
| `writer_pk` | public key | who may write |
| any other | integer | chosen at the genesis, set by later writes |

The first three are system fields. They are managed by each step; a write that lists them among its
updates does not change them. A write is recorded only while the object is still the one it was
planned on, or after a reset, while there is none; a genesis only while there is no object.

## What is taken on trust

The contracts of the items marked `external_body`: building JSON with `serde_json` (`src/json.rs`)
and `Arc::clone` (`src/dict.rs`). That a signature or a proof is good is up to pod2 and no part of
what is proved here.
