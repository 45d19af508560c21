//! An append-only, offline-verifiable ledger of actions.
//!
//! A 2xx response is not evidence that an action happened. `submit-action` performs an
//! effect at most once per idempotency key and never confirms it; `verify-action` reads
//! external state back and is the only path to `confirmed`.
//!
//! Layout:
//!   record     record shapes, expectations and the state machine over them
//!   transport  outbound requests and the attempts that are kept of them
//!   index      the secondary index of keys
//!   host       what the host is asked for and what it answers
//!   submit, verify, get, list
//!              the four operations, each a machine that the host drives
//!   model      a model of the ledger and of the runs of operations on it
//!   laws       what holds of the ledger across operations
//!   walk, catalog
//!              what holds of pages, walks, reads and the index
//!   text, digest
//!              text, order and fingerprints

pub mod catalog;
pub mod digest;
pub mod get;
pub mod host;
pub mod index;
pub mod laws;
pub mod list;
pub mod model;
pub mod record;
pub mod submit;
pub mod text;
pub mod transport;
pub mod verify;
pub mod walk;
