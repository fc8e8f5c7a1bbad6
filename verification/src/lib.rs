//! Local engine logic of the Comet backend: the single local profile, the
//! workspace registry rules, the per-chat command queue and transcript rules,
//! and the archived-sessions grouping used by the settings page.
//!
//! Everything here is a pure decision over plain values; persistence,
//! channels and processes are driven by the host around it.

pub mod archived;
pub mod chat_doc;
pub mod debounce;
pub mod doc_cache;
pub mod eviction;
pub mod laws;
pub mod mirror;
pub mod model;
pub mod profile;
pub mod registry;
pub mod text;

use vstd::prelude::*;

verus! {

} // verus!
