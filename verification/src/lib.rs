//! Bundle composition, dictionary merging, URI parsing and session-state
//! utilities for Amplifier, with their behaviour stated as Verus contracts.

pub mod text;
pub mod value;
pub mod dicts;
pub mod ordered;
pub mod written;
pub mod sorting;
pub mod uri;
pub mod paths;
pub mod disk;
pub mod digest;
pub mod error;
pub mod json;
pub mod serialization;
pub mod capabilities;
pub mod registry;
pub mod registry_names;
pub mod sources;
pub mod updates;
pub mod install_state;
pub mod cache;
pub mod validator;
pub mod debug;
pub mod bundle;
pub mod bundle_dict;
pub mod bundle_compose;
pub mod bundle_resolve;
pub mod mentions;
pub mod spawn;
pub mod activator;
pub mod discovery;
pub mod agent_meta;
pub mod prepared;
pub mod loading;

use vstd::prelude::*;

verus! {
} // verus!
