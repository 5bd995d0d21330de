//! Preferences for the provider and model of a spawned session.
use vstd::prelude::*;
use crate::text::str_to_string;

verus! {

/// A provider, and the model to use with it.
#[derive(Debug, Clone)]
pub struct ProviderPreference {
    pub provider: String,
    pub model: String,
}

impl ProviderPreference {
    /// The preference for `model` of `provider`.
    pub fn new(provider: &str, model: &str) -> (r: ProviderPreference)
        ensures
            r.provider@ == provider@,
            r.model@ == model@,
    {
        ProviderPreference { provider: str_to_string(provider), model: str_to_string(model) }
    }
}

/// The model that a preference resolved to, with the pattern it was given as
/// and the models that pattern matched, where it was a pattern.
#[derive(Debug, Clone)]
pub struct ModelResolutionResult {
    pub resolved_model: String,
    pub pattern: Option<String>,
    pub matched_models: Option<Vec<String>>,
}

} // verus!
