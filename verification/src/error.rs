//! The library's error type and the validation summary it can carry.
use vstd::prelude::*;
use crate::text::{concat, decimal, decimal_text, push_str};

verus! {

/// Errors and warnings gathered by a validation.
#[derive(Debug, Clone)]
pub struct ValidationResult {
    pub errors: Vec<String>,
    pub warnings: Vec<String>,
}

/// `"<e> errors, <w> warnings"`.
pub open spec fn validation_summary(e: nat, w: nat) -> Seq<char> {
    decimal(e) + " errors, "@ + decimal(w) + " warnings"@
}

impl ValidationResult {
    /// The one-line summary (what `Display` shows):
    /// `"<errors> errors, <warnings> warnings"`.
    pub fn summary(&self) -> (r: String)
        ensures
            r@ == validation_summary(self.errors@.len(), self.warnings@.len()),
    {
        let mut s = decimal_text(self.errors.len() as u64);
        push_str(&mut s, " errors, ");
        let w = decimal_text(self.warnings.len() as u64);
        push_str(&mut s, w.as_str());
        push_str(&mut s, " warnings");
        s
    }
}

/// What can go wrong while loading, validating or fetching a bundle.
#[derive(Debug)]
pub enum BundleError {
    NotFound { uri: String },
    LoadError { reason: String },
    ValidationError(ValidationResult),
    DependencyError(String),
    Io(String),
    Yaml(String),
    Http(String),
    Git(String),
}

/// The message each error shows.
pub open spec fn error_message(e: BundleError) -> Seq<char> {
    match e {
        BundleError::NotFound { uri } => "bundle not found: "@ + uri@,
        BundleError::LoadError { reason } => "failed to load bundle: "@ + reason@,
        BundleError::ValidationError(v) => "validation failed: "@ + validation_summary(
            v.errors@.len(),
            v.warnings@.len(),
        ),
        BundleError::DependencyError(m) => "dependency error: "@ + m@,
        BundleError::Io(m) => m@,
        BundleError::Yaml(m) => m@,
        BundleError::Http(m) => "http error: "@ + m@,
        BundleError::Git(m) => "git error: "@ + m@,
    }
}

impl BundleError {
    /// The error's message (what `Display` shows).
    pub fn message(&self) -> (r: String)
        ensures
            r@ == error_message(*self),
    {
        match self {
            BundleError::NotFound { uri } => concat("bundle not found: ", uri.as_str()),
            BundleError::LoadError { reason } => concat("failed to load bundle: ", reason.as_str()),
            BundleError::ValidationError(v) => {
                let s = v.summary();
                concat("validation failed: ", s.as_str())
            },
            BundleError::DependencyError(m) => concat("dependency error: ", m.as_str()),
            BundleError::Io(m) => m.clone(),
            BundleError::Yaml(m) => m.clone(),
            BundleError::Http(m) => concat("http error: ", m.as_str()),
            BundleError::Git(m) => concat("git error: ", m.as_str()),
        }
    }
}

} // verus!
