//! The capability context: everything environment-dependent the engine may
//! be asked to do.
//!
//! The engine itself never touches the platform.  A subtag that needs the
//! outside world goes through a [`Context`], whose every operation returns a
//! `Result` so that environment failures propagate as ordinary evaluation
//! errors.  Nothing is assumed of what a context returns: the engine's
//! contracts state what holds of its own behaviour for every possible reply.

use vstd::prelude::*;

verus! {

/// The operations the engine may need from the surrounding platform.
pub trait Context {
    /// Resolves a platform reference (for example a user id) to display
    /// text.
    fn resolve_reference(&self, id: u64) -> (r: Result<String, String>);

    /// Fetches the raw bytes behind a URL-like reference.
    fn fetch_bytes(&self, url: &Vec<u8>) -> (r: Result<Vec<u8>, String>);
}

/// A context with no capabilities: every environment-dependent operation is
/// rejected.  Used for isolated testing and grammar validation.
pub struct NopContext;

impl Context for NopContext {
    fn resolve_reference(&self, id: u64) -> (r: Result<String, String>) {
        Err("operation not available in this context".to_owned())
    }

    fn fetch_bytes(&self, url: &Vec<u8>) -> (r: Result<Vec<u8>, String>) {
        Err("operation not available in this context".to_owned())
    }
}

} // verus!
