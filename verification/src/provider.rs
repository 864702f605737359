//! Where a request's [`AuthContext`] comes from.
//!
//! Resolving a context never fails: when no context was supplied, the
//! request gets the empty context, which holds no capability.
use vstd::prelude::*;

use crate::capability::AuthContext;

verus! {

/// The default auth source: the `AuthContext` that middleware attached to
/// the request if there is one, and otherwise the empty context
/// (deny-by-default).
#[derive(Debug, Clone, Copy, Default)]
pub struct DenyByDefault;

impl DenyByDefault {
    /// Resolves a request's context from the one that middleware attached,
    /// if any.
    pub fn resolve(&self, injected: Option<&AuthContext>) -> (r: AuthContext)
        ensures
            match injected {
                Some(c) => r@ == c@,
                None => r@ == Set::<Seq<char>>::empty(),
            },
    {
        match injected {
            Some(c) => c.clone(),
            None => AuthContext::empty(),
        }
    }
}

}
