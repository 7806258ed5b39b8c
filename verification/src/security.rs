//! The shared-secret value consulted by a server's admission policy.

use vstd::prelude::*;

verus! {

/// An opaque shared secret. The pool core never inspects it; it is plain data
/// carried by [`crate::configuration::Configuration`] for the surrounding
/// server loop to compare against incoming credentials.
#[derive(Clone, PartialEq, Eq)]
pub struct Secret {
    pub bytes: Vec<u8>,
}

} // verus!
