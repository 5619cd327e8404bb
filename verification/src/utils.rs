//! Small questions about where the client was loaded from.

use crate::json::read_word;
use vstd::prelude::*;
use vstd::string::StringSliceAdditionalSpecFns;

verus! {

/// Whether a location's protocol is a secure one: it starts with `https`.
pub fn is_https(protocol: &str) -> (r: bool)
    ensures
        r == "https".spec_bytes().is_prefix_of(protocol.spec_bytes()),
{
    read_word(protocol.as_bytes(), 0, "https").is_some()
}

} // verus!
