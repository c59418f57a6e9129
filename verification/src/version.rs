//! The app's version string, for anything that displays a version.

use vstd::prelude::*;
use crate::text::{extend_str, string_from};

verus! {

/// `v`-prefixed core version for UI display, e.g. `v0.24.0`.
pub fn display(core: &str) -> (r: String)
    ensures
        r@ == seq!['v'] + core@,
{
    let mut out: Vec<char> = Vec::new();
    out.push('v');
    extend_str(&mut out, core);
    string_from(out.as_slice())
}

} // verus!
