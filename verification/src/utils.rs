//! The default build target.

use vstd::prelude::*;

verus! {

/// The target triple handed to cargo when the user names none: the triple
/// that was set when this program was built, and `x86_64-unknown-linux-gnu`
/// where none was set.
pub open spec fn default_target_spec(target: Option<Seq<char>>) -> Seq<char> {
    match target {
        Some(t) => t,
        None => "x86_64-unknown-linux-gnu"@,
    }
}

/// The triple that a build-time target stands for, as characters.
pub open spec fn target_chars(target: Option<&'static str>) -> Option<Seq<char>> {
    match target {
        Some(t) => Some(t@),
        None => None,
    }
}

/// The default target to pass to cargo. `target` is the triple that was set
/// at build time, if one was.
pub fn default_target(target: Option<&'static str>) -> (triple: &'static str)
    ensures
        triple@ == default_target_spec(target_chars(target)),
{
    match target {
        Some(t) => t,
        None => "x86_64-unknown-linux-gnu",
    }
}

} // verus!
