//! Which files are Erlang sources.
use vstd::prelude::*;

verus! {

/// Whether a file with extension `ext` is an Erlang source or header:
/// `erl` or `hrl`.
pub fn is_erlang_extension(ext: Option<&str>) -> (b: bool)
    ensures
        b == (ext matches Some(e) && (e@ == "erl"@ || e@ == "hrl"@)),
{
    match ext {
        Some(e) => crate::text::str_eq(e, "erl") || crate::text::str_eq(e, "hrl"),
        None => false,
    }
}

} // verus!
