//! Free-function face of the Plaintext codec.

use vstd::prelude::*;
use crate::file::plaintext::{parse_rel_pt, spec_is_type_pt, Plaintext};
use crate::file::pattern::{ParseError, Pattern};

verus! {

/// Whether the text starts with `!Name:`.
pub fn is_plaintext_file(s: &str) -> (r: bool)
    ensures
        r == spec_is_type_pt(s@),
{
    Plaintext::is_type(s)
}

/// Parse a Plaintext text into a pattern.
pub fn parse_plaintext_file(s: &str) -> (r: Result<Pattern, ParseError>)
    requires
        s@.len() <= isize::MAX,
    ensures
        parse_rel_pt(s@, r),
{
    Plaintext::parse(s)
}

} // verus!
