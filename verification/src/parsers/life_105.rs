//! Free-function face of the Life 1.05 codec.

use vstd::prelude::*;
use crate::file::life105::{parse_rel_105, spec_is_type_105, Life105};
use crate::file::pattern::{ParseError, Pattern};

verus! {

/// Whether the text starts with `#Life 1.05`.
pub fn is_life_105_file(s: &str) -> (r: bool)
    ensures
        r == spec_is_type_105(s@),
{
    Life105::is_type(s)
}

/// Parse a Life 1.05 text into a pattern.
pub fn parse_life_105_file(s: &str) -> (r: Result<Pattern, ParseError>)
    requires
        s@.len() <= isize::MAX,
    ensures
        parse_rel_105(s@, r),
{
    Life105::parse(s)
}

} // verus!
