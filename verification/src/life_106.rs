//! A stand-alone Life 1.06 reader, a thin face of the codec: detection
//! by the exact header line, and parsing to the bare coordinate list.

use vstd::prelude::*;
use crate::file::life106::spec_is_type_106;
use crate::file::pattern::ParseError;
use crate::text::spec_lines;

verus! {

/// The Life 1.06 reader.
pub struct Parser;

impl Parser {
    /// Whether the given file text is a Life 1.06 file: its first line
    /// equals `#Life 1.06`.
    pub fn is_life_106_file(s: &str) -> (r: bool)
        ensures
            r == spec_is_type_106(s@),
    {
        crate::parsers::life_106::is_life_106_file(s)
    }

    /// Parse a Life 1.06 file text to its coordinate list.
    pub fn parse_life_106_file(s: &str) -> (r: Result<Vec<(isize, isize)>, ParseError>)
        ensures
            r is Ok <==> crate::file::life106::cells_from_106(spec_lines(s@), 1) is Ok,
            r is Ok ==> r->Ok_0@ == crate::file::life106::cells_from_106(spec_lines(s@), 1)->Ok_0,
            r is Err ==> r->Err_0 == crate::file::life106::cells_from_106(
                spec_lines(s@),
                1,
            )->Err_0,
    {
        crate::parsers::life_106::parse_life_106_file(s)
    }
}

} // verus!
