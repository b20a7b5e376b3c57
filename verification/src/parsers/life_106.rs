//! Free-function face of the Life 1.06 codec, yielding the bare
//! coordinate list.

use vstd::prelude::*;
use crate::file::cells::Cells;
use crate::file::life106::{cells_from_106, spec_is_type_106, Life106};
use crate::file::pattern::ParseError;
use crate::text::spec_lines;

verus! {

/// Whether the text's first line is exactly `#Life 1.06`.
pub fn is_life_106_file(s: &str) -> (r: bool)
    ensures
        r == spec_is_type_106(s@),
{
    Life106::is_type(s)
}

/// Parse a Life 1.06 text into its list of alive-cell coordinates.
pub fn parse_life_106_file(s: &str) -> (r: Result<Vec<(isize, isize)>, ParseError>)
    ensures
        r is Ok <==> cells_from_106(spec_lines(s@), 1) is Ok,
        r is Ok ==> r->Ok_0@ == cells_from_106(spec_lines(s@), 1)->Ok_0,
        r is Err ==> r->Err_0 == cells_from_106(spec_lines(s@), 1)->Err_0,
{
    match Life106::parse(s) {
        Err(e) => Err(e),
        Ok(p) => match p.cells {
            Cells::List(l) => Ok(l.cells),
            Cells::Table(_) => {
                proof {
                    assert(false);
                }
                Ok(Vec::new())
            },
        },
    }
}

} // verus!
