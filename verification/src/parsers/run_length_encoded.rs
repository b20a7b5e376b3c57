//! Free-standing face of the run-length-encoded codec, yielding the
//! bare coordinate list.

use vstd::prelude::*;
use crate::file::cells::Cells;
use crate::file::pattern::ParseError;
use crate::file::rle::{concat_from, hash_end, meta_err, rle_body, RLE};
use crate::text::spec_lines;

verus! {

/// The cells an RLE text encodes, or why it is refused: the first
/// metadata error, a missing header line, or the body's own error.
pub open spec fn rle_cells_of(s: Seq<char>) -> Result<Seq<(isize, isize)>, ParseError> {
    let lines = spec_lines(s);
    let m = hash_end(lines, 0);
    if meta_err(lines, 0, m) is Some {
        Err(meta_err(lines, 0, m)->Some_0)
    } else if m >= lines.len() {
        Err(ParseError::MissingHeader)
    } else {
        rle_body(concat_from(lines, m + 1), 0, 0, 0, 0)
    }
}

/// The run-length-encoded reader.
pub struct Parser;

impl Parser {
    /// Parse an RLE text into its list of alive-cell coordinates.
    pub fn parse_rle_file(contents: &str) -> (r: Result<Vec<(isize, isize)>, ParseError>)
        requires
            contents@.len() <= isize::MAX,
        ensures
            r is Ok <==> rle_cells_of(contents@) is Ok,
            r is Ok ==> r->Ok_0@ == rle_cells_of(contents@)->Ok_0,
            r is Err ==> r->Err_0 == rle_cells_of(contents@)->Err_0,
    {
        match RLE::parse(contents) {
            Err(e) => Err(e),
            Ok(p) => match p.cells {
                Cells::List(l) => Ok(l.cells),
                Cells::Table(_) => {
                    proof {
                        assert(false);
                    }
                    Ok(Vec::new())
                },
            },
        }
    }
}

} // verus!
