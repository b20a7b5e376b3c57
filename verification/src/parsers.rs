//! Free-function faces of the codecs, and dispatch by file extension:
//! a `.lif`/`.life` file is tried as Life 1.06 then Life 1.05, a
//! `.cells` file as Plaintext, an `.rle` file as RLE.

pub mod life_105;
pub mod life_106;
pub mod plaintext;
pub mod run_length_encoded;

use vstd::prelude::*;
use crate::file::pattern::{ParseError, Pattern};
use crate::file::{Life105, Life106, Plaintext, RLE};
use crate::text::{chars_vec, ends_with, ends_with_chars};

verus! {

/// What type of file a filename announces, by its extension.
pub enum FileType {
    Life,
    PlainText,
    RLE,
}

/// The file type a filename's ending announces, if any.
pub open spec fn spec_file_type(s: Seq<char>) -> Option<FileType> {
    if ends_with(s, seq!['l', 'i', 'f']) || ends_with(s, seq!['l', 'i', 'f', 'e']) {
        Option::Some(FileType::Life)
    } else if ends_with(s, seq!['c', 'e', 'l', 'l', 's']) {
        Option::Some(FileType::PlainText)
    } else if ends_with(s, seq!['r', 'l', 'e']) {
        Option::Some(FileType::RLE)
    } else {
        Option::None
    }
}

impl FileType {
    /// Read the file type from a filename's ending.
    pub fn from_filename(s: &str) -> (r: Option<FileType>)
        ensures
            r == spec_file_type(s@),
    {
        let v = chars_vec(s);
        let lif: [char; 3] = ['l', 'i', 'f'];
        let life: [char; 4] = ['l', 'i', 'f', 'e'];
        let cells: [char; 5] = ['c', 'e', 'l', 'l', 's'];
        let rle: [char; 3] = ['r', 'l', 'e'];
        proof {
            assert(vstd::array::array_as_slice(&lif)@ =~= seq!['l', 'i', 'f']);
            assert(vstd::array::array_as_slice(&life)@ =~= seq!['l', 'i', 'f', 'e']);
            assert(vstd::array::array_as_slice(&cells)@ =~= seq!['c', 'e', 'l', 'l', 's']);
            assert(vstd::array::array_as_slice(&rle)@ =~= seq!['r', 'l', 'e']);
        }
        if ends_with_chars(v.as_slice(), vstd::array::array_as_slice(&lif)) || ends_with_chars(
            v.as_slice(),
            vstd::array::array_as_slice(&life),
        ) {
            Some(FileType::Life)
        } else if ends_with_chars(v.as_slice(), vstd::array::array_as_slice(&cells)) {
            Some(FileType::PlainText)
        } else if ends_with_chars(v.as_slice(), vstd::array::array_as_slice(&rle)) {
            Some(FileType::RLE)
        } else {
            None
        }
    }
}

/// What dispatching a file's text by its announced type returns: a
/// `Life` file must carry one of the two Life headers, a `PlainText`
/// file the `!Name:` marker; an `RLE` file is taken as it is.
pub open spec fn dispatch_rel(t: FileType, s: Seq<char>, r: Result<Pattern, ParseError>) -> bool {
    match t {
        FileType::Life => {
            if crate::file::life106::spec_is_type_106(s) {
                crate::file::life106::parse_rel_106(s, r)
            } else if crate::file::life105::spec_is_type_105(s) {
                crate::file::life105::parse_rel_105(s, r)
            } else {
                r == Err::<Pattern, ParseError>(ParseError::MissingHeader)
            }
        },
        FileType::PlainText => {
            if crate::file::plaintext::spec_is_type_pt(s) {
                crate::file::plaintext::parse_rel_pt(s, r)
            } else {
                r == Err::<Pattern, ParseError>(ParseError::MissingHeader)
            }
        },
        FileType::RLE => crate::file::rle::parse_rel_rle(s, r),
    }
}

/// The extension-directed dispatcher.
pub struct Parser;

impl Parser {
    /// Parse a file's text, the codec chosen by the announced file type:
    /// the compute half of reading a pattern file by its extension.
    pub fn parse_file_contents(file_type: FileType, contents: &str) -> (r: Result<
        Pattern,
        ParseError,
    >)
        requires
            contents@.len() <= isize::MAX,
        ensures
            dispatch_rel(file_type, contents@, r),
            r is Ok ==> r->Ok_0.cells.wf(),
    {
        match file_type {
            FileType::Life => {
                if Life106::is_type(contents) {
                    Life106::parse(contents)
                } else if Life105::is_type(contents) {
                    Life105::parse(contents)
                } else {
                    Err(ParseError::MissingHeader)
                }
            },
            FileType::PlainText => {
                if Plaintext::is_type(contents) {
                    Plaintext::parse(contents)
                } else {
                    Err(ParseError::MissingHeader)
                }
            },
            FileType::RLE => RLE::parse(contents),
        }
    }
}

} // verus!
