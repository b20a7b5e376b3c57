//! The format-neutral pattern: cell data plus metadata, the errors the
//! codecs report, and the `Parse`/`Serialise` interface each codec
//! implements.

use vstd::prelude::*;
use crate::rule::Rule;
use super::cells::Cells;

verus! {

/// Why a pattern file was rejected, or an operation refused.
#[derive(Debug, Clone, Copy, PartialEq, Eq, Structural)]
pub enum ParseError {
    /// A character no rule of the format allows, with the offender.
    UnexpectedCharacter(char),
    /// A line is missing a required coordinate or count.
    MissingNumber,
    /// A numeral could not be read as a signed machine integer.
    BadNumber,
    /// The required header line is absent.
    MissingHeader,
    /// The pattern data is not closed by its terminator.
    Unterminated,
    /// The requested serialisation is not supported for this format.
    Unsupported,
}

/// Pattern metadata: what the file said about itself.
pub struct Metadata {
    pub name: Option<String>,
    pub description: Option<String>,
    pub author: Option<String>,
    pub generation: Option<usize>,
    pub rule: Rule,
}

/// An optional string field holds exactly the given optional text.
pub open spec fn opt_str_matches(o: Option<String>, s: Option<Seq<char>>) -> bool {
    match o {
        Option::None => s is None,
        Option::Some(v) => s is Some && v@ == s->0,
    }
}

/// Metadata carrying nothing but the classic rule.
pub open spec fn metadata_default(m: Metadata) -> bool {
    &&& m.name is None
    &&& m.description is None
    &&& m.author is None
    &&& m.generation is None
    &&& m.rule.is_normal()
}

impl Default for Metadata {
    /// No name, description, author or generation; the classic rule.
    fn default() -> (r: Metadata)
        ensures
            metadata_default(r),
    {
        Metadata {
            name: None,
            description: None,
            author: None,
            generation: None,
            rule: Rule::normal(),
        }
    }
}

/// The interchange-format-neutral result of parsing: cell data in
/// whichever representation the codec produced, plus metadata.
pub struct Pattern {
    pub cells: Cells,
    pub metadata: Metadata,
}

impl Default for Pattern {
    /// The zero-area table with default metadata.
    fn default() -> (r: Pattern)
        ensures
            r.cells is Table,
            r.cells->Table_0.width == 0,
            r.cells->Table_0.height == 0,
            r.cells.wf(),
            metadata_default(r.metadata),
    {
        Pattern { cells: Cells::default(), metadata: Metadata::default() }
    }
}

/// A codec that can recognise and read its format.
pub trait Parse: Sized {
    /// What this format's content sniff answers for a given text.
    spec fn is_type_spec(s: Seq<char>) -> bool;

    /// What parsing a given text returns: exactly which pattern, or
    /// exactly which error.
    spec fn parse_rel(s: Seq<char>, r: Result<Pattern, ParseError>) -> bool;

    /// Cheap content sniff: whether the text announces this format.
    fn is_type(file: &str) -> (r: bool)
        ensures
            r == Self::is_type_spec(file@),
    ;

    /// Read a complete file's text into a pattern.  The text is a real
    /// string, so its length is within the machine's address range.
    fn parse(file: &str) -> (r: Result<Pattern, ParseError>)
        requires
            file@.len() <= isize::MAX,
        ensures
            Self::parse_rel(file@, r),
            r is Ok ==> r->Ok_0.cells.wf(),
    ;
}

/// A codec that can write its format.
pub trait Serialise: Sized {
    /// The exact text this format serialises a pattern to, or the exact
    /// error it refuses with.
    spec fn spec_output(pattern: Pattern) -> Result<Seq<char>, ParseError>;

    /// Append the pattern's serialised text to `output`.
    fn serialise(output: &mut String, pattern: Pattern) -> (r: Result<(), ParseError>)
        requires
            pattern.cells.wf(),
            pattern.cells.dims_ok(),
        ensures
            (match Self::spec_output(pattern) {
                Ok(t) => r is Ok && final(output)@ == old(output)@ + t,
                Err(e) => r == Err::<(), ParseError>(e) && final(output)@ == old(output)@,
            }),
    ;
}

/// What reading a file's text returns: Life 1.05, Life 1.06 and
/// Plaintext detection are tried in that order, and the RLE codec,
/// which cannot self-identify, is the unconditional fallback.
pub open spec fn parse_contents_rel(s: Seq<char>, r: Result<Pattern, ParseError>) -> bool {
    if super::life105::spec_is_type_105(s) {
        super::life105::parse_rel_105(s, r)
    } else if super::life106::spec_is_type_106(s) {
        super::life106::parse_rel_106(s, r)
    } else if super::plaintext::spec_is_type_pt(s) {
        super::plaintext::parse_rel_pt(s, r)
    } else {
        super::rle::parse_rel_rle(s, r)
    }
}

impl Pattern {
    /// Read a file's text, sniffing the format: Life 1.05, Life 1.06
    /// and Plaintext in that order, with RLE as the fallback.
    pub fn parse_contents(file: &str) -> (r: Result<Pattern, ParseError>)
        requires
            file@.len() <= isize::MAX,
        ensures
            parse_contents_rel(file@, r),
            r is Ok ==> r->Ok_0.cells.wf(),
    {
        if super::life105::Life105::is_type(file) {
            super::life105::Life105::parse(file)
        } else if super::life106::Life106::is_type(file) {
            super::life106::Life106::parse(file)
        } else if super::plaintext::Plaintext::is_type(file) {
            super::plaintext::Plaintext::parse(file)
        } else {
            super::rle::RLE::parse(file)
        }
    }

    /// Read a file's text with the given codec.
    pub fn parse_file_with_type<F: Parse>(file: &str) -> (r: Result<Pattern, ParseError>)
        requires
            file@.len() <= isize::MAX,
        ensures
            F::parse_rel(file@, r),
            r is Ok ==> r->Ok_0.cells.wf(),
    {
        F::parse(file)
    }

    /// Write this pattern with the given codec, appending to `output`.
    pub fn serialise<F: Serialise>(self, output: &mut String) -> (r: Result<(), ParseError>)
        requires
            self.cells.wf(),
            self.cells.dims_ok(),
        ensures
            (match F::spec_output(self) {
                Ok(t) => r is Ok && final(output)@ == old(output)@ + t,
                Err(e) => r == Err::<(), ParseError>(e) && final(output)@ == old(output)@,
            }),
    {
        F::serialise(output, self)
    }
}

} // verus!
