//! The Life 1.06 codec: a `#Life 1.06` header line, then one absolute
//! alive-cell coordinate `x y` per non-blank line.

use vstd::prelude::*;
use crate::text::{
    chars_vec, dec_int, dec_isize, int_val, parse_isize, parses_isize, spec_lines, spec_split_ws,
    split_lines, split_ws, string_from_chars,
};
use super::cells::{serialised_list, CellList, Cells};
use super::pattern::{metadata_default, Parse, ParseError, Pattern, Serialise};

verus! {

/// The Life 1.06 format.
pub struct Life106;

/// The header line of a Life 1.06 file.
pub open spec fn header106() -> Seq<char> {
    seq!['#', 'L', 'i', 'f', 'e', ' ', '1', '.', '0', '6']
}

/// Life 1.06 detection: the first line is exactly the header.
pub open spec fn spec_is_type_106(s: Seq<char>) -> bool {
    spec_lines(s).len() > 0 && spec_lines(s)[0] == header106()
}

/// The coordinates read from the lines after the header, one `x y` pair
/// per non-blank line; blank lines are ignored, a line without two
/// tokens or with a token that is no machine integer is refused.
pub open spec fn cells_from_106(lines: Seq<Seq<char>>, i: int) -> Result<
    Seq<(isize, isize)>,
    ParseError,
>
    decreases lines.len() - i,
{
    if i < 0 || i >= lines.len() {
        Ok(Seq::empty())
    } else if lines[i].len() == 0 {
        cells_from_106(lines, i + 1)
    } else {
        let toks = spec_split_ws(lines[i]);
        if toks.len() < 2 {
            Err(ParseError::MissingNumber)
        } else if !parses_isize(toks[0]) || !parses_isize(toks[1]) {
            Err(ParseError::BadNumber)
        } else {
            match cells_from_106(lines, i + 1) {
                Ok(rest) => Ok(
                    seq![((int_val(toks[0]) as isize), (int_val(toks[1]) as isize))] + rest,
                ),
                Err(e) => Err(e),
            }
        }
    }
}

/// What `Life106::parse` returns for a given text: the coordinates of
/// every data line as a sparse list with the origin at `(0, 0)` and
/// default metadata, or the first error.
pub open spec fn parse_rel_106(s: Seq<char>, r: Result<Pattern, ParseError>) -> bool {
    let pc = cells_from_106(spec_lines(s), 1);
    &&& (r is Ok <==> pc is Ok)
    &&& (r is Ok ==> {
        let p = r->Ok_0;
        &&& p.cells is List
        &&& p.cells->List_0.cells@ == pc->Ok_0
        &&& p.cells->List_0.origin == ((0isize, 0isize))
        &&& metadata_default(p.metadata)
    })
    &&& (r is Err ==> r->Err_0 == pc->Err_0)
}

/// The serialised text of a cell sequence: one `x y` line per cell,
/// each preceded by a newline.
pub open spec fn ser_cells_106(cells: Seq<(isize, isize)>, i: int) -> Seq<char>
    decreases cells.len() - i,
{
    if i < 0 || i >= cells.len() {
        Seq::empty()
    } else {
        seq!['\n'] + dec_int(cells[i].0 as int) + seq![' '] + dec_int(cells[i].1 as int)
            + ser_cells_106(cells, i + 1)
    }
}

impl Life106 {
    /// Whether the text's first line is exactly `#Life 1.06`.
    pub fn is_type(file: &str) -> (r: bool)
        ensures
            r == spec_is_type_106(file@),
    {
        let v = chars_vec(file);
        let lines = split_lines(v.as_slice());
        if lines.len() == 0 {
            return false;
        }
        let first = &lines[0];
        let hdr: [char; 10] = ['#', 'L', 'i', 'f', 'e', ' ', '1', '.', '0', '6'];
        let hs: &[char] = vstd::array::array_as_slice(&hdr);
        proof {
            assert(hs@ =~= header106());
            assert(lines.deep_view()[0] == first@);
        }
        if first.len() != 10 {
            proof {
                assert(spec_lines(file@)[0] != header106());
            }
            return false;
        }
        let r = crate::text::starts_with_chars(first.as_slice(), hs);
        proof {
            assert(first@.subrange(0, 10) =~= first@);
        }
        r
    }

    /// Parse a Life 1.06 text: skip the header line, then read one
    /// `x y` coordinate per non-blank line.
    #[verifier::loop_isolation(false)]
    pub fn parse(file: &str) -> (r: Result<Pattern, ParseError>)
        ensures
            parse_rel_106(file@, r),
            r is Ok ==> r->Ok_0.cells.wf(),
    {
        let v = chars_vec(file);
        let lines = split_lines(v.as_slice());
        let ghost ls = lines.deep_view();
        let mut cells = CellList::default();
        let mut i: usize = 1;
        proof {
            if cells_from_106(ls, 1) is Ok {
                assert(cells.cells@ + cells_from_106(ls, 1)->Ok_0 =~= cells_from_106(
                    ls,
                    1,
                )->Ok_0);
            }
        }
        while i < lines.len()
            invariant
                1 <= i,
                ls == lines.deep_view(),
                cells.origin == ((0isize, 0isize)),
                cells_from_106(ls, 1) is Ok <==> cells_from_106(ls, i as int) is Ok,
                cells_from_106(ls, 1) is Ok ==> cells_from_106(ls, 1)->Ok_0 == cells.cells@
                    + cells_from_106(ls, i as int)->Ok_0,
                cells_from_106(ls, 1) is Err ==> cells_from_106(ls, 1)->Err_0 == cells_from_106(
                    ls,
                    i as int,
                )->Err_0,
            decreases lines.len() - i,
        {
            let line = &lines[i];
            proof {
                assert(ls[i as int] == line@);
            }
            if line.len() > 0 {
                let toks = split_ws(line.as_slice());
                let ghost tseq = spec_split_ws(line@);
                if toks.len() < 2 {
                    proof {
                        assert(cells_from_106(ls, i as int) == Err::<
                            Seq<(isize, isize)>,
                            ParseError,
                        >(ParseError::MissingNumber));
                    }
                    return Err(ParseError::MissingNumber);
                }
                proof {
                    assert(toks.deep_view()[0] == toks@[0]@);
                    assert(toks.deep_view()[1] == toks@[1]@);
                }
                let x = match parse_isize(toks[0].as_slice()) {
                    Some(x) => x,
                    None => {
                        proof {
                            assert(cells_from_106(ls, i as int) == Err::<
                                Seq<(isize, isize)>,
                                ParseError,
                            >(ParseError::BadNumber));
                        }
                        return Err(ParseError::BadNumber);
                    },
                };
                let y = match parse_isize(toks[1].as_slice()) {
                    Some(y) => y,
                    None => {
                        proof {
                            assert(parses_isize(tseq[0]));
                            assert(cells_from_106(ls, i as int) == Err::<
                                Seq<(isize, isize)>,
                                ParseError,
                            >(ParseError::BadNumber));
                        }
                        return Err(ParseError::BadNumber);
                    },
                };
                let ghost old_cells = cells.cells@;
                cells.push((x, y));
                proof {
                    let rest = cells_from_106(ls, i + 1);
                    assert(cells_from_106(ls, i as int) == (match rest {
                        Ok(r0) => Ok::<Seq<(isize, isize)>, ParseError>(
                            seq![((x), (y))] + r0,
                        ),
                        Err(e) => Err::<Seq<(isize, isize)>, ParseError>(e),
                    }));
                    if cells_from_106(ls, 1) is Ok {
                        assert(cells.cells@ + rest->Ok_0 =~= old_cells + (seq![((x), (y))]
                            + rest->Ok_0));
                    }
                }
            }
            i = i + 1;
        }
        proof {
            assert(cells_from_106(ls, i as int) is Ok);
            assert(cells_from_106(ls, i as int)->Ok_0 =~= Seq::<(isize, isize)>::empty());
            assert(cells.cells@ + cells_from_106(ls, i as int)->Ok_0 =~= cells.cells@);
        }
        let mut pattern = Pattern::default();
        pattern.cells = Cells::List(cells);
        Ok(pattern)
    }

    /// Serialise as Life 1.06: the header line, then one `x y` line per
    /// alive cell, in the order the list holds them.
    pub fn serialise(output: &mut String, pattern: Pattern) -> (r: Result<(), ParseError>)
        requires
            pattern.cells.wf(),
        ensures
            r is Ok,
            final(output)@ == old(output)@ + header106() + ser_cells_106(
                serialised_list(pattern.cells),
                0,
            ),
    {
        let list = pattern.cells.into_cell_list();
        let ghost cs = list.cells@;
        let mut out: Vec<char> = Vec::new();
        out.push('#');
        out.push('L');
        out.push('i');
        out.push('f');
        out.push('e');
        out.push(' ');
        out.push('1');
        out.push('.');
        out.push('0');
        out.push('6');
        proof {
            assert(out@ =~= header106());
            assert(out@ + ser_cells_106(cs, 0) =~= header106() + ser_cells_106(cs, 0));
        }
        let mut i: usize = 0;
        while i < list.cells.len()
            invariant
                i <= cs.len(),
                cs == list.cells@,
                header106() + ser_cells_106(cs, 0) == out@ + ser_cells_106(cs, i as int),
            decreases list.cells.len() - i,
        {
            let c = list.cells[i];
            let ghost entry = out@;
            out.push('\n');
            let xd = dec_isize(c.0);
            crate::text::push_chars(&mut out, xd.as_slice());
            out.push(' ');
            let yd = dec_isize(c.1);
            crate::text::push_chars(&mut out, yd.as_slice());
            proof {
                assert(out@ =~= entry + (seq!['\n'] + dec_int(c.0 as int) + seq![' '] + dec_int(
                    c.1 as int,
                )));
                assert(ser_cells_106(cs, i as int) == seq!['\n'] + dec_int(cs[i as int].0 as int)
                    + seq![' '] + dec_int(cs[i as int].1 as int) + ser_cells_106(cs, i + 1));
                assert(out@ + ser_cells_106(cs, i + 1) =~= entry + ser_cells_106(cs, i as int));
            }
            i = i + 1;
        }
        proof {
            assert(ser_cells_106(cs, i as int) =~= Seq::<char>::empty());
            assert(out@ =~= header106() + ser_cells_106(cs, 0));
        }
        let text = string_from_chars(out.as_slice());
        output.append(text.as_str());
        Ok(())
    }
}

/// One serialised coordinate line.
pub open spec fn line_106(c: (isize, isize)) -> Seq<char> {
    dec_int(c.0 as int) + seq![' '] + dec_int(c.1 as int)
}

/// The serialised coordinate lines from cell `i` on.
pub open spec fn lines_106(cells: Seq<(isize, isize)>, i: int) -> Seq<Seq<char>>
    decreases cells.len() - i,
{
    if i < 0 || i >= cells.len() {
        Seq::empty()
    } else {
        seq![line_106(cells[i])] + lines_106(cells, i + 1)
    }
}

/// A coordinate line is non-empty and free of newlines and whitespace
/// other than its single separating space.
proof fn lemma_line_106(c: (isize, isize))
    ensures
        line_106(c).len() > 0,
        forall|j: int| 0 <= j < line_106(c).len() ==> #[trigger] line_106(c)[j] != '\n',
        line_106(c)[line_106(c).len() - 1] != '\r',
{
    crate::text::lemma_dec_int(c.0 as int);
    crate::text::lemma_dec_int(c.1 as int);
    let a = dec_int(c.0 as int);
    let b = dec_int(c.1 as int);
    assert forall|j: int| 0 <= j < line_106(c).len() implies #[trigger] line_106(c)[j]
        != '\n' by {
        if j < a.len() {
            assert(line_106(c)[j] == a[j]);
        } else if j == a.len() {
            assert(line_106(c)[j] == ' ');
        } else {
            assert(line_106(c)[j] == b[j - a.len() - 1]);
        }
    }
    assert(line_106(c)[line_106(c).len() - 1] == b[b.len() - 1]);
    assert(!crate::text::is_ws(b[b.len() - 1]));
}

/// The serialised text of the cells from `i` on splits into one line
/// per cell, after any newline-free opening line.
proof fn lemma_ser_lines_106(a: Seq<char>, cells: Seq<(isize, isize)>, i: int)
    requires
        a.len() > 0,
        forall|j: int| 0 <= j < a.len() ==> #[trigger] a[j] != '\n',
        a[a.len() - 1] != '\r',
        0 <= i <= cells.len(),
    ensures
        spec_lines(a + ser_cells_106(cells, i)) == seq![a] + lines_106(cells, i),
    decreases cells.len() - i,
{
    if i == cells.len() {
        let s = a + ser_cells_106(cells, i);
        assert(s =~= a);
        crate::text::lemma_first_nl(a);
        if crate::text::first_nl(a) < a.len() {
            assert(a[crate::text::first_nl(a)] != '\n');
            assert(false);
        }
        assert(spec_lines(a) =~= seq![a]);
        assert(seq![a] + lines_106(cells, i) =~= seq![a]);
    } else {
        let c = cells[i];
        lemma_line_106(c);
        let rest = line_106(c) + ser_cells_106(cells, i + 1);
        assert(a + ser_cells_106(cells, i) =~= a + seq!['\n'] + rest);
        crate::text::lemma_spec_lines_cons(a, rest);
        lemma_ser_lines_106(line_106(c), cells, i + 1);
        assert(rest == line_106(c) + ser_cells_106(cells, i + 1));
        assert(spec_lines(a + ser_cells_106(cells, i)) =~= seq![a] + (seq![line_106(c)]
            + lines_106(cells, i + 1)));
        assert(seq![a] + lines_106(cells, i) =~= seq![a] + (seq![line_106(c)] + lines_106(
            cells,
            i + 1,
        )));
    }
}

/// The serialised lines by index.
proof fn lemma_lines_106_index(cells: Seq<(isize, isize)>, i: int, k: int)
    requires
        0 <= i <= k < cells.len(),
    ensures
        lines_106(cells, i)[k - i] == line_106(cells[k]),
        lines_106(cells, i).len() == cells.len() - i,
    decreases cells.len() - i,
{
    if i < cells.len() {
        if k > i {
            lemma_lines_106_index(cells, i + 1, k);
        } else {
            if i + 1 <= cells.len() - 1 {
                lemma_lines_106_index(cells, i + 1, i + 1);
            }
        }
    }
}

/// Reading back the serialised lines yields the serialised cells.
proof fn lemma_parse_ser_lines_106(ls: Seq<Seq<char>>, cells: Seq<(isize, isize)>, i: int)
    requires
        ls.len() == 1 + cells.len(),
        forall|k: int| 0 <= k < cells.len() ==> ls[1 + k] == line_106(#[trigger] cells[k]),
        0 <= i <= cells.len(),
    ensures
        cells_from_106(ls, 1 + i) == Ok::<Seq<(isize, isize)>, ParseError>(cells.skip(i)),
    decreases cells.len() - i,
{
    if i == cells.len() {
        assert(cells.skip(i) =~= Seq::<(isize, isize)>::empty());
        assert(cells_from_106(ls, 1 + i) == Ok::<Seq<(isize, isize)>, ParseError>(Seq::empty()));
    } else {
        let c = cells[i];
        let l = ls[1 + i];
        assert(l == line_106(c));
        crate::text::lemma_dec_int(c.0 as int);
        crate::text::lemma_dec_int(c.1 as int);
        let a = dec_int(c.0 as int);
        let b = dec_int(c.1 as int);
        lemma_line_106(c);
        // The line splits into exactly its two numerals.
        crate::text::lemma_split_ws_cons(a, b);
        assert(spec_split_ws(b) =~= seq![b]) by {
            crate::text::lemma_first_ws(b);
            if crate::text::first_ws(b) < b.len() {
                assert(!crate::text::is_ws(b[crate::text::first_ws(b)]));
                assert(false);
            }
            assert(crate::text::first_ws(b) == b.len());
            assert(!crate::text::is_ws(b[0]));
            assert(spec_split_ws(b) == seq![b.subrange(0, b.len() as int)] + spec_split_ws(
                b.subrange(b.len() as int, b.len() as int),
            ));
            assert(b.subrange(0, b.len() as int) =~= b);
            assert(b.subrange(b.len() as int, b.len() as int) =~= Seq::<char>::empty());
            assert(spec_split_ws(Seq::<char>::empty()) =~= Seq::<Seq<char>>::empty());
        }
        let toks = spec_split_ws(l);
        assert(toks =~= seq![a, b]);
        assert(toks.len() == 2);
        assert(parses_isize(toks[0]) && parses_isize(toks[1]));
        assert(int_val(toks[0]) == c.0 as int && int_val(toks[1]) == c.1 as int);
        lemma_parse_ser_lines_106(ls, cells, i + 1);
        assert(l.len() > 0);
        assert(cells_from_106(ls, 1 + i) == Ok::<Seq<(isize, isize)>, ParseError>(
            seq![((int_val(toks[0]) as isize), (int_val(toks[1]) as isize))] + cells.skip(i + 1),
        ));
        assert(seq![((int_val(toks[0]) as isize), (int_val(toks[1]) as isize))] + cells.skip(
            i + 1,
        ) =~= cells.skip(i));
    }
}

/// Round-trip law of the Life 1.06 codec: parsing the serialised text
/// of any cell list yields back exactly that list.
pub proof fn lemma_life106_round_trip(cells: Seq<(isize, isize)>)
    ensures
        cells_from_106(spec_lines(header106() + ser_cells_106(cells, 0)), 1) == Ok::<
            Seq<(isize, isize)>,
            ParseError,
        >(cells),
{
    let hdr = header106();
    assert(hdr.len() == 10);
    assert forall|j: int| 0 <= j < hdr.len() implies #[trigger] hdr[j] != '\n' by {
        assert(hdr[j] == seq!['#', 'L', 'i', 'f', 'e', ' ', '1', '.', '0', '6'][j]);
    }
    assert(hdr[hdr.len() - 1] == '6');
    lemma_ser_lines_106(hdr, cells, 0);
    let ls = seq![hdr] + lines_106(cells, 0);
    if cells.len() > 0 {
        lemma_lines_106_index(cells, 0, 0);
    }
    assert(ls.len() == 1 + cells.len()) by {
        if cells.len() > 0 {
            lemma_lines_106_index(cells, 0, 0);
        } else {
            assert(lines_106(cells, 0) =~= Seq::<Seq<char>>::empty());
        }
    }
    assert forall|k: int| 0 <= k < cells.len() implies ls[1 + k] == line_106(
        #[trigger] cells[k],
    ) by {
        lemma_lines_106_index(cells, 0, k);
    }
    lemma_parse_ser_lines_106(ls, cells, 0);
    assert(cells.skip(0) =~= cells);
}

impl Parse for Life106 {
    open spec fn is_type_spec(s: Seq<char>) -> bool {
        spec_is_type_106(s)
    }

    open spec fn parse_rel(s: Seq<char>, r: Result<Pattern, ParseError>) -> bool {
        parse_rel_106(s, r)
    }

    fn is_type(file: &str) -> (r: bool) {
        Life106::is_type(file)
    }

    fn parse(file: &str) -> (r: Result<Pattern, ParseError>) {
        Life106::parse(file)
    }
}

impl Serialise for Life106 {
    open spec fn spec_output(pattern: Pattern) -> Result<Seq<char>, ParseError> {
        Ok(header106() + ser_cells_106(serialised_list(pattern.cells), 0))
    }

    fn serialise(output: &mut String, pattern: Pattern) -> (r: Result<(), ParseError>) {
        Life106::serialise(output, pattern)
    }
}

} // verus!
