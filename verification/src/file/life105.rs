//! The Life 1.05 codec: a `#Life 1.05` header, `#D` description lines,
//! an optional `#N`/`#R` rule line, then blocks of `.`/`*` rows whose
//! origin a `#P x y` line resets.

use vstd::prelude::*;
use crate::rule::{rule_scan, survival_part, birth_part, Rule};
use crate::text::{
    chars_vec, digit_char, int_val, parse_isize, parses_isize, spec_lines, spec_split_ws,
    split_lines, split_ws, starts_with, starts_with_chars, string_from_chars,
};
use super::cells::{CellList, Cells};
use super::pattern::{opt_str_matches, Metadata, Parse, ParseError, Pattern, Serialise};

verus! {

/// The Life 1.05 format.
pub struct Life105;

/// The marker that opens a Life 1.05 file.
pub open spec fn header105() -> Seq<char> {
    seq!['#', 'L', 'i', 'f', 'e', ' ', '1', '.', '0', '5']
}

/// Life 1.05 detection: the text starts with `#Life 1.05`.
pub open spec fn spec_is_type_105(s: Seq<char>) -> bool {
    starts_with(s, header105())
}

/// A line's content past a two-character marker and one separator, as
/// reading a `#D` or `#R` line takes it.
pub open spec fn tail3(l: Seq<char>) -> Seq<char> {
    if l.len() < 3 {
        Seq::empty()
    } else {
        l.skip(3)
    }
}

/// Index of the first line at or after `i` that is no `#D` line.
pub open spec fn d_end(lines: Seq<Seq<char>>, i: int) -> int
    decreases lines.len() - i,
{
    if i < 0 || i >= lines.len() {
        i
    } else if starts_with(lines[i], seq!['#', 'D']) {
        d_end(lines, i + 1)
    } else {
        i
    }
}

pub proof fn lemma_d_end(lines: Seq<Seq<char>>, i: int)
    requires
        0 <= i <= lines.len(),
    ensures
        i <= d_end(lines, i),
        i < lines.len() ==> d_end(lines, i) <= lines.len(),
        forall|j: int| i <= j < d_end(lines, i) ==> starts_with(#[trigger] lines[j], seq!['#', 'D']),
    decreases lines.len() - i,
{
    if i < lines.len() && starts_with(lines[i], seq!['#', 'D']) {
        lemma_d_end(lines, i + 1);
    }
}

/// The description: the contents of the `#D` lines in `[i, k)`,
/// concatenated as they stand.
pub open spec fn d_concat(lines: Seq<Seq<char>>, i: int, k: int) -> Seq<char>
    decreases k - i,
{
    if i < 0 || i >= k || k > lines.len() {
        Seq::empty()
    } else {
        tail3(lines[i]) + d_concat(lines, i + 1, k)
    }
}

/// The alive cells of one `.`/`*` row from column `j` on; `x` is the
/// board coordinate of that column.  A cell outside the machine's
/// coordinate range is refused, as is any other character.
pub open spec fn l105_row(l: Seq<char>, j: int, x: int, y: int) -> Result<
    Seq<(isize, isize)>,
    ParseError,
>
    decreases l.len() - j,
{
    if j < 0 || j >= l.len() {
        Ok(Seq::empty())
    } else if l[j] == '.' {
        l105_row(l, j + 1, x + 1, y)
    } else if l[j] == '*' {
        if x < isize::MIN || x > isize::MAX || y < isize::MIN || y > isize::MAX {
            Err(ParseError::BadNumber)
        } else {
            match l105_row(l, j + 1, x + 1, y) {
                Ok(rest) => Ok(seq![((x as isize), (y as isize))] + rest),
                Err(e) => Err(e),
            }
        }
    } else {
        Err(ParseError::UnexpectedCharacter(l[j]))
    }
}

/// The alive cells of the block lines from line `i` on.  Each line
/// advances the row counter by one; a `#P x y` line instead resets the
/// block origin to `x` and the row counter to `y` (the following row
/// lands below it).
pub open spec fn l105_blocks(lines: Seq<Seq<char>>, i: int, base_x: int, y: int) -> Result<
    Seq<(isize, isize)>,
    ParseError,
>
    decreases lines.len() - i,
{
    if i < 0 || i >= lines.len() {
        Ok(Seq::empty())
    } else if starts_with(lines[i], seq!['#', 'P']) {
        let toks = spec_split_ws(lines[i]);
        if toks.len() < 3 {
            Err(ParseError::MissingNumber)
        } else if !parses_isize(toks[1]) || !parses_isize(toks[2]) {
            Err(ParseError::BadNumber)
        } else {
            l105_blocks(lines, i + 1, int_val(toks[1]), int_val(toks[2]))
        }
    } else {
        match l105_row(lines[i], 0, base_x, y + 1) {
            Err(e) => Err(e),
            Ok(row) => match l105_blocks(lines, i + 1, base_x, y + 1) {
                Err(e) => Err(e),
                Ok(rest) => Ok(row + rest),
            },
        }
    }
}

/// What `Life105::parse` returns for a given text.
pub open spec fn parse_rel_105(s: Seq<char>, r: Result<Pattern, ParseError>) -> bool {
    let lines = spec_lines(s);
    let k = d_end(lines, 1);
    let has_n = k < lines.len() && starts_with(lines[k], seq!['#', 'N']);
    let has_r = !has_n && k < lines.len() && starts_with(lines[k], seq!['#', 'R']);
    if has_r && rule_scan(tail3(lines[k]), false) is Some {
        r == Err::<Pattern, ParseError>(
            ParseError::UnexpectedCharacter(rule_scan(tail3(lines[k]), false)->Some_0),
        )
    } else {
        let start = if has_n || has_r {
            k + 1
        } else {
            k
        };
        let pc = l105_blocks(lines, start, 0, -1);
        &&& (r is Ok <==> pc is Ok)
        &&& (r is Ok ==> {
            let p = r->Ok_0;
            &&& p.cells is List
            &&& p.cells->List_0.cells@ == pc->Ok_0
            &&& p.cells->List_0.origin == ((0isize, 0isize))
            &&& p.metadata.name is None
            &&& p.metadata.author is None
            &&& p.metadata.generation is None
            &&& opt_str_matches(
                p.metadata.description,
                if d_concat(lines, 1, k).len() == 0 {
                    Option::None
                } else {
                    Option::Some(d_concat(lines, 1, k))
                },
            )
            &&& (has_r ==> forall|n: int|
                0 <= n < 9 ==> ((p.metadata.rule.spec_survival(n) <==> survival_part(
                    tail3(lines[k]),
                ).contains(digit_char(n))) && (p.metadata.rule.spec_birth(n) <==> birth_part(
                    tail3(lines[k]),
                ).contains(digit_char(n)))))
            &&& (!has_r ==> p.metadata.rule.is_normal())
        })
        &&& (r is Err ==> r->Err_0 == pc->Err_0)
    }
}

impl Life105 {
    /// Whether the text starts with `#Life 1.05`.
    pub fn is_type(file: &str) -> (r: bool)
        ensures
            r == spec_is_type_105(file@),
    {
        let v = chars_vec(file);
        let pfx: [char; 10] = ['#', 'L', 'i', 'f', 'e', ' ', '1', '.', '0', '5'];
        let ps: &[char] = vstd::array::array_as_slice(&pfx);
        proof {
            assert(ps@ =~= header105());
        }
        starts_with_chars(v.as_slice(), ps)
    }

    /// Parse a Life 1.05 text: skip the header, gather `#D` description
    /// lines, read an optional `#N` or `#R` rule line, then read the
    /// `.`/`*` block rows, with `#P` lines resetting the block origin.
    #[verifier::loop_isolation(false)]
    #[verifier::rlimit(60)]
    pub fn parse(file: &str) -> (r: Result<Pattern, ParseError>)
        requires
            file@.len() <= isize::MAX,
        ensures
            parse_rel_105(file@, r),
            r is Ok ==> r->Ok_0.cells.wf(),
    {
        let v = chars_vec(file);
        let lines = split_lines(v.as_slice());
        let ghost ls = lines.deep_view();
        proof {
            crate::text::lemma_spec_lines_len(file@);
        }
        let dpfx: [char; 2] = ['#', 'D'];
        let dps: &[char] = vstd::array::array_as_slice(&dpfx);
        proof {
            assert(dps@ =~= seq!['#', 'D']);
        }
        // The `#D` block.
        let mut k: usize = 1;
        while k < lines.len() && starts_with_chars(lines[k].as_slice(), dps)
            invariant
                1 <= k,
                k <= ls.len() || k == 1,
                d_end(ls, 1) == d_end(ls, k as int),
            decreases lines.len() - k,
        {
            proof {
                assert(ls[k as int] == lines@[k as int]@);
                assert(starts_with(ls[k as int], seq!['#', 'D']));
            }
            k = k + 1;
        }
        proof {
            if (k as int) < ls.len() {
                assert(ls[k as int] == lines@[k as int]@);
                assert(!starts_with(ls[k as int], seq!['#', 'D']));
            }
            assert(d_end(ls, k as int) == k as int);
        }
        // The description: `#D` line contents, concatenated.
        let mut desc: Vec<char> = Vec::new();
        let mut i: usize = 1;
        proof {
            assert(desc@ + d_concat(ls, 1, k as int) =~= d_concat(ls, 1, k as int));
        }
        while i < k
            invariant
                1 <= i,
                k <= ls.len() || i >= k,
                d_concat(ls, 1, k as int) == desc@ + d_concat(ls, i as int, k as int),
            decreases k - i,
        {
            let line = &lines[i];
            proof {
                assert(ls[i as int] == line@);
            }
            let ghost entry = desc@;
            if line.len() >= 3 {
                let rest = vstd::slice::slice_subrange(line.as_slice(), 3, line.len());
                proof {
                    assert(rest@ =~= tail3(line@));
                }
                crate::text::push_chars(&mut desc, rest);
            } else {
                proof {
                    assert(tail3(line@) =~= Seq::<char>::empty());
                }
            }
            proof {
                assert(desc@ =~= entry + tail3(ls[i as int]));
                assert(desc@ + d_concat(ls, i + 1, k as int) =~= entry + d_concat(
                    ls,
                    i as int,
                    k as int,
                ));
            }
            i = i + 1;
        }
        proof {
            assert(d_concat(ls, i as int, k as int) =~= Seq::<char>::empty());
            assert(desc@ =~= d_concat(ls, 1, k as int));
        }
        let mut metadata = Metadata::default();
        if desc.len() > 0 {
            metadata.description = Some(string_from_chars(desc.as_slice()));
        }
        // The optional rule line.
        let ghost has_n = (k as int) < ls.len() && starts_with(ls[k as int], seq!['#', 'N']);
        let ghost has_r = !has_n && (k as int) < ls.len() && starts_with(
            ls[k as int],
            seq!['#', 'R'],
        );
        let mut start: usize = k;
        if k < lines.len() {
            let line = &lines[k];
            proof {
                assert(ls[k as int] == line@);
            }
            let npfx: [char; 2] = ['#', 'N'];
            let nps: &[char] = vstd::array::array_as_slice(&npfx);
            let rpfx: [char; 2] = ['#', 'R'];
            let rps: &[char] = vstd::array::array_as_slice(&rpfx);
            proof {
                assert(nps@ =~= seq!['#', 'N']);
                assert(rps@ =~= seq!['#', 'R']);
            }
            if starts_with_chars(line.as_slice(), nps) {
                start = k + 1;
                metadata.rule = Rule::normal();
            } else if starts_with_chars(line.as_slice(), rps) {
                let tail: &[char] = if line.len() >= 3 {
                    vstd::slice::slice_subrange(line.as_slice(), 3, line.len())
                } else {
                    vstd::slice::slice_subrange(line.as_slice(), 0, 0)
                };
                proof {
                    assert(tail@ =~= tail3(line@));
                }
                match Rule::from_rule_string(tail) {
                    Ok(rl) => {
                        metadata.rule = rl;
                        start = k + 1;
                    },
                    Err(c) => {
                        return Err(ParseError::UnexpectedCharacter(c));
                    },
                }
            }
        }
        // The block rows.
        let ghost gstart = start as int;
        let mut cells = CellList::default();
        let mut i: usize = start;
        let mut base_x: isize = 0;
        let mut y: i128 = -1;
        let ppfx: [char; 2] = ['#', 'P'];
        let pps: &[char] = vstd::array::array_as_slice(&ppfx);
        proof {
            assert(pps@ =~= seq!['#', 'P']);
            if l105_blocks(ls, gstart, 0, -1) is Ok {
                assert(cells.cells@ + l105_blocks(ls, gstart, 0, -1)->Ok_0 =~= l105_blocks(
                    ls,
                    gstart,
                    0,
                    -1,
                )->Ok_0);
            }
        }
        while i < lines.len()
            invariant
                gstart <= i,
                cells.origin == ((0isize, 0isize)),
                isize::MIN <= y <= isize::MAX as i128 + (i - gstart),
                i - gstart <= ls.len(),
                l105_blocks(ls, gstart, 0, -1) is Ok <==> l105_blocks(
                    ls,
                    i as int,
                    base_x as int,
                    y as int,
                ) is Ok,
                l105_blocks(ls, gstart, 0, -1) is Ok ==> l105_blocks(ls, gstart, 0, -1)->Ok_0
                    == cells.cells@ + l105_blocks(ls, i as int, base_x as int, y as int)->Ok_0,
                l105_blocks(ls, gstart, 0, -1) is Err ==> l105_blocks(ls, gstart, 0, -1)->Err_0
                    == l105_blocks(ls, i as int, base_x as int, y as int)->Err_0,
            decreases lines.len() - i,
        {
            let line = &lines[i];
            let ghost l = ls[i as int];
            proof {
                assert(l == line@);
            }
            if starts_with_chars(line.as_slice(), pps) {
                let toks = split_ws(line.as_slice());
                let ghost tseq = spec_split_ws(l);
                if toks.len() < 3 {
                    proof {
                        assert(l105_blocks(ls, i as int, base_x as int, y as int) == Err::<
                            Seq<(isize, isize)>,
                            ParseError,
                        >(ParseError::MissingNumber));
                    }
                    return Err(ParseError::MissingNumber);
                }
                proof {
                    assert(toks.deep_view()[1] == toks@[1]@);
                    assert(toks.deep_view()[2] == toks@[2]@);
                }
                let bx = match parse_isize(toks[1].as_slice()) {
                    Some(x) => x,
                    None => {
                        proof {
                            assert(l105_blocks(ls, i as int, base_x as int, y as int) == Err::<
                                Seq<(isize, isize)>,
                                ParseError,
                            >(ParseError::BadNumber));
                        }
                        return Err(ParseError::BadNumber);
                    },
                };
                let ny = match parse_isize(toks[2].as_slice()) {
                    Some(v) => v,
                    None => {
                        proof {
                            assert(parses_isize(tseq[1]));
                            assert(l105_blocks(ls, i as int, base_x as int, y as int) == Err::<
                                Seq<(isize, isize)>,
                                ParseError,
                            >(ParseError::BadNumber));
                        }
                        return Err(ParseError::BadNumber);
                    },
                };
                base_x = bx;
                y = ny as i128;
            } else {
                // A `.`/`*` row at row y + 1.
                y = y + 1;
                let mut x: i128 = base_x as i128;
                let ghost row_entry = cells.cells@;
                let mut j: usize = 0;
                proof {
                    if l105_row(l, 0, base_x as int, y as int) is Ok {
                        assert(Seq::<(isize, isize)>::empty() + l105_row(
                            l,
                            0,
                            base_x as int,
                            y as int,
                        )->Ok_0 =~= l105_row(l, 0, base_x as int, y as int)->Ok_0);
                    }
                }
                while j < line.len()
                    invariant
                        j <= l.len(),
                        x == base_x as i128 + j,
                        cells.origin == ((0isize, 0isize)),
                        l105_row(l, 0, base_x as int, y as int) is Ok <==> l105_row(
                            l,
                            j as int,
                            x as int,
                            y as int,
                        ) is Ok,
                        l105_row(l, 0, base_x as int, y as int) is Ok ==> l105_row(
                            l,
                            0,
                            base_x as int,
                            y as int,
                        )->Ok_0 == (cells.cells@.skip(row_entry.len() as int)) + l105_row(
                            l,
                            j as int,
                            x as int,
                            y as int,
                        )->Ok_0,
                        l105_row(l, 0, base_x as int, y as int) is Err ==> l105_row(
                            l,
                            0,
                            base_x as int,
                            y as int,
                        )->Err_0 == l105_row(l, j as int, x as int, y as int)->Err_0,
                        cells.cells@.len() >= row_entry.len(),
                        cells.cells@.subrange(0, row_entry.len() as int) == row_entry,
                    decreases line.len() - j,
                {
                    let c = line[j];
                    if c == '.' {
                    } else if c == '*' {
                        if x < isize::MIN as i128 || x > isize::MAX as i128 || y < isize::MIN
                            as i128 || y > isize::MAX as i128 {
                            proof {
                                assert(l105_row(l, j as int, x as int, y as int) == Err::<
                                    Seq<(isize, isize)>,
                                    ParseError,
                                >(ParseError::BadNumber));
                            }
                            return Err(ParseError::BadNumber);
                        }
                        let ghost old_cells = cells.cells@;
                        cells.push(((x as isize), (y as isize)));
                        proof {
                            assert(x as isize as int == x as int);
                            assert(y as isize as int == y as int);
                            assert(l105_row(l, j as int, x as int, y as int) == (match l105_row(
                                l,
                                j + 1,
                                x as int + 1,
                                y as int,
                            ) {
                                Ok(rest) => Ok::<Seq<(isize, isize)>, ParseError>(
                                    seq![(((x as int) as isize), ((y as int) as isize))] + rest,
                                ),
                                Err(e) => Err::<Seq<(isize, isize)>, ParseError>(e),
                            }));
                            assert(cells.cells@.subrange(0, row_entry.len() as int)
                                =~= row_entry);
                            if l105_row(l, 0, base_x as int, y as int) is Ok {
                                assert(cells.cells@.skip(row_entry.len() as int)
                                    =~= old_cells.skip(row_entry.len() as int).push(
                                    ((x as isize), (y as isize)),
                                ));
                                assert((cells.cells@.skip(row_entry.len() as int)) + l105_row(
                                    l,
                                    j + 1,
                                    x as int + 1,
                                    y as int,
                                )->Ok_0 =~= (old_cells.skip(row_entry.len() as int)) + l105_row(
                                    l,
                                    j as int,
                                    x as int,
                                    y as int,
                                )->Ok_0);
                            }
                        }
                    } else {
                        proof {
                            assert(l105_row(l, j as int, x as int, y as int) == Err::<
                                Seq<(isize, isize)>,
                                ParseError,
                            >(ParseError::UnexpectedCharacter(l[j as int])));
                            assert(l105_blocks(ls, i as int, base_x as int, (y - 1) as int)
                                is Err);
                        }
                        return Err(ParseError::UnexpectedCharacter(c));
                    }
                    x = x + 1;
                    j = j + 1;
                }
                proof {
                    assert(l105_row(l, j as int, x as int, y as int) is Ok);
                    assert(l105_row(l, j as int, x as int, y as int)->Ok_0 =~= Seq::<
                        (isize, isize),
                    >::empty());
                    assert(l105_row(l, 0, base_x as int, y as int) is Ok);
                    assert(l105_row(l, 0, base_x as int, y as int)->Ok_0 =~= cells.cells@.skip(
                        row_entry.len() as int,
                    ));
                    if l105_blocks(ls, gstart, 0, -1) is Ok {
                        assert(cells.cells@ =~= row_entry + cells.cells@.skip(
                            row_entry.len() as int,
                        ));
                        assert(cells.cells@ + l105_blocks(ls, i + 1, base_x as int, y as int)->Ok_0
                            =~= row_entry + (l105_row(l, 0, base_x as int, y as int)->Ok_0
                            + l105_blocks(ls, i + 1, base_x as int, y as int)->Ok_0));
                    }
                }
            }
            i = i + 1;
        }
        proof {
            assert(l105_blocks(ls, i as int, base_x as int, y as int) is Ok);
            assert(l105_blocks(ls, i as int, base_x as int, y as int)->Ok_0 =~= Seq::<
                (isize, isize),
            >::empty());
            assert(cells.cells@ + l105_blocks(ls, i as int, base_x as int, y as int)->Ok_0
                =~= cells.cells@);
        }
        Ok(Pattern { cells: Cells::List(cells), metadata })
    }

    /// Life 1.05 serialisation is not supported; the caller gets an
    /// explicit error instead.
    pub fn serialise(output: &mut String, pattern: Pattern) -> (r: Result<(), ParseError>)
        ensures
            r == Err::<(), ParseError>(ParseError::Unsupported),
            final(output)@ == old(output)@,
    {
        let _ = pattern;
        Err(ParseError::Unsupported)
    }
}

impl Parse for Life105 {
    open spec fn is_type_spec(s: Seq<char>) -> bool {
        spec_is_type_105(s)
    }

    open spec fn parse_rel(s: Seq<char>, r: Result<Pattern, ParseError>) -> bool {
        parse_rel_105(s, r)
    }

    fn is_type(file: &str) -> (r: bool) {
        Life105::is_type(file)
    }

    fn parse(file: &str) -> (r: Result<Pattern, ParseError>) {
        Life105::parse(file)
    }
}

impl Serialise for Life105 {
    open spec fn spec_output(pattern: Pattern) -> Result<Seq<char>, ParseError> {
        Err(ParseError::Unsupported)
    }

    fn serialise(output: &mut String, pattern: Pattern) -> (r: Result<(), ParseError>) {
        Life105::serialise(output, pattern)
    }
}

} // verus!
