//! The Plaintext codec: a `!Name:` line, optional further `!`-prefixed
//! metadata lines, then a dense grid of `O` (alive) and `.` (dead).

use vstd::prelude::*;
use crate::text::{
    chars_vec, spec_lines, spec_trim, split_lines, starts_with, starts_with_chars,
    string_from_chars, trim_chars,
};
use super::cells::{cells_at, cells_height, cells_width, CellList, Cells};
use super::pattern::{opt_str_matches, Metadata, Parse, ParseError, Pattern, Serialise};

verus! {

/// The Plaintext format.
pub struct Plaintext;

/// The `!Name:` marker that opens a Plaintext file.
pub open spec fn name_prefix6() -> Seq<char> {
    seq!['!', 'N', 'a', 'm', 'e', ':']
}

/// The `!Author:` marker of an author line.
pub open spec fn author_prefix8() -> Seq<char> {
    seq!['!', 'A', 'u', 't', 'h', 'o', 'r', ':']
}

/// Plaintext detection: the text starts with `!Name:`.
pub open spec fn spec_is_type_pt(s: Seq<char>) -> bool {
    starts_with(s, name_prefix6())
}

/// A line belongs to the metadata block: it starts with `!`.
pub open spec fn is_bang(l: Seq<char>) -> bool {
    l.len() > 0 && l[0] == '!'
}

/// Index of the first line at or after `i` that does not start with
/// `!`, or the number of lines.
pub open spec fn bang_end(lines: Seq<Seq<char>>, i: int) -> int
    decreases lines.len() - i,
{
    if i < 0 || i >= lines.len() {
        lines.len() as int
    } else if is_bang(lines[i]) {
        bang_end(lines, i + 1)
    } else {
        i
    }
}

pub proof fn lemma_bang_end(lines: Seq<Seq<char>>, i: int)
    requires
        0 <= i <= lines.len(),
    ensures
        i <= bang_end(lines, i) <= lines.len(),
        forall|j: int| i <= j < bang_end(lines, i) ==> is_bang(#[trigger] lines[j]),
    decreases lines.len() - i,
{
    if i < lines.len() && is_bang(lines[i]) {
        lemma_bang_end(lines, i + 1);
    }
}

/// The author named by the last `!Author:` line in `[i, k)`, trimmed.
pub open spec fn last_author(lines: Seq<Seq<char>>, i: int, k: int) -> Option<Seq<char>>
    decreases k - i,
{
    if i < 0 || i >= k || k > lines.len() {
        Option::None
    } else {
        let later = last_author(lines, i + 1, k);
        if later is Some {
            later
        } else if starts_with(lines[i], author_prefix8()) {
            Option::Some(spec_trim(lines[i].skip(8)))
        } else {
            Option::None
        }
    }
}

/// The description: every `!` line in `[i, k)` that is not an author
/// line, trimmed past the `!`, joined with newlines.
pub open spec fn desc_join(lines: Seq<Seq<char>>, i: int, k: int) -> Option<Seq<char>>
    decreases k - i,
{
    if i < 0 || i >= k || k > lines.len() {
        Option::None
    } else if starts_with(lines[i], author_prefix8()) {
        desc_join(lines, i + 1, k)
    } else {
        let d = spec_trim(lines[i].skip(1));
        match desc_join(lines, i + 1, k) {
            Option::None => Option::Some(d),
            Option::Some(rest) => Option::Some(d + seq!['\n'] + rest),
        }
    }
}

/// Join two optional description parts with a newline.
pub open spec fn desc_combine(a: Option<Seq<char>>, b: Option<Seq<char>>) -> Option<Seq<char>> {
    match a {
        Option::None => b,
        Option::Some(d) => match b {
            Option::None => Option::Some(d),
            Option::Some(e) => Option::Some(d + seq!['\n'] + e),
        },
    }
}

/// The first of two options that holds a value.
pub open spec fn opt_or(a: Option<Seq<char>>, b: Option<Seq<char>>) -> Option<Seq<char>> {
    if a is Some {
        a
    } else {
        b
    }
}

/// The alive cells of one grid row from column `x` on: `O` is alive,
/// `.` is dead, anything else is refused.
pub open spec fn pt_row(l: Seq<char>, x: int, y: int) -> Result<Seq<(isize, isize)>, ParseError>
    decreases l.len() - x,
{
    if x < 0 || x >= l.len() {
        Ok(Seq::empty())
    } else if l[x] == 'O' {
        match pt_row(l, x + 1, y) {
            Ok(rest) => Ok(seq![((x as isize), (y as isize))] + rest),
            Err(e) => Err(e),
        }
    } else if l[x] == '.' {
        pt_row(l, x + 1, y)
    } else {
        Err(ParseError::UnexpectedCharacter(l[x]))
    }
}

/// The alive cells of the grid lines from line `i` on, `y` the row
/// index of line `i`.
pub open spec fn pt_cells(lines: Seq<Seq<char>>, i: int, y: int) -> Result<
    Seq<(isize, isize)>,
    ParseError,
>
    decreases lines.len() - i,
{
    if i < 0 || i >= lines.len() {
        Ok(Seq::empty())
    } else {
        match pt_row(lines[i], 0, y) {
            Err(e) => Err(e),
            Ok(row) => match pt_cells(lines, i + 1, y + 1) {
                Err(e) => Err(e),
                Ok(rest) => Ok(row + rest),
            },
        }
    }
}

/// What `Plaintext::parse` returns for a given text.
pub open spec fn parse_rel_pt(s: Seq<char>, r: Result<Pattern, ParseError>) -> bool {
    let lines = spec_lines(s);
    let k = bang_end(lines, 0);
    if k > 0 && !starts_with(lines[0], name_prefix6()) {
        r == Err::<Pattern, ParseError>(ParseError::MissingHeader)
    } else {
        let pc = pt_cells(lines, k, 0);
        &&& (r is Ok <==> pc is Ok)
        &&& (r is Ok ==> {
            let p = r->Ok_0;
            &&& p.cells is List
            &&& p.cells->List_0.cells@ == pc->Ok_0
            &&& p.cells->List_0.origin == ((0isize, 0isize))
            &&& opt_str_matches(
                p.metadata.name,
                if k > 0 {
                    Option::Some(spec_trim(lines[0].skip(6)))
                } else {
                    Option::None
                },
            )
            &&& opt_str_matches(p.metadata.author, last_author(lines, 1, k))
            &&& opt_str_matches(p.metadata.description, desc_join(lines, 1, k))
            &&& p.metadata.generation is None
            &&& p.metadata.rule.is_normal()
        })
        &&& (r is Err ==> r->Err_0 == pc->Err_0)
    }
}

impl Plaintext {
    /// Whether the text starts with `!Name:`.
    pub fn is_type(file: &str) -> (r: bool)
        ensures
            r == spec_is_type_pt(file@),
    {
        let v = chars_vec(file);
        let pfx: [char; 6] = ['!', 'N', 'a', 'm', 'e', ':'];
        let ps: &[char] = vstd::array::array_as_slice(&pfx);
        proof {
            assert(ps@ =~= name_prefix6());
        }
        starts_with_chars(v.as_slice(), ps)
    }

    /// Parse a Plaintext text: the `!Name:` line, any further `!` lines
    /// as author or description, then the `O`/`.` grid read from row 0.
    /// A metadata block that does not open with `!Name:` is refused.
    #[verifier::loop_isolation(false)]
    pub fn parse(file: &str) -> (r: Result<Pattern, ParseError>)
        requires
            file@.len() <= isize::MAX,
        ensures
            parse_rel_pt(file@, r),
            r is Ok ==> r->Ok_0.cells.wf(),
    {
        let v = chars_vec(file);
        let lines = split_lines(v.as_slice());
        let ghost ls = lines.deep_view();
        proof {
            crate::text::lemma_spec_lines_len(file@);
        }
        // The metadata block: leading lines that start with '!'.
        let mut k: usize = 0;
        while k < lines.len() && lines[k].len() > 0 && lines[k][0] == '!'
            invariant
                0 <= k <= ls.len(),
                bang_end(ls, 0) == bang_end(ls, k as int),
            decreases lines.len() - k,
        {
            proof {
                assert(is_bang(ls[k as int]));
            }
            k = k + 1;
        }
        proof {
            if (k as int) < ls.len() {
                assert(!is_bang(ls[k as int]));
            }
            assert(bang_end(ls, k as int) == k as int);
        }
        // The name line.
        let mut name: Option<Vec<char>> = None;
        if k > 0 {
            let first = &lines[0];
            proof {
                assert(ls[0] == first@);
            }
            let pfx: [char; 6] = ['!', 'N', 'a', 'm', 'e', ':'];
            let ps: &[char] = vstd::array::array_as_slice(&pfx);
            proof {
                assert(ps@ =~= name_prefix6());
            }
            if !starts_with_chars(first.as_slice(), ps) {
                return Err(ParseError::MissingHeader);
            }
            let rest = vstd::slice::slice_subrange(first.as_slice(), 6, first.len());
            proof {
                assert(rest@ =~= first@.skip(6));
            }
            name = Some(trim_chars(rest));
        }
        // Author and description lines.
        let mut author: Option<Vec<char>> = None;
        let mut desc: Option<Vec<char>> = None;
        let mut i: usize = 1;
        while i < k
            invariant
                1 <= i,
                k <= ls.len(),
                last_author(ls, 1, k as int) == opt_or(
                    last_author(ls, i as int, k as int),
                    author.deep_view(),
                ),
                desc_join(ls, 1, k as int) == desc_combine(
                    desc.deep_view(),
                    desc_join(ls, i as int, k as int),
                ),
            decreases k - i,
        {
            let line = &lines[i];
            proof {
                assert(ls[i as int] == line@);
            }
            proof {
                lemma_bang_end(ls, 0);
                assert(is_bang(ls[i as int]));
            }
            let apfx: [char; 8] = ['!', 'A', 'u', 't', 'h', 'o', 'r', ':'];
            let aps: &[char] = vstd::array::array_as_slice(&apfx);
            proof {
                assert(aps@ =~= author_prefix8());
            }
            if starts_with_chars(line.as_slice(), aps) {
                let rest = vstd::slice::slice_subrange(line.as_slice(), 8, line.len());
                proof {
                    assert(rest@ =~= line@.skip(8));
                }
                author = Some(trim_chars(rest));
                proof {
                    assert(last_author(ls, i as int, k as int) == opt_or(
                        last_author(ls, i + 1, k as int),
                        Option::Some(spec_trim(ls[i as int].skip(8))),
                    ));
                }
            } else {
                let rest = vstd::slice::slice_subrange(line.as_slice(), 1, line.len());
                proof {
                    assert(line@.len() >= 1) by {
                        assert(is_bang(ls[i as int]));
                    }
                    assert(rest@ =~= line@.skip(1));
                }
                let d = trim_chars(rest);
                let ghost dd = spec_trim(ls[i as int].skip(1));
                let joined: Vec<char> = match desc {
                    None => d,
                    Some(mut o) => {
                        o.push('\n');
                        crate::text::push_chars(&mut o, d.as_slice());
                        o
                    },
                };
                desc = Some(joined);
                proof {
                    assert(desc_join(ls, i as int, k as int) == (match desc_join(
                        ls,
                        i + 1,
                        k as int,
                    ) {
                        Option::None => Option::Some(dd),
                        Option::Some(rest0) => Option::Some(dd + seq!['\n'] + rest0),
                    }));
                    assert(desc_join(ls, 1, k as int) =~~= desc_combine(
                        desc.deep_view(),
                        desc_join(ls, i + 1, k as int),
                    ));
                }
            }
            i = i + 1;
        }
        proof {
            assert(last_author(ls, i as int, k as int) is None);
            assert(desc_join(ls, i as int, k as int) is None);
            assert(last_author(ls, 1, k as int) == author.deep_view());
            assert(desc_join(ls, 1, k as int) == desc_combine(
                desc.deep_view(),
                Option::None,
            ));
            match desc.deep_view() {
                Option::None => {
                    assert(desc_join(ls, 1, k as int) is None);
                },
                Option::Some(d) => {
                    assert(desc_join(ls, 1, k as int) == Option::Some(d));
                },
            }
        }
        // The grid.
        let mut cells = CellList::default();
        let mut i: usize = k;
        let mut y: usize = 0;
        proof {
            if pt_cells(ls, k as int, 0) is Ok {
                assert(cells.cells@ + pt_cells(ls, k as int, 0)->Ok_0 =~= pt_cells(
                    ls,
                    k as int,
                    0,
                )->Ok_0);
            }
        }
        while i < lines.len()
            invariant
                k <= i,
                y == i - k,
                cells.origin == ((0isize, 0isize)),
                pt_cells(ls, k as int, 0) is Ok <==> pt_cells(ls, i as int, y as int) is Ok,
                pt_cells(ls, k as int, 0) is Ok ==> pt_cells(ls, k as int, 0)->Ok_0
                    == cells.cells@ + pt_cells(ls, i as int, y as int)->Ok_0,
                pt_cells(ls, k as int, 0) is Err ==> pt_cells(ls, k as int, 0)->Err_0
                    == pt_cells(ls, i as int, y as int)->Err_0,
            decreases lines.len() - i,
        {
            let line = &lines[i];
            let ghost l = ls[i as int];
            proof {
                assert(l == line@);
            }
            let ghost row_entry = cells.cells@;
            let mut j: usize = 0;
            proof {
                if pt_row(l, 0, y as int) is Ok {
                    assert(Seq::<(isize, isize)>::empty() + pt_row(l, 0, y as int)->Ok_0
                        =~= pt_row(l, 0, y as int)->Ok_0);
                }
            }
            while j < line.len()
                invariant
                    j <= l.len(),
                    cells.origin == ((0isize, 0isize)),
                    pt_row(l, 0, y as int) is Ok <==> pt_row(l, j as int, y as int) is Ok,
                    pt_row(l, 0, y as int) is Ok ==> pt_row(l, 0, y as int)->Ok_0 == (
                    cells.cells@.skip(row_entry.len() as int)) + pt_row(
                        l,
                        j as int,
                        y as int,
                    )->Ok_0,
                    pt_row(l, 0, y as int) is Err ==> pt_row(l, 0, y as int)->Err_0 == pt_row(
                        l,
                        j as int,
                        y as int,
                    )->Err_0,
                    cells.cells@.len() >= row_entry.len(),
                    cells.cells@.subrange(0, row_entry.len() as int) == row_entry,
                decreases line.len() - j,
            {
                let c = line[j];
                if c == 'O' {
                    let ghost old_cells = cells.cells@;
                    cells.push(((j as isize), (y as isize)));
                    proof {
                        assert(j as isize as int == j as int);
                        assert(y as isize as int == y as int);
                        assert(pt_row(l, j as int, y as int) == (match pt_row(
                            l,
                            j + 1,
                            y as int,
                        ) {
                            Ok(rest) => Ok::<Seq<(isize, isize)>, ParseError>(
                                seq![(((j as int) as isize), ((y as int) as isize))] + rest,
                            ),
                            Err(e) => Err::<Seq<(isize, isize)>, ParseError>(e),
                        }));
                        assert(cells.cells@.subrange(0, row_entry.len() as int) =~= row_entry);
                        if pt_row(l, 0, y as int) is Ok {
                            assert(cells.cells@.skip(row_entry.len() as int) =~= old_cells.skip(
                                row_entry.len() as int,
                            ).push(((j as isize), (y as isize))));
                            assert((cells.cells@.skip(row_entry.len() as int)) + pt_row(
                                l,
                                j + 1,
                                y as int,
                            )->Ok_0 =~= (old_cells.skip(row_entry.len() as int)) + pt_row(
                                l,
                                j as int,
                                y as int,
                            )->Ok_0);
                        }
                    }
                } else if c == '.' {
                } else {
                    proof {
                        assert(pt_row(l, j as int, y as int) == Err::<
                            Seq<(isize, isize)>,
                            ParseError,
                        >(ParseError::UnexpectedCharacter(l[j as int])));
                        assert(pt_cells(ls, i as int, y as int) is Err);
                    }
                    return Err(ParseError::UnexpectedCharacter(c));
                }
                j = j + 1;
            }
            proof {
                assert(pt_row(l, j as int, y as int) is Ok);
                assert(pt_row(l, j as int, y as int)->Ok_0 =~= Seq::<(isize, isize)>::empty());
                assert(pt_row(l, 0, y as int) is Ok);
                assert(pt_row(l, 0, y as int)->Ok_0 =~= cells.cells@.skip(row_entry.len() as int));
                if pt_cells(ls, k as int, 0) is Ok {
                    assert(cells.cells@ =~= row_entry + cells.cells@.skip(row_entry.len() as int));
                    assert(cells.cells@ + pt_cells(ls, i + 1, y + 1)->Ok_0 =~= row_entry + (pt_row(
                        l,
                        0,
                        y as int,
                    )->Ok_0 + pt_cells(ls, i + 1, y + 1)->Ok_0));
                }
            }
            i = i + 1;
            y = y + 1;
        }
        proof {
            assert(pt_cells(ls, i as int, y as int) is Ok);
            assert(pt_cells(ls, i as int, y as int)->Ok_0 =~= Seq::<(isize, isize)>::empty());
            assert(cells.cells@ + pt_cells(ls, i as int, y as int)->Ok_0 =~= cells.cells@);
        }
        // Assemble the pattern.
        let mut metadata = Metadata::default();
        metadata.name = match name {
            None => None,
            Some(n) => Some(string_from_chars(n.as_slice())),
        };
        metadata.author = match author {
            None => None,
            Some(a) => {
                proof {
                    assert(a.deep_view() =~= a@);
                }
                Some(string_from_chars(a.as_slice()))
            },
        };
        metadata.description = match desc {
            None => None,
            Some(d) => {
                proof {
                    assert(d.deep_view() =~= d@);
                }
                Some(string_from_chars(d.as_slice()))
            },
        };
        Ok(Pattern { cells: Cells::List(cells), metadata })
    }
}

/// The name written when the pattern has none.
pub open spec fn default_name() -> Seq<char> {
    seq![
        'E',
        'x',
        'p',
        'o',
        'r',
        't',
        'e',
        'd',
        ' ',
        'b',
        'y',
        ' ',
        'g',
        'a',
        'm',
        'e',
        '-',
        'o',
        'f',
        '-',
        'l',
        'i',
        'f',
        'e',
    ]
}

/// The serialised name line.
pub open spec fn name_part(n: Option<String>) -> Seq<char> {
    seq!['!', 'N', 'a', 'm', 'e', ':', ' '] + match n {
        Option::Some(s) => s@,
        Option::None => default_name(),
    }
}

/// The serialised author line, if any.
pub open spec fn author_part(a: Option<String>) -> Seq<char> {
    match a {
        Option::None => Seq::empty(),
        Option::Some(s) => seq!['\n', '!', 'A', 'u', 't', 'h', 'o', 'r', ':', ' '] + s@,
    }
}

/// The serialised description lines from line `i` on, each prefixed
/// with `!` on its own line.
pub open spec fn desc_lines_part(lines: Seq<Seq<char>>, i: int) -> Seq<char>
    decreases lines.len() - i,
{
    if i < 0 || i >= lines.len() {
        Seq::empty()
    } else {
        seq!['\n', '!'] + lines[i] + desc_lines_part(lines, i + 1)
    }
}

/// The serialised description, if any.
pub open spec fn desc_part(d: Option<String>) -> Seq<char> {
    match d {
        Option::None => Seq::empty(),
        Option::Some(s) => desc_lines_part(spec_lines(s@), 0),
    }
}

/// One serialised grid row.
pub open spec fn pt_row_chars(c: Cells, y: int) -> Seq<char> {
    Seq::new(
        cells_width(c) as nat,
        |x: int|
            if cells_at(c, x, y) == crate::CellState::Alive {
                'O'
            } else {
                '.'
            },
    )
}

/// The serialised grid rows from row `y` on, each on its own line.
pub open spec fn pt_rows(c: Cells, y: int) -> Seq<char>
    decreases cells_height(c) - y,
{
    if y < 0 || y >= cells_height(c) {
        Seq::empty()
    } else {
        seq!['\n'] + pt_row_chars(c, y) + pt_rows(c, y + 1)
    }
}

impl Plaintext {
    /// Serialise as Plaintext: the name line (a default name when the
    /// pattern has none), an author line if known, the description
    /// lines each behind `!`, then the grid, one `O`/`.` row per line.
    #[verifier::loop_isolation(false)]
    #[verifier::rlimit(60)]
    pub fn serialise(output: &mut String, pattern: Pattern) -> (r: Result<(), ParseError>)
        requires
            pattern.cells.wf(),
            pattern.cells.dims_ok(),
        ensures
            r is Ok,
            final(output)@ == old(output)@ + name_part(pattern.metadata.name) + author_part(
                pattern.metadata.author,
            ) + desc_part(pattern.metadata.description) + pt_rows(pattern.cells, 0),
    {
        let ghost c = pattern.cells;
        let mut out: Vec<char> = Vec::new();
        out.push('!');
        out.push('N');
        out.push('a');
        out.push('m');
        out.push('e');
        out.push(':');
        out.push(' ');
        match &pattern.metadata.name {
            Some(n) => {
                let nc = chars_vec(n.as_str());
                crate::text::push_chars(&mut out, nc.as_slice());
            },
            None => {
                let mut d: Vec<char> = Vec::new();
                d.push('E');
                d.push('x');
                d.push('p');
                d.push('o');
                d.push('r');
                d.push('t');
                d.push('e');
                d.push('d');
                d.push(' ');
                d.push('b');
                d.push('y');
                d.push(' ');
                d.push('g');
                d.push('a');
                d.push('m');
                d.push('e');
                d.push('-');
                d.push('o');
                d.push('f');
                d.push('-');
                d.push('l');
                d.push('i');
                d.push('f');
                d.push('e');
                proof {
                    assert(d@ =~= default_name());
                }
                crate::text::push_chars(&mut out, d.as_slice());
            },
        }
        proof {
            assert(out@ =~= name_part(pattern.metadata.name));
        }
        let ghost base1 = out@;
        match &pattern.metadata.author {
            Some(a) => {
                out.push('\n');
                out.push('!');
                out.push('A');
                out.push('u');
                out.push('t');
                out.push('h');
                out.push('o');
                out.push('r');
                out.push(':');
                out.push(' ');
                let ac = chars_vec(a.as_str());
                crate::text::push_chars(&mut out, ac.as_slice());
                proof {
                    assert(out@ =~= base1 + author_part(pattern.metadata.author));
                }
            },
            None => {
                proof {
                    assert(out@ =~= base1 + author_part(pattern.metadata.author));
                }
            },
        }
        let ghost base2 = out@;
        match &pattern.metadata.description {
            Some(s) => {
                let dc = chars_vec(s.as_str());
                let dl = split_lines(dc.as_slice());
                let ghost dls = dl.deep_view();
                let mut i: usize = 0;
                proof {
                    assert(out@ + desc_lines_part(dls, 0) =~= base2 + desc_lines_part(dls, 0));
                }
                while i < dl.len()
                    invariant
                        i <= dls.len(),
                        base2 + desc_lines_part(dls, 0) == out@ + desc_lines_part(dls, i as int),
                    decreases dl.len() - i,
                {
                    let ghost entry = out@;
                    out.push('\n');
                    out.push('!');
                    crate::text::push_chars(&mut out, dl[i].as_slice());
                    proof {
                        assert(dls[i as int] == dl@[i as int]@);
                        assert(out@ =~= entry + (seq!['\n', '!'] + dls[i as int]));
                        assert(out@ + desc_lines_part(dls, i + 1) =~= entry + desc_lines_part(
                            dls,
                            i as int,
                        ));
                    }
                    i = i + 1;
                }
                proof {
                    assert(desc_lines_part(dls, i as int) =~= Seq::<char>::empty());
                    assert(out@ =~= base2 + desc_part(pattern.metadata.description));
                }
            },
            None => {
                proof {
                    assert(out@ =~= base2 + desc_part(pattern.metadata.description));
                }
            },
        }
        let ghost base3 = out@;
        // The grid rows.
        let table = pattern.cells.into_cell_table();
        proof {
            super::cells::lemma_into_table_form(c, table);
            assert(out@ + pt_rows(c, 0) =~= base3 + pt_rows(c, 0));
        }
        let mut y: usize = 0;
        while y < table.height
            invariant
                y <= table.height,
                table.wf(),
                table.width == cells_width(c),
                table.height == cells_height(c),
                forall|a: int, b: int|
                    0 <= a < table.width && 0 <= b < table.height ==> table.cell(a, b) == cells_at(
                        c,
                        a,
                        b,
                    ),
                base3 + pt_rows(c, 0) == out@ + pt_rows(c, y as int),
            decreases table.height - y,
        {
            let ghost entry = out@;
            out.push('\n');
            let row = &table.cells[y];
            let mut x: usize = 0;
            while x < table.width
                invariant
                    y < table.height,
                    x <= table.width,
                    row == &table.cells@[y as int],
                    out@ == entry + seq!['\n'] + pt_row_chars(c, y as int).subrange(0, x as int),
                decreases table.width - x,
            {
                let ch = if row[x] == crate::CellState::Alive {
                    'O'
                } else {
                    '.'
                };
                out.push(ch);
                proof {
                    assert(table.cell(x as int, y as int) == cells_at(c, x as int, y as int));
                    assert(ch == pt_row_chars(c, y as int)[x as int]);
                    assert(out@ =~= entry + seq!['\n'] + pt_row_chars(c, y as int).subrange(
                        0,
                        x + 1,
                    ));
                }
                x = x + 1;
            }
            proof {
                assert(pt_row_chars(c, y as int).subrange(
                    0,
                    pt_row_chars(c, y as int).len() as int,
                ) =~= pt_row_chars(c, y as int));
                assert(out@ =~= entry + (seq!['\n'] + pt_row_chars(c, y as int)));
                assert(out@ + pt_rows(c, y + 1) =~= entry + pt_rows(c, y as int));
            }
            y = y + 1;
        }
        proof {
            assert(pt_rows(c, y as int) =~= Seq::<char>::empty());
            assert(out@ =~= base3 + pt_rows(c, 0));
        }
        let text = string_from_chars(out.as_slice());
        output.append(text.as_str());
        Ok(())
    }
}

impl Serialise for Plaintext {
    open spec fn spec_output(pattern: Pattern) -> Result<Seq<char>, ParseError> {
        Ok(
            name_part(pattern.metadata.name) + author_part(pattern.metadata.author) + desc_part(
                pattern.metadata.description,
            ) + pt_rows(pattern.cells, 0),
        )
    }

    fn serialise(output: &mut String, pattern: Pattern) -> (r: Result<(), ParseError>) {
        Plaintext::serialise(output, pattern)
    }
}

impl Parse for Plaintext {
    open spec fn is_type_spec(s: Seq<char>) -> bool {
        spec_is_type_pt(s)
    }

    open spec fn parse_rel(s: Seq<char>, r: Result<Pattern, ParseError>) -> bool {
        parse_rel_pt(s, r)
    }

    fn is_type(file: &str) -> (r: bool) {
        Plaintext::is_type(file)
    }

    fn parse(file: &str) -> (r: Result<Pattern, ParseError>) {
        Plaintext::parse(file)
    }
}

} // verus!
