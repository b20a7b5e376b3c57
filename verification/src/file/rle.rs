//! The run-length-encoded codec: `#`-prefixed metadata lines, a header
//! line, then `$`-separated rows of run-length tokens closed by `!`.

use vstd::prelude::*;
use crate::rule::{birth_part, rule_scan, survival_part, Rule};
use crate::text::{
    chars_vec, is_digit, digit_char, digit_val, spec_lines, spec_trim, split_lines,
    string_from_chars, trim_chars,
};
use super::cells::{CellList, CellTable, Cells};
use super::pattern::{opt_str_matches, Metadata, Parse, ParseError, Pattern, Serialise};

verus! {

/// The run-length-encoded format.
pub struct RLE;

/// A line's content past the `#` and the tag character.
pub open spec fn tail2(l: Seq<char>) -> Seq<char> {
    if l.len() < 2 {
        Seq::empty()
    } else {
        l.skip(2)
    }
}

/// A line belongs to the metadata block: it starts with `#`.
pub open spec fn is_hash(l: Seq<char>) -> bool {
    l.len() > 0 && l[0] == '#'
}

/// Index of the first line at or after `i` that does not start with `#`.
pub open spec fn hash_end(lines: Seq<Seq<char>>, i: int) -> int
    decreases lines.len() - i,
{
    if i < 0 || i >= lines.len() {
        i
    } else if is_hash(lines[i]) {
        hash_end(lines, i + 1)
    } else {
        i
    }
}

pub proof fn lemma_hash_end(lines: Seq<Seq<char>>, i: int)
    requires
        0 <= i <= lines.len(),
    ensures
        i <= hash_end(lines, i) <= lines.len(),
        forall|j: int| i <= j < hash_end(lines, i) ==> is_hash(#[trigger] lines[j]),
    decreases lines.len() - i,
{
    if i < lines.len() && is_hash(lines[i]) {
        lemma_hash_end(lines, i + 1);
    }
}

/// A metadata line's tag: the character after the `#`, if any.
pub open spec fn tag_of(l: Seq<char>) -> Option<char> {
    if l.len() < 2 {
        Option::None
    } else {
        Option::Some(l[1])
    }
}

/// The first error among the metadata lines in `[i, m)`: an unknown tag,
/// or an ill-formed `#r` rule string.
pub open spec fn meta_err(lines: Seq<Seq<char>>, i: int, m: int) -> Option<ParseError>
    decreases m - i,
{
    if i < 0 || i >= m || m > lines.len() {
        Option::None
    } else {
        let t = tag_of(lines[i]);
        if t is None {
            meta_err(lines, i + 1, m)
        } else if t->0 == 'N' || t->0 == 'C' || t->0 == 'c' || t->0 == 'O' {
            meta_err(lines, i + 1, m)
        } else if t->0 == 'r' {
            if rule_scan(spec_trim(tail2(lines[i])), false) is Some {
                Option::Some(
                    ParseError::UnexpectedCharacter(
                        rule_scan(spec_trim(tail2(lines[i])), false)->Some_0,
                    ),
                )
            } else {
                meta_err(lines, i + 1, m)
            }
        } else {
            Option::Some(ParseError::UnexpectedCharacter(t->0))
        }
    }
}

/// The name set by the last `#N` line in `[i, m)` whose trimmed content
/// is not empty.
pub open spec fn rle_name(lines: Seq<Seq<char>>, i: int, m: int) -> Option<Seq<char>>
    decreases m - i,
{
    if i < 0 || i >= m || m > lines.len() {
        Option::None
    } else {
        let later = rle_name(lines, i + 1, m);
        if later is Some {
            later
        } else if tag_of(lines[i]) == Option::Some('N') && spec_trim(tail2(lines[i])).len() > 0 {
            Option::Some(spec_trim(tail2(lines[i])))
        } else {
            Option::None
        }
    }
}

/// The author set by the last `#O` line in `[i, m)`, trimmed.
pub open spec fn rle_author(lines: Seq<Seq<char>>, i: int, m: int) -> Option<Seq<char>>
    decreases m - i,
{
    if i < 0 || i >= m || m > lines.len() {
        Option::None
    } else {
        let later = rle_author(lines, i + 1, m);
        if later is Some {
            later
        } else if tag_of(lines[i]) == Option::Some('O') {
            Option::Some(spec_trim(tail2(lines[i])))
        } else {
            Option::None
        }
    }
}

/// The description: the `#C`/`#c` line contents in `[i, m)`, trimmed
/// and joined with newlines.
pub open spec fn rle_desc(lines: Seq<Seq<char>>, i: int, m: int) -> Option<Seq<char>>
    decreases m - i,
{
    if i < 0 || i >= m || m > lines.len() {
        Option::None
    } else if tag_of(lines[i]) == Option::Some('C') || tag_of(lines[i]) == Option::Some('c') {
        let d = spec_trim(tail2(lines[i]));
        match rle_desc(lines, i + 1, m) {
            Option::None => Option::Some(d),
            Option::Some(rest) => Option::Some(d + seq!['\n'] + rest),
        }
    } else {
        rle_desc(lines, i + 1, m)
    }
}

/// Index of the last `#r` line in `[i, m)`, or `-1` if there is none.
pub open spec fn last_r(lines: Seq<Seq<char>>, i: int, m: int) -> int
    decreases m - i,
{
    if i < 0 || i >= m || m > lines.len() {
        -1
    } else {
        let later = last_r(lines, i + 1, m);
        if later >= 0 {
            later
        } else if tag_of(lines[i]) == Option::Some('r') {
            i
        } else {
            -1
        }
    }
}

/// The concatenation of the lines from `i` on, with nothing between
/// them, as the RLE body is assembled.
pub open spec fn concat_from(lines: Seq<Seq<char>>, i: int) -> Seq<char>
    decreases lines.len() - i,
{
    if i < 0 || i >= lines.len() {
        Seq::empty()
    } else {
        lines[i] + concat_from(lines, i + 1)
    }
}

/// The cells of one alive run: `n` cells from `(x, y)` rightwards.
pub open spec fn run_cells(x: int, n: int, y: int) -> Seq<(isize, isize)> {
    Seq::new(n as nat, |t: int| (((x + t) as isize), (y as isize)))
}

/// The run-length body machine, one character at a time: digits extend
/// the pending count (empty count means one), `b`/`.` skips dead cells,
/// `o`/`A` emits alive cells, `$` ends rows, `!` ends the pattern.  A
/// body that the `!` never closes, and any count or coordinate beyond
/// the machine's range, is refused.
pub open spec fn rle_body(body: Seq<char>, i: int, x: int, y: int, amount: int) -> Result<
    Seq<(isize, isize)>,
    ParseError,
>
    decreases body.len() - i,
{
    if i < 0 || i >= body.len() {
        Err(ParseError::Unterminated)
    } else {
        let c = body[i];
        if is_digit(c) {
            let a2 = amount * 10 + digit_val(c);
            if a2 > isize::MAX {
                Err(ParseError::BadNumber)
            } else {
                rle_body(body, i + 1, x, y, a2)
            }
        } else if c == 'b' || c == '.' {
            let n = if amount == 0 {
                1
            } else {
                amount
            };
            if x + n > isize::MAX {
                Err(ParseError::BadNumber)
            } else {
                rle_body(body, i + 1, x + n, y, 0)
            }
        } else if c == 'o' || c == 'A' {
            let n = if amount == 0 {
                1
            } else {
                amount
            };
            if x + n > isize::MAX {
                Err(ParseError::BadNumber)
            } else {
                match rle_body(body, i + 1, x + n, y, 0) {
                    Ok(rest) => Ok(run_cells(x, n, y) + rest),
                    Err(e) => Err(e),
                }
            }
        } else if c == '$' {
            let n = if amount == 0 {
                1
            } else {
                amount
            };
            if y + n > isize::MAX {
                Err(ParseError::BadNumber)
            } else {
                rle_body(body, i + 1, 0, y + n, 0)
            }
        } else if c == '!' {
            Ok(Seq::empty())
        } else {
            Err(ParseError::UnexpectedCharacter(c))
        }
    }
}

/// What `RLE::parse` returns for a given text.
pub open spec fn parse_rel_rle(s: Seq<char>, r: Result<Pattern, ParseError>) -> bool {
    let lines = spec_lines(s);
    let m = hash_end(lines, 0);
    if meta_err(lines, 0, m) is Some {
        r == Err::<Pattern, ParseError>(meta_err(lines, 0, m)->Some_0)
    } else if m >= lines.len() {
        r == Err::<Pattern, ParseError>(ParseError::MissingHeader)
    } else {
        let pc = rle_body(concat_from(lines, m + 1), 0, 0, 0, 0);
        &&& (r is Ok <==> pc is Ok)
        &&& (r is Ok ==> {
            let p = r->Ok_0;
            &&& p.cells is List
            &&& p.cells->List_0.cells@ == pc->Ok_0
            &&& p.cells->List_0.origin == ((0isize, 0isize))
            &&& opt_str_matches(p.metadata.name, rle_name(lines, 0, m))
            &&& opt_str_matches(p.metadata.author, rle_author(lines, 0, m))
            &&& opt_str_matches(p.metadata.description, rle_desc(lines, 0, m))
            &&& p.metadata.generation is None
            &&& (last_r(lines, 0, m) >= 0 ==> forall|n: int|
                0 <= n < 9 ==> ((p.metadata.rule.spec_survival(n) <==> survival_part(
                    spec_trim(tail2(lines[last_r(lines, 0, m)])),
                ).contains(digit_char(n))) && (p.metadata.rule.spec_birth(n) <==> birth_part(
                    spec_trim(tail2(lines[last_r(lines, 0, m)])),
                ).contains(digit_char(n)))))
            &&& (last_r(lines, 0, m) < 0 ==> p.metadata.rule.is_normal())
        })
        &&& (r is Err ==> r->Err_0 == pc->Err_0)
    }
}

/// RLE cannot be recognised from content, so detection always declines;
/// the dispatcher falls back to this codec when nothing else matches.
pub open spec fn spec_is_type_rle(s: Seq<char>) -> bool {
    false
}

impl RLE {
    /// Always false: an RLE file announces nothing that can be sniffed.
    pub fn is_type(file: &str) -> (r: bool)
        ensures
            r == spec_is_type_rle(file@),
    {
        let _ = file;
        false
    }

    /// Parse an RLE text: `#` metadata lines, one header line (its
    /// content is informational only), then the run-length body.
    #[verifier::loop_isolation(false)]
    #[verifier::rlimit(100)]
    pub fn parse(file: &str) -> (r: Result<Pattern, ParseError>)
        requires
            file@.len() <= isize::MAX,
        ensures
            parse_rel_rle(file@, r),
            r is Ok ==> r->Ok_0.cells.wf(),
    {
        let v = chars_vec(file);
        let lines = split_lines(v.as_slice());
        let ghost ls = lines.deep_view();
        proof {
            crate::text::lemma_spec_lines_len(file@);
        }
        // The metadata block.
        let mut m: usize = 0;
        while m < lines.len() && lines[m].len() > 0 && lines[m][0] == '#'
            invariant
                m <= ls.len(),
                hash_end(ls, 0) == hash_end(ls, m as int),
            decreases lines.len() - m,
        {
            proof {
                assert(is_hash(ls[m as int]));
            }
            m = m + 1;
        }
        proof {
            if (m as int) < ls.len() {
                assert(!is_hash(ls[m as int]));
            }
            assert(hash_end(ls, m as int) == m as int);
        }
        // Read the metadata lines.
        let mut metadata = Metadata::default();
        let mut name: Option<Vec<char>> = None;
        let mut author: Option<Vec<char>> = None;
        let mut desc: Option<Vec<char>> = None;
        let ghost gm = m as int;
        let mut i: usize = 0;
        let ghost mut cur_r: int = -1;
        while i < m
            invariant
                i <= m,
                gm == m as int,
                m <= ls.len(),
                meta_err(ls, 0, gm) == meta_err(ls, i as int, gm),
                rle_name(ls, 0, gm) == (if rle_name(ls, i as int, gm) is Some {
                    rle_name(ls, i as int, gm)
                } else {
                    name.deep_view()
                }),
                rle_author(ls, 0, gm) == (if rle_author(ls, i as int, gm) is Some {
                    rle_author(ls, i as int, gm)
                } else {
                    author.deep_view()
                }),
                rle_desc(ls, 0, gm) == super::plaintext::desc_combine(
                    desc.deep_view(),
                    rle_desc(ls, i as int, gm),
                ),
                last_r(ls, 0, gm) == (if last_r(ls, i as int, gm) >= 0 {
                    last_r(ls, i as int, gm)
                } else {
                    cur_r
                }),
                -1 <= cur_r < i,
                cur_r >= 0 ==> tag_of(ls[cur_r]) == Option::Some('r') && forall|n: int|
                    0 <= n < 9 ==> ((metadata.rule.spec_survival(n) <==> survival_part(
                        spec_trim(tail2(ls[cur_r])),
                    ).contains(digit_char(n))) && (metadata.rule.spec_birth(n) <==> birth_part(
                        spec_trim(tail2(ls[cur_r])),
                    ).contains(digit_char(n)))),
                cur_r < 0 ==> metadata.rule.is_normal(),
                metadata.generation is None,
            decreases m - i,
        {
            let line = &lines[i];
            let ghost l = ls[i as int];
            proof {
                assert(l == line@);
                lemma_hash_end(ls, 0);
                assert(is_hash(l));
            }
            if line.len() >= 2 {
                let tag = line[1];
                let rest = vstd::slice::slice_subrange(line.as_slice(), 2, line.len());
                proof {
                    assert(rest@ =~= tail2(l));
                    assert(tag_of(l) == Option::Some(tag));
                }
                if tag == 'N' {
                    let t = trim_chars(rest);
                    if t.len() > 0 {
                        name = Some(t);
                    }
                } else if tag == 'C' || tag == 'c' {
                    let d = trim_chars(rest);
                    let ghost dd = spec_trim(tail2(l));
                    let joined: Vec<char> = match desc {
                        None => d,
                        Some(mut o) => {
                            o.push('\n');
                            crate::text::push_chars(&mut o, d.as_slice());
                            o
                        },
                    };
                    desc = Some(joined);
                    proof {
                        assert(rle_desc(ls, i as int, gm) == (match rle_desc(ls, i + 1, gm) {
                            Option::None => Option::Some(dd),
                            Option::Some(rest0) => Option::Some(dd + seq!['\n'] + rest0),
                        }));
                        assert(rle_desc(ls, 0, gm) =~~= super::plaintext::desc_combine(
                            desc.deep_view(),
                            rle_desc(ls, i + 1, gm),
                        ));
                    }
                } else if tag == 'O' {
                    author = Some(trim_chars(rest));
                } else if tag == 'r' {
                    let t = trim_chars(rest);
                    match Rule::from_rule_string(t.as_slice()) {
                        Ok(rl) => {
                            metadata.rule = rl;
                            proof {
                                cur_r = i as int;
                            }
                        },
                        Err(c) => {
                            proof {
                                assert(meta_err(ls, i as int, gm) == Option::Some(
                                    ParseError::UnexpectedCharacter(c),
                                ));
                            }
                            return Err(ParseError::UnexpectedCharacter(c));
                        },
                    }
                } else {
                    proof {
                        assert(meta_err(ls, i as int, gm) == Option::Some(
                            ParseError::UnexpectedCharacter(tag),
                        ));
                    }
                    return Err(ParseError::UnexpectedCharacter(tag));
                }
            } else {
                proof {
                    assert(tag_of(l) is None);
                }
            }
            i = i + 1;
        }
        proof {
            assert(meta_err(ls, i as int, gm) is None);
            assert(rle_name(ls, i as int, gm) is None);
            assert(rle_author(ls, i as int, gm) is None);
            assert(rle_desc(ls, i as int, gm) is None);
            assert(last_r(ls, i as int, gm) == -1);
        }
        metadata.name = match name {
            None => None,
            Some(n) => {
                proof {
                    assert(n.deep_view() =~= n@);
                }
                Some(string_from_chars(n.as_slice()))
            },
        };
        metadata.author = match author {
            None => None,
            Some(a) => {
                proof {
                    assert(a.deep_view() =~= a@);
                }
                Some(string_from_chars(a.as_slice()))
            },
        };
        metadata.description = match desc {
            None => None,
            Some(d) => {
                proof {
                    assert(d.deep_view() =~= d@);
                }
                Some(string_from_chars(d.as_slice()))
            },
        };
        // The header line must exist; its content is not interpreted.
        if m >= lines.len() {
            return Err(ParseError::MissingHeader);
        }
        // The body: the remaining lines, concatenated.
        let mut body: Vec<char> = Vec::new();
        let mut i: usize = m + 1;
        let ghost gbody = concat_from(ls, gm + 1);
        proof {
            assert(body@ + concat_from(ls, gm + 1) =~= concat_from(ls, gm + 1));
        }
        while i < lines.len()
            invariant
                gm + 1 <= i,
                gbody == concat_from(ls, gm + 1),
                gbody == body@ + concat_from(ls, i as int),
            decreases lines.len() - i,
        {
            let ghost entry = body@;
            crate::text::push_chars(&mut body, lines[i].as_slice());
            proof {
                assert(ls[i as int] == lines@[i as int]@);
                assert(body@ + concat_from(ls, i + 1) =~= entry + concat_from(ls, i as int));
            }
            i = i + 1;
        }
        proof {
            assert(concat_from(ls, i as int) =~= Seq::<char>::empty());
            assert(body@ =~= gbody);
        }
        // Run the body machine.
        let mut cells = CellList::default();
        let mut x: isize = 0;
        let mut y: isize = 0;
        let mut amount: isize = 0;
        let mut j: usize = 0;
        proof {
            if rle_body(gbody, 0, 0, 0, 0) is Ok {
                assert(cells.cells@ + rle_body(gbody, 0, 0, 0, 0)->Ok_0 =~= rle_body(
                    gbody,
                    0,
                    0,
                    0,
                    0,
                )->Ok_0);
            }
        }
        while j < body.len()
            invariant
                j <= gbody.len(),
                body@ == gbody,
                0 <= x,
                0 <= y,
                0 <= amount,
                cells.origin == ((0isize, 0isize)),
                rle_body(gbody, 0, 0, 0, 0) is Ok <==> rle_body(
                    gbody,
                    j as int,
                    x as int,
                    y as int,
                    amount as int,
                ) is Ok,
                rle_body(gbody, 0, 0, 0, 0) is Ok ==> rle_body(gbody, 0, 0, 0, 0)->Ok_0
                    == cells.cells@ + rle_body(
                    gbody,
                    j as int,
                    x as int,
                    y as int,
                    amount as int,
                )->Ok_0,
                rle_body(gbody, 0, 0, 0, 0) is Err ==> rle_body(gbody, 0, 0, 0, 0)->Err_0
                    == rle_body(gbody, j as int, x as int, y as int, amount as int)->Err_0,
            decreases body.len() - j,
        {
            let c = body[j];
            if crate::text::digit_char_test(c) {
                let d = (c as u32 - '0' as u32) as isize;
                proof {
                    assert(d as int == digit_val(c));
                }
                if amount > (isize::MAX - d) / 10 {
                    proof {
                        assert(amount as int * 10 + d as int > isize::MAX as int)
                            by (nonlinear_arith)
                            requires
                                amount as int > (isize::MAX as int - d as int) / 10,
                                0 <= d <= 9,
                                d as int <= isize::MAX as int,
                        ;
                        assert(rle_body(gbody, j as int, x as int, y as int, amount as int)
                            == Err::<Seq<(isize, isize)>, ParseError>(ParseError::BadNumber));
                    }
                    return Err(ParseError::BadNumber);
                }
                proof {
                    assert(amount as int * 10 + d as int <= isize::MAX as int)
                        by (nonlinear_arith)
                        requires
                            amount as int <= (isize::MAX as int - d as int) / 10,
                            0 <= d as int <= isize::MAX as int,
                    ;
                }
                amount = amount * 10 + d;
            } else if c == 'b' || c == '.' {
                let n: isize = if amount == 0 {
                    1
                } else {
                    amount
                };
                if n > isize::MAX - x {
                    proof {
                        assert(rle_body(gbody, j as int, x as int, y as int, amount as int)
                            == Err::<Seq<(isize, isize)>, ParseError>(ParseError::BadNumber));
                    }
                    return Err(ParseError::BadNumber);
                }
                x = x + n;
                amount = 0;
            } else if c == 'o' || c == 'A' {
                let n: isize = if amount == 0 {
                    1
                } else {
                    amount
                };
                if n > isize::MAX - x {
                    proof {
                        assert(rle_body(gbody, j as int, x as int, y as int, amount as int)
                            == Err::<Seq<(isize, isize)>, ParseError>(ParseError::BadNumber));
                    }
                    return Err(ParseError::BadNumber);
                }
                let ghost entry = cells.cells@;
                let ghost gx = x as int;
                let ghost gn = n as int;
                let mut t: isize = 0;
                while t < n
                    invariant
                        0 <= t <= gn,
                        gx == x as int,
                        gn == n as int,
                        gx + gn <= isize::MAX,
                        cells.origin == ((0isize, 0isize)),
                        cells.cells@ == entry + run_cells(gx, t as int, y as int),
                    decreases n - t,
                {
                    cells.push(((x + t), y));
                    proof {
                        assert(cells.cells@ =~= entry + run_cells(gx, t + 1, y as int));
                    }
                    t = t + 1;
                }
                proof {
                    assert(rle_body(gbody, j as int, x as int, y as int, amount as int) == (
                    match rle_body(gbody, j + 1, gx + gn, y as int, 0) {
                        Ok(rest) => Ok::<Seq<(isize, isize)>, ParseError>(
                            run_cells(gx, gn, y as int) + rest,
                        ),
                        Err(e) => Err::<Seq<(isize, isize)>, ParseError>(e),
                    }));
                    if rle_body(gbody, 0, 0, 0, 0) is Ok {
                        assert(cells.cells@ + rle_body(gbody, j + 1, gx + gn, y as int, 0)->Ok_0
                            =~= entry + (run_cells(gx, gn, y as int) + rle_body(
                            gbody,
                            j + 1,
                            gx + gn,
                            y as int,
                            0,
                        )->Ok_0));
                    }
                }
                x = x + n;
                amount = 0;
            } else if c == '$' {
                let n: isize = if amount == 0 {
                    1
                } else {
                    amount
                };
                if n > isize::MAX - y {
                    proof {
                        assert(rle_body(gbody, j as int, x as int, y as int, amount as int)
                            == Err::<Seq<(isize, isize)>, ParseError>(ParseError::BadNumber));
                    }
                    return Err(ParseError::BadNumber);
                }
                y = y + n;
                x = 0;
                amount = 0;
            } else if c == '!' {
                proof {
                    assert(rle_body(gbody, j as int, x as int, y as int, amount as int) == Ok::<
                        Seq<(isize, isize)>,
                        ParseError,
                    >(Seq::empty()));
                    assert(cells.cells@ + Seq::<(isize, isize)>::empty() =~= cells.cells@);
                }
                return Ok(Pattern { cells: Cells::List(cells), metadata });
            } else {
                proof {
                    assert(rle_body(gbody, j as int, x as int, y as int, amount as int) == Err::<
                        Seq<(isize, isize)>,
                        ParseError,
                    >(ParseError::UnexpectedCharacter(c)));
                }
                return Err(ParseError::UnexpectedCharacter(c));
            }
            j = j + 1;
        }
        // The body ended without its `!` terminator.
        proof {
            assert(rle_body(gbody, j as int, x as int, y as int, amount as int) == Err::<
                Seq<(isize, isize)>,
                ParseError,
            >(ParseError::Unterminated));
        }
        Err(ParseError::Unterminated)
    }
}

// ------------------------------------------------------------------
// Serialisation
// ------------------------------------------------------------------

/// Extend a run list by one cell character: lengthen the last run when
/// it has the same character, else open a new run.
pub open spec fn push_run(data: Seq<(usize, char)>, ch: char) -> Seq<(usize, char)> {
    if data.len() > 0 && data.last().1 == ch {
        data.update(data.len() - 1, ((((data.last().0 + 1) as usize)), ch))
    } else {
        data.push((1usize, ch))
    }
}

/// The run character of one cell.
pub open spec fn run_char(c: Cells, x: int, y: int) -> char {
    if super::cells::cells_at(c, x, y) == crate::CellState::Alive {
        'o'
    } else {
        'b'
    }
}

/// Fold the cells of row `y` from column `x` on into the run list.
pub open spec fn row_fold(c: Cells, y: int, x: int, data: Seq<(usize, char)>) -> Seq<
    (usize, char),
>
    decreases super::cells::cells_width(c) - x,
{
    if x < 0 || x >= super::cells::cells_width(c) {
        data
    } else {
        row_fold(c, y, x + 1, push_run(data, run_char(c, x, y)))
    }
}

/// Close a row: drop a trailing dead run, then extend a pending row
/// terminator or open one.
pub open spec fn end_row(data: Seq<(usize, char)>) -> Seq<(usize, char)> {
    let d1 = if data.len() > 0 && data.last().1 == 'b' {
        data.drop_last()
    } else {
        data
    };
    if d1.len() > 0 && d1.last().1 == '$' {
        d1.update(d1.len() - 1, ((((d1.last().0 + 1) as usize)), '$'))
    } else {
        d1.push((1usize, '$'))
    }
}

/// Fold the rows from `y` on into the run list.
pub open spec fn rows_fold(c: Cells, y: int, data: Seq<(usize, char)>) -> Seq<(usize, char)>
    decreases super::cells::cells_height(c) - y,
{
    if y < 0 || y >= super::cells::cells_height(c) {
        data
    } else {
        rows_fold(c, y + 1, end_row(row_fold(c, y, 0, data)))
    }
}

/// The complete run list of a pattern's cells: all rows folded, with
/// the final row terminator dropped.
pub open spec fn all_runs(c: Cells) -> Seq<(usize, char)> {
    let d = rows_fold(c, 0, Seq::empty());
    if d.len() > 0 {
        d.drop_last()
    } else {
        d
    }
}

/// The text of the run list from entry `i` on: the count when it is
/// more than one, then the run character.
pub open spec fn render_runs(d: Seq<(usize, char)>, i: int) -> Seq<char>
    decreases d.len() - i,
{
    if i < 0 || i >= d.len() {
        Seq::empty()
    } else {
        (if d[i].0 > 1 {
            crate::text::dec_nat(d[i].0 as nat)
        } else {
            Seq::empty()
        }) + seq![d[i].1] + render_runs(d, i + 1)
    }
}

/// The serialised `#N` name line, if the pattern has a name.
pub open spec fn rle_name_part(n: Option<String>) -> Seq<char> {
    match n {
        Option::None => Seq::empty(),
        Option::Some(s) => seq!['#', 'N', ' '] + s@ + seq!['\n'],
    }
}

/// The serialised `#O` author line, if the pattern has an author.
pub open spec fn rle_author_part(a: Option<String>) -> Seq<char> {
    match a {
        Option::None => Seq::empty(),
        Option::Some(s) => seq!['#', 'O', ' '] + s@ + seq!['\n'],
    }
}

/// The serialised `#C` lines of the description from line `i` on.
pub open spec fn rle_desc_lines(lines: Seq<Seq<char>>, i: int) -> Seq<char>
    decreases lines.len() - i,
{
    if i < 0 || i >= lines.len() {
        Seq::empty()
    } else {
        seq!['#', 'C', ' '] + lines[i] + seq!['\n'] + rle_desc_lines(lines, i + 1)
    }
}

/// The serialised description, if any.
pub open spec fn rle_desc_part(d: Option<String>) -> Seq<char> {
    match d {
        Option::None => Seq::empty(),
        Option::Some(s) => rle_desc_lines(spec_lines(s@), 0),
    }
}

/// The serialised header line: the table's dimensions and the rule's
/// birth and survival digits.
pub open spec fn rle_header(c: Cells, rule: Rule) -> Seq<char> {
    seq!['x', ' ', '=', ' '] + crate::text::dec_nat(super::cells::cells_width(c) as nat) + seq![
        ',',
        ' ',
        'y',
        ' ',
        '=',
        ' ',
    ] + crate::text::dec_nat(super::cells::cells_height(c) as nat) + seq![
        ',',
        ' ',
        'r',
        'u',
        'l',
        'e',
        ' ',
        '=',
        ' ',
        'B',
    ] + rule.birth_digits(0) + seq!['/', 'S'] + rule.survival_digits(0) + seq!['\n']
}

/// Write the `#N`, `#O` and `#C` metadata lines.
#[verifier::loop_isolation(false)]
fn write_rle_meta(out: &mut Vec<char>, metadata: &Metadata)
    ensures
        final(out)@ == old(out)@ + rle_name_part(metadata.name) + rle_author_part(metadata.author)
            + rle_desc_part(metadata.description),
{
    let ghost base0 = out@;
    match &metadata.name {
            Some(n) => {
                out.push('#');
                out.push('N');
                out.push(' ');
                let nc = chars_vec(n.as_str());
                crate::text::push_chars(out, nc.as_slice());
                out.push('\n');
                proof {
                    assert(out@ =~= base0 + rle_name_part(metadata.name));
                }
            },
            None => {
                proof {
                    assert(out@ =~= base0 + rle_name_part(metadata.name));
                }
            },
        }
        let ghost base1 = out@;
        match &metadata.author {
            Some(a) => {
                out.push('#');
                out.push('O');
                out.push(' ');
                let ac = chars_vec(a.as_str());
                crate::text::push_chars(out, ac.as_slice());
                out.push('\n');
                proof {
                    assert(out@ =~= base1 + rle_author_part(metadata.author));
                }
            },
            None => {
                proof {
                    assert(out@ =~= base1 + rle_author_part(metadata.author));
                }
            },
        }
        let ghost base2 = out@;
        match &metadata.description {
            Some(s) => {
                let dc = chars_vec(s.as_str());
                let dl = split_lines(dc.as_slice());
                let ghost dls = dl.deep_view();
                let mut i: usize = 0;
                proof {
                    assert(out@ + rle_desc_lines(dls, 0) =~= base2 + rle_desc_lines(dls, 0));
                }
                while i < dl.len()
                    invariant
                        i <= dls.len(),
                        base2 + rle_desc_lines(dls, 0) == out@ + rle_desc_lines(dls, i as int),
                    decreases dl.len() - i,
                {
                    let ghost entry = out@;
                    out.push('#');
                    out.push('C');
                    out.push(' ');
                    crate::text::push_chars(out, dl[i].as_slice());
                    out.push('\n');
                    proof {
                        assert(dls[i as int] == dl@[i as int]@);
                        assert(out@ =~= entry + (seq!['#', 'C', ' '] + dls[i as int]
                            + seq!['\n']));
                        assert(out@ + rle_desc_lines(dls, i + 1) =~= entry + rle_desc_lines(
                            dls,
                            i as int,
                        ));
                    }
                    i = i + 1;
                }
                proof {
                    assert(rle_desc_lines(dls, i as int) =~= Seq::<char>::empty());
                    assert(out@ =~= base2 + rle_desc_part(metadata.description));
                }
            },
            None => {
                proof {
                    assert(out@ =~= base2 + rle_desc_part(metadata.description));
                }
            },
        }
}

/// Build the run list of a table's rows: alternating cell runs with
/// row terminators, a trailing dead run per row dropped and adjacent
/// terminators merged.
#[verifier::loop_isolation(false)]
#[verifier::rlimit(100)]
fn build_rle_runs(table: &CellTable, Ghost(c): Ghost<Cells>) -> (r: Vec<(usize, char)>)
    requires
        table.wf(),
        table.width == super::cells::cells_width(c),
        table.height == super::cells::cells_height(c),
        forall|a: int, b: int|
            0 <= a < table.width && 0 <= b < table.height ==> table.cell(a, b)
                == super::cells::cells_at(c, a, b),
    ensures
        r@ == rows_fold(c, 0, Seq::empty()),
        forall|k: int| 0 <= k < r@.len() ==> 1 <= (#[trigger] r@[k]).0 <= super::cells::dim_limit(),
{
        let mut data: Vec<(usize, char)> = Vec::new();
        let mut y: usize = 0;
        while y < table.height
            invariant
                y <= table.height,
                table.wf(),
                table.width == super::cells::cells_width(c),
                table.height == super::cells::cells_height(c),
                forall|a: int, b: int|
                    0 <= a < table.width && 0 <= b < table.height ==> table.cell(a, b)
                        == super::cells::cells_at(c, a, b),
                rows_fold(c, 0, Seq::empty()) == rows_fold(c, y as int, data@),
                forall|k: int| 0 <= k < data@.len() ==> 1 <= (#[trigger] data@[k]).0
                    <= super::cells::dim_limit(),
                data@.len() > 0 && data@.last().1 == '$' ==> data@.last().0 <= y,
                data@.len() > 0 ==> data@.last().1 == '$',
                y == 0 ==> data@.len() == 0,
            decreases table.height - y,
        {
            let ghost row_entry = data@;
            let row = &table.cells[y];
            let mut x: usize = 0;
            while x < table.width
                invariant
                    y < table.height,
                    x <= table.width,
                    table.wf(),
                    row == &table.cells@[y as int],
                    table.width == super::cells::cells_width(c),
                    table.height == super::cells::cells_height(c),
                    forall|a: int, b: int|
                        0 <= a < table.width && 0 <= b < table.height ==> table.cell(a, b)
                            == super::cells::cells_at(c, a, b),
                    row_fold(c, y as int, 0, row_entry) == row_fold(c, y as int, x as int, data@),
                    forall|k: int| 0 <= k < data@.len() ==> 1 <= (#[trigger] data@[k]).0
                        <= super::cells::dim_limit(),
                    data@.len() > 0 && (data@.last().1 == 'o' || data@.last().1 == 'b')
                        ==> data@.last().0 <= x,
                    data@.len() >= row_entry.len(),
                    data@.subrange(0, row_entry.len() as int) == row_entry,
                    forall|k: int|
                        row_entry.len() <= k < data@.len() ==> ((#[trigger] data@[k]).1 == 'o'
                            || data@[k].1 == 'b'),
                    row_entry.len() > 0 ==> row_entry.last().1 == '$',
                decreases table.width - x,
            {
                let ch: char = if row[x] == crate::CellState::Alive {
                    'o'
                } else {
                    'b'
                };
                proof {
                    assert(table.cell(x as int, y as int) == super::cells::cells_at(
                        c,
                        x as int,
                        y as int,
                    ));
                    assert(ch == run_char(c, x as int, y as int));
                }
                let ghost old_data = data@;
                let n = data.len();
                if n > 0 && data[n - 1].1 == ch {
                    let cnt = data[n - 1].0;
                    proof {
                        assert(cnt <= super::cells::dim_limit());
                        assert(old_data.last().0 <= x);
                        // The run extended lies past the row entry: the
                        // entry's last run is a row terminator.
                        if n <= row_entry.len() {
                            assert(old_data =~= row_entry);
                            assert(false);
                        }
                    }
                    data[n - 1] = (cnt + 1, ch);
                    proof {
                        assert(data@ =~= push_run(old_data, ch));
                        assert(data@.subrange(0, row_entry.len() as int) =~= old_data.subrange(
                            0,
                            row_entry.len() as int,
                        ));
                    }
                } else {
                    data.push((1, ch));
                    proof {
                        assert(data@ =~= push_run(old_data, ch));
                        assert(data@.subrange(0, row_entry.len() as int) =~= old_data.subrange(
                            0,
                            row_entry.len() as int,
                        ));
                    }
                }
                proof {
                    assert(row_fold(c, y as int, x as int, old_data) == row_fold(
                        c,
                        y as int,
                        x + 1,
                        push_run(old_data, ch),
                    ));
                }
                x = x + 1;
            }
            // Close the row: drop a trailing dead run, then extend or
            // open the row terminator.
            let ghost folded = data@;
            let n = data.len();
            if n > 0 && data[n - 1].1 == 'b' {
                proof {
                    // The popped run lies past the row entry.
                    if folded.len() <= row_entry.len() {
                        assert(folded =~= row_entry);
                        assert(false);
                    }
                }
                data.pop();
            }
            let ghost d1 = data@;
            let n = data.len();
            if n > 0 && data[n - 1].1 == '$' {
                let cnt = data[n - 1].0;
                proof {
                    // A terminator can only be the row entry's own last
                    // run: everything this row added is a cell run.
                    assert(d1.subrange(0, row_entry.len() as int) =~= row_entry);
                    if d1.len() > row_entry.len() {
                        assert(d1[d1.len() - 1].1 == 'o' || d1[d1.len() - 1].1 == 'b');
                        assert(false);
                    }
                    assert(d1 =~= row_entry);
                    assert(cnt <= y);
                }
                data[n - 1] = (cnt + 1, '$');
            } else {
                data.push((1, '$'));
            }
            proof {
                assert(data@ =~= end_row(folded));
                assert(rows_fold(c, y as int, row_entry) == rows_fold(c, y + 1, end_row(
                    row_fold(c, y as int, 0, row_entry),
                )));
                assert(row_fold(c, y as int, 0, row_entry) == folded) by {
                    assert(row_fold(c, y as int, table.width as int, folded) == folded);
                }
            }
            y = y + 1;
        }
        proof {
            assert(rows_fold(c, y as int, data@) == data@);
            assert(data@ == rows_fold(c, 0, Seq::empty()));
        }
    proof {
        assert(rows_fold(c, y as int, data@) == data@);
    }
    data
}

impl RLE {
    /// Serialise as RLE: the metadata lines, the header, then the rows
    /// as run-length tokens — a trailing dead run per row dropped,
    /// adjacent row terminators merged, the final one dropped — closed
    /// by `!`.
    #[verifier::loop_isolation(false)]
    #[verifier::rlimit(100)]
    pub fn serialise(output: &mut String, pattern: Pattern) -> (r: Result<(), ParseError>)
        requires
            pattern.cells.wf(),
            pattern.cells.dims_ok(),
        ensures
            r is Ok,
            final(output)@ == old(output)@ + rle_name_part(pattern.metadata.name)
                + rle_author_part(pattern.metadata.author) + rle_desc_part(
                pattern.metadata.description,
            ) + rle_header(pattern.cells, pattern.metadata.rule) + render_runs(
                all_runs(pattern.cells),
                0,
            ) + seq!['!'],
    {
        let ghost c = pattern.cells;
        let mut out: Vec<char> = Vec::new();
        write_rle_meta(&mut out, &pattern.metadata);
        let ghost base3 = out@;
        // The header line.
        let table = pattern.cells.into_cell_table();
        proof {
            super::cells::lemma_into_table_form(c, table);
        }
        out.push('x');
        out.push(' ');
        out.push('=');
        out.push(' ');
        let wd = crate::text::dec_usize(table.width);
        crate::text::push_chars(&mut out, wd.as_slice());
        out.push(',');
        out.push(' ');
        out.push('y');
        out.push(' ');
        out.push('=');
        out.push(' ');
        let hd = crate::text::dec_usize(table.height);
        crate::text::push_chars(&mut out, hd.as_slice());
        out.push(',');
        out.push(' ');
        out.push('r');
        out.push('u');
        out.push('l');
        out.push('e');
        out.push(' ');
        out.push('=');
        out.push(' ');
        out.push('B');
        let bd = pattern.metadata.rule.display_birth();
        let bdc = chars_vec(bd.as_str());
        crate::text::push_chars(&mut out, bdc.as_slice());
        out.push('/');
        out.push('S');
        let sd = pattern.metadata.rule.display_survival();
        let sdc = chars_vec(sd.as_str());
        crate::text::push_chars(&mut out, sdc.as_slice());
        out.push('\n');
        proof {
            assert(out@ =~= base3 + rle_header(c, pattern.metadata.rule));
        }
        let ghost base4 = out@;
        // Build the run list, row by row.
        let mut data: Vec<(usize, char)> = build_rle_runs(&table, Ghost(c));
        proof {
            assert(data@ == rows_fold(c, 0, Seq::empty()));
        }
        // The final row terminator is dropped.
        if data.len() > 0 {
            data.pop();
        }
        proof {
            assert(data@ =~= all_runs(c));
        }
        let ghost runs = data@;
        // Render the runs.
        let mut i: usize = 0;
        proof {
            assert(out@ + render_runs(runs, 0) =~= base4 + render_runs(runs, 0));
        }
        while i < data.len()
            invariant
                i <= runs.len(),
                runs == data@,
                forall|k: int| 0 <= k < data@.len() ==> 1 <= (#[trigger] data@[k]).0
                    <= super::cells::dim_limit(),
                base4 + render_runs(runs, 0) == out@ + render_runs(runs, i as int),
            decreases data.len() - i,
        {
            let ghost entry = out@;
            let (cnt, ch) = data[i];
            if cnt > 1 {
                let cd = crate::text::dec_usize(cnt);
                crate::text::push_chars(&mut out, cd.as_slice());
            }
            out.push(ch);
            proof {
                assert(out@ =~= entry + ((if runs[i as int].0 > 1 {
                    crate::text::dec_nat(runs[i as int].0 as nat)
                } else {
                    Seq::<char>::empty()
                }) + seq![runs[i as int].1]));
                assert(out@ + render_runs(runs, i + 1) =~= entry + render_runs(runs, i as int));
            }
            i = i + 1;
        }
        proof {
            assert(render_runs(runs, i as int) =~= Seq::<char>::empty());
            assert(out@ =~= base4 + render_runs(runs, 0));
        }
        out.push('!');
        let text = string_from_chars(out.as_slice());
        output.append(text.as_str());
        Ok(())
    }
}

impl Serialise for RLE {
    open spec fn spec_output(pattern: Pattern) -> Result<Seq<char>, ParseError> {
        Ok(
            rle_name_part(pattern.metadata.name) + rle_author_part(pattern.metadata.author)
                + rle_desc_part(pattern.metadata.description) + rle_header(
                pattern.cells,
                pattern.metadata.rule,
            ) + render_runs(all_runs(pattern.cells), 0) + seq!['!'],
        )
    }

    fn serialise(output: &mut String, pattern: Pattern) -> (r: Result<(), ParseError>) {
        RLE::serialise(output, pattern)
    }
}

impl Parse for RLE {
    open spec fn is_type_spec(s: Seq<char>) -> bool {
        spec_is_type_rle(s)
    }

    open spec fn parse_rel(s: Seq<char>, r: Result<Pattern, ParseError>) -> bool {
        parse_rel_rle(s, r)
    }

    fn is_type(file: &str) -> (r: bool) {
        RLE::is_type(file)
    }

    fn parse(file: &str) -> (r: Result<Pattern, ParseError>) {
        RLE::parse(file)
    }
}

} // verus!
