//! Text utilities shared by the pattern codecs: line splitting,
//! whitespace tokenisation, trimming, and decimal numerals, each with a
//! specification-level model over `Seq<char>`.

use vstd::prelude::*;

verus! {

// ------------------------------------------------------------------
// Characters
// ------------------------------------------------------------------

/// ASCII whitespace as it may occur inside a line of a pattern file.
pub open spec fn is_ws(c: char) -> bool {
    c == ' ' || c == '\t' || c == '\r' || c == '\u{b}' || c == '\u{c}'
}

/// Decimal digit.
pub open spec fn is_digit(c: char) -> bool {
    '0' <= c && c <= '9'
}

/// Numeric value of a decimal digit.
pub open spec fn digit_val(c: char) -> int {
    c as int - '0' as int
}

/// The character for a single decimal digit value.
pub open spec fn digit_char(d: int) -> char {
    (d + '0' as int) as char
}

/// Executable test matching `is_ws`.
pub(crate) fn ws_char(c: char) -> (r: bool)
    ensures
        r == is_ws(c),
{
    c == ' ' || c == '\t' || c == '\r' || c == '\u{b}' || c == '\u{c}'
}

/// Executable test matching `is_digit`.
pub(crate) fn digit_char_test(c: char) -> (r: bool)
    ensures
        r == is_digit(c),
{
    '0' <= c && c <= '9'
}

// ------------------------------------------------------------------
// From &str to a character vector
// ------------------------------------------------------------------

/// Copy the characters of a string slice into a vector.
pub fn chars_vec(s: &str) -> (r: Vec<char>)
    ensures
        r@ == s@,
{
    let n: usize = s.unicode_len();
    let mut r: Vec<char> = Vec::new();
    let mut i: usize = 0;
    while i < n
        invariant
            i <= n,
            n == s@.len(),
            r@ == s@.subrange(0, i as int),
        decreases n - i,
    {
        r.push(s.get_char(i));
        i = i + 1;
        proof {
            assert(r@ =~= s@.subrange(0, i as int));
        }
    }
    proof {
        assert(r@ =~= s@);
    }
    r
}

/// Build a `String` holding exactly the given characters.
///
/// Relies on std's `FromIterator<&char> for String`: collecting character
/// references yields the string of exactly those characters in order.
#[verifier::external_body]
pub fn string_from_chars(v: &[char]) -> (r: String)
    ensures
        r@ == v@,
{
    v.iter().collect()
}

// ------------------------------------------------------------------
// Prefixes
// ------------------------------------------------------------------

/// `p` is a prefix of `s`.
pub open spec fn starts_with(s: Seq<char>, p: Seq<char>) -> bool {
    p.len() <= s.len() && s.subrange(0, p.len() as int) == p
}

/// Executable prefix test over character slices.
pub(crate) fn starts_with_chars(s: &[char], p: &[char]) -> (r: bool)
    ensures
        r == starts_with(s@, p@),
{
    if p.len() > s.len() {
        proof {
            assert(!starts_with(s@, p@));
        }
        return false;
    }
    let mut i: usize = 0;
    while i < p.len()
        invariant
            i <= p.len() <= s.len(),
            forall|j: int| 0 <= j < i ==> s@[j] == p@[j],
        decreases p.len() - i,
    {
        if s[i] != p[i] {
            proof {
                assert(s@.subrange(0, p@.len() as int)[i as int] != p@[i as int]);
            }
            return false;
        }
        i = i + 1;
    }
    proof {
        assert(s@.subrange(0, p@.len() as int) =~= p@);
    }
    true
}

/// `p` is a suffix of `s`.
pub open spec fn ends_with(s: Seq<char>, p: Seq<char>) -> bool {
    p.len() <= s.len() && s.subrange(s.len() - p.len(), s.len() as int) == p
}

/// Executable suffix test over character slices.
pub(crate) fn ends_with_chars(s: &[char], p: &[char]) -> (r: bool)
    ensures
        r == ends_with(s@, p@),
{
    if p.len() > s.len() {
        proof {
            assert(!ends_with(s@, p@));
        }
        return false;
    }
    let base: usize = s.len() - p.len();
    let mut i: usize = 0;
    while i < p.len()
        invariant
            i <= p.len() <= s.len(),
            base == s.len() - p.len(),
            forall|j: int| 0 <= j < i ==> s@[base + j] == p@[j],
        decreases p.len() - i,
    {
        if s[base + i] != p[i] {
            proof {
                assert(s@.subrange(s@.len() - p@.len(), s@.len() as int)[i as int] != p@[
                    i as int]);
            }
            return false;
        }
        i = i + 1;
    }
    proof {
        assert(s@.subrange(s@.len() - p@.len(), s@.len() as int) =~= p@);
    }
    true
}

// ------------------------------------------------------------------
// Lines
// ------------------------------------------------------------------

/// Index of the first newline in `s`, or `s.len()` if there is none.
pub open spec fn first_nl(s: Seq<char>) -> int
    decreases s.len(),
{
    if s.len() == 0 {
        0
    } else if s[0] == '\n' {
        0
    } else {
        1 + first_nl(s.drop_first())
    }
}

pub proof fn lemma_first_nl(s: Seq<char>)
    ensures
        0 <= first_nl(s) <= s.len(),
        forall|j: int| 0 <= j < first_nl(s) ==> s[j] != '\n',
        first_nl(s) < s.len() ==> s[first_nl(s)] == '\n',
    decreases s.len(),
{
    if s.len() == 0 {
    } else if s[0] == '\n' {
    } else {
        lemma_first_nl(s.drop_first());
        assert forall|j: int| 0 <= j < first_nl(s) implies s[j] != '\n' by {
            if j >= 1 {
                assert(s.drop_first()[j - 1] != '\n');
            }
        }
    }
}

/// A line with one trailing carriage return removed, as `str::lines` does.
pub open spec fn strip_cr(l: Seq<char>) -> Seq<char> {
    if l.len() > 0 && l[l.len() - 1] == '\r' {
        l.drop_last()
    } else {
        l
    }
}

/// The lines of a text: split at `'\n'`, strip one `'\r'` before each
/// newline, and do not yield a final empty line for a trailing newline.
pub open spec fn spec_lines(s: Seq<char>) -> Seq<Seq<char>>
    decreases s.len(),
    via spec_lines_decreases
{
    if s.len() == 0 {
        Seq::empty()
    } else {
        let i = first_nl(s);
        if i == s.len() {
            seq![s]
        } else {
            seq![strip_cr(s.subrange(0, i))] + spec_lines(s.subrange(i + 1, s.len() as int))
        }
    }
}

#[via_fn]
proof fn spec_lines_decreases(s: Seq<char>) {
    lemma_first_nl(s);
}

/// A text has no more lines than characters, and no line longer than
/// the text.
pub proof fn lemma_spec_lines_len(s: Seq<char>)
    ensures
        spec_lines(s).len() <= s.len(),
        forall|i: int| 0 <= i < spec_lines(s).len() ==> #[trigger] spec_lines(s)[i].len()
            <= s.len(),
    decreases s.len(),
{
    lemma_first_nl(s);
    if s.len() == 0 {
    } else {
        let i = first_nl(s);
        if i == s.len() {
        } else {
            let rest = s.subrange(i + 1, s.len() as int);
            lemma_spec_lines_len(rest);
            assert forall|j: int| 0 <= j < spec_lines(s).len() implies #[trigger] spec_lines(
                s,
            )[j].len() <= s.len() by {
                if j >= 1 {
                    assert(spec_lines(s)[j] == spec_lines(rest)[j - 1]);
                }
            }
        }
    }
}

/// Split a character slice into its lines.
pub fn split_lines(s: &[char]) -> (r: Vec<Vec<char>>)
    ensures
        r.deep_view() == spec_lines(s@),
{
    let mut r: Vec<Vec<char>> = Vec::new();
    let mut pos: usize = 0;
    proof {
        assert(r.deep_view() =~= Seq::<Seq<char>>::empty());
        assert(s@.subrange(0, s@.len() as int) =~= s@);
        assert(r.deep_view() + spec_lines(s@) =~= spec_lines(s@));
    }
    while pos < s.len()
        invariant
            pos <= s@.len(),
            spec_lines(s@) == r.deep_view() + spec_lines(s@.subrange(pos as int, s@.len() as int)),
        decreases s.len() - pos,
    {
        let ghost rest = s@.subrange(pos as int, s@.len() as int);
        // Scan for the next newline.
        let mut j: usize = pos;
        while j < s.len() && s[j] != '\n'
            invariant
                pos <= j <= s@.len(),
                forall|k: int| pos <= k < j ==> s@[k] != '\n',
            decreases s.len() - j,
        {
            j = j + 1;
        }
        proof {
            lemma_first_nl(rest);
            assert forall|k: int| 0 <= k < j - pos implies rest[k] != '\n' by {
                assert(rest[k] == s@[pos + k]);
            }
            if (j as int) < s@.len() {
                assert(rest[j - pos] == '\n');
            }
            // first_nl(rest) == j - pos
            if first_nl(rest) < j - pos {
                assert(rest[first_nl(rest)] != '\n');
                assert(false);
            }
            if first_nl(rest) > j - pos {
                assert((j as int) < s@.len());
                assert(false);
            }
            assert(first_nl(rest) == j - pos);
        }
        // Copy the line, stripping a trailing '\r' when it ends at a newline.
        let mut end: usize = j;
        if j < s.len() && end > pos && s[end - 1] == '\r' {
            end = end - 1;
        }
        let line: Vec<char> = vstd::slice::slice_to_vec(vstd::slice::slice_subrange(s, pos, end));
        proof {
            let i = first_nl(rest);
            assert(rest.subrange(0, i) =~= s@.subrange(pos as int, j as int));
            if (j as int) < s@.len() {
                assert(line@ =~= strip_cr(rest.subrange(0, i)));
                assert(rest.subrange(i + 1, rest.len() as int) =~= s@.subrange(
                    j + 1,
                    s@.len() as int,
                ));
                assert(spec_lines(rest) == seq![strip_cr(rest.subrange(0, i))] + spec_lines(
                    rest.subrange(i + 1, rest.len() as int),
                ));
            } else {
                assert(line@ =~= rest);
                assert(spec_lines(rest) == seq![rest]);
            }
        }
        let ghost old_deep = r.deep_view();
        r.push(line);
        proof {
            assert(r.deep_view() =~~= old_deep.push(line@));
        }
        if j < s.len() {
            pos = j + 1;
            proof {
                assert(spec_lines(s@) =~= r.deep_view() + spec_lines(
                    s@.subrange(pos as int, s@.len() as int),
                ));
            }
        } else {
            pos = s.len();
            proof {
                assert(s@.subrange(pos as int, s@.len() as int) =~= Seq::<char>::empty());
                assert(spec_lines(s@) =~= r.deep_view() + spec_lines(
                    s@.subrange(pos as int, s@.len() as int),
                ));
            }
        }
    }
    proof {
        assert(s@.subrange(pos as int, s@.len() as int) =~= Seq::<char>::empty());
        assert(r.deep_view() =~= spec_lines(s@));
    }
    r
}

// ------------------------------------------------------------------
// Whitespace tokens
// ------------------------------------------------------------------

/// Index of the first whitespace character in `s`, or `s.len()` if none.
pub open spec fn first_ws(s: Seq<char>) -> int
    decreases s.len(),
{
    if s.len() == 0 {
        0
    } else if is_ws(s[0]) {
        0
    } else {
        1 + first_ws(s.drop_first())
    }
}

pub proof fn lemma_first_ws(s: Seq<char>)
    ensures
        0 <= first_ws(s) <= s.len(),
        forall|j: int| 0 <= j < first_ws(s) ==> !is_ws(s[j]),
        first_ws(s) < s.len() ==> is_ws(s[first_ws(s)]),
    decreases s.len(),
{
    if s.len() == 0 {
    } else if is_ws(s[0]) {
    } else {
        lemma_first_ws(s.drop_first());
        assert forall|j: int| 0 <= j < first_ws(s) implies !is_ws(s[j]) by {
            if j >= 1 {
                assert(!is_ws(s.drop_first()[j - 1]));
            }
        }
    }
}

/// The whitespace-separated tokens of a line, as `str::split_whitespace`
/// yields them for ASCII text: maximal runs of non-whitespace characters.
pub open spec fn spec_split_ws(s: Seq<char>) -> Seq<Seq<char>>
    decreases s.len(),
    via spec_split_ws_decreases
{
    if s.len() == 0 {
        Seq::empty()
    } else if is_ws(s[0]) {
        spec_split_ws(s.drop_first())
    } else {
        let i = first_ws(s);
        seq![s.subrange(0, i)] + spec_split_ws(s.subrange(i, s.len() as int))
    }
}

#[via_fn]
proof fn spec_split_ws_decreases(s: Seq<char>) {
    lemma_first_ws(s);
}

/// Split a character slice into its whitespace-separated tokens.
pub fn split_ws(s: &[char]) -> (r: Vec<Vec<char>>)
    ensures
        r.deep_view() == spec_split_ws(s@),
{
    let mut r: Vec<Vec<char>> = Vec::new();
    let mut pos: usize = 0;
    proof {
        assert(r.deep_view() =~= Seq::<Seq<char>>::empty());
        assert(s@.subrange(0, s@.len() as int) =~= s@);
        assert(r.deep_view() + spec_split_ws(s@) =~= spec_split_ws(s@));
    }
    while pos < s.len()
        invariant
            pos <= s@.len(),
            spec_split_ws(s@) == r.deep_view() + spec_split_ws(
                s@.subrange(pos as int, s@.len() as int),
            ),
        decreases s.len() - pos,
    {
        let ghost rest = s@.subrange(pos as int, s@.len() as int);
        if ws_char(s[pos]) {
            proof {
                assert(rest.drop_first() =~= s@.subrange(pos + 1, s@.len() as int));
            }
            pos = pos + 1;
        } else {
            // Scan for the end of the token.
            let mut j: usize = pos;
            while j < s.len() && !ws_char(s[j])
                invariant
                    pos <= j <= s@.len(),
                    forall|k: int| pos <= k < j ==> !is_ws(s@[k]),
                decreases s.len() - j,
            {
                j = j + 1;
            }
            proof {
                lemma_first_ws(rest);
                assert forall|k: int| 0 <= k < j - pos implies !is_ws(rest[k]) by {
                    assert(rest[k] == s@[pos + k]);
                }
                if (j as int) < s@.len() {
                    assert(is_ws(rest[j - pos]));
                }
                if first_ws(rest) < j - pos {
                    assert(!is_ws(rest[first_ws(rest)]));
                    assert(false);
                }
                if first_ws(rest) > j - pos {
                    assert((j as int) < s@.len());
                    assert(false);
                }
                assert(first_ws(rest) == j - pos);
            }
            let tok: Vec<char> = vstd::slice::slice_to_vec(
                vstd::slice::slice_subrange(s, pos, j),
            );
            proof {
                let i = first_ws(rest);
                assert(rest.subrange(0, i) =~= s@.subrange(pos as int, j as int));
                assert(rest.subrange(i, rest.len() as int) =~= s@.subrange(
                    j as int,
                    s@.len() as int,
                ));
            }
            let ghost old_deep = r.deep_view();
            r.push(tok);
            proof {
                assert(r.deep_view() =~~= old_deep.push(tok@));
                assert(spec_split_ws(s@) =~= r.deep_view() + spec_split_ws(
                    s@.subrange(j as int, s@.len() as int),
                ));
            }
            pos = j;
        }
    }
    proof {
        assert(s@.subrange(pos as int, s@.len() as int) =~= Seq::<char>::empty());
        assert(r.deep_view() =~= spec_split_ws(s@));
    }
    r
}

// ------------------------------------------------------------------
// Trimming
// ------------------------------------------------------------------

/// `s` with leading whitespace removed.
pub open spec fn trim_start(s: Seq<char>) -> Seq<char>
    decreases s.len(),
{
    if s.len() > 0 && is_ws(s[0]) {
        trim_start(s.drop_first())
    } else {
        s
    }
}

/// `s` with trailing whitespace removed.
pub open spec fn trim_end(s: Seq<char>) -> Seq<char>
    decreases s.len(),
{
    if s.len() > 0 && is_ws(s[s.len() - 1]) {
        trim_end(s.drop_last())
    } else {
        s
    }
}

/// `s` with surrounding whitespace removed, as `str::trim` yields it
/// for ASCII text.
pub open spec fn spec_trim(s: Seq<char>) -> Seq<char> {
    trim_end(trim_start(s))
}

/// Remove surrounding whitespace from a character slice.
pub fn trim_chars(s: &[char]) -> (r: Vec<char>)
    ensures
        r@ == spec_trim(s@),
{
    let mut a: usize = 0;
    proof {
        assert(s@.subrange(0, s@.len() as int) =~= s@);
    }
    while a < s.len() && ws_char(s[a])
        invariant
            a <= s@.len(),
            trim_start(s@) == trim_start(s@.subrange(a as int, s@.len() as int)),
        decreases s.len() - a,
    {
        proof {
            let rest = s@.subrange(a as int, s@.len() as int);
            assert(rest.drop_first() =~= s@.subrange(a + 1, s@.len() as int));
        }
        a = a + 1;
    }
    proof {
        let rest = s@.subrange(a as int, s@.len() as int);
        assert(trim_start(rest) == rest);
    }
    // rest = s[a..]; now trim from the right.
    let mut b: usize = s.len();
    while b > a && ws_char(s[b - 1])
        invariant
            a <= b <= s@.len(),
            trim_start(s@) == s@.subrange(a as int, s@.len() as int),
            trim_end(s@.subrange(a as int, s@.len() as int)) == trim_end(
                s@.subrange(a as int, b as int),
            ),
        decreases b,
    {
        proof {
            let cur = s@.subrange(a as int, b as int);
            assert(cur.drop_last() =~= s@.subrange(a as int, b - 1));
        }
        b = b - 1;
    }
    proof {
        let cur = s@.subrange(a as int, b as int);
        assert(trim_end(cur) == cur);
    }
    vstd::slice::slice_to_vec(vstd::slice::slice_subrange(s, a, b))
}

// ------------------------------------------------------------------
// Decimal numerals
// ------------------------------------------------------------------

/// All characters are decimal digits.
pub open spec fn all_digits(s: Seq<char>) -> bool {
    forall|i: int| 0 <= i < s.len() ==> is_digit(s[i])
}

/// Value of a digit string read in base 10.
pub open spec fn digits_val(s: Seq<char>) -> int
    decreases s.len(),
{
    if s.len() == 0 {
        0
    } else {
        digits_val(s.drop_last()) * 10 + digit_val(s[s.len() - 1])
    }
}

/// `s` has the shape of a signed decimal integer as `str::parse` for a
/// signed type accepts it: an optional sign, then one or more digits.
pub open spec fn int_shape(s: Seq<char>) -> bool {
    if s.len() == 0 {
        false
    } else if s[0] == '-' || s[0] == '+' {
        s.len() > 1 && all_digits(s.drop_first())
    } else {
        all_digits(s)
    }
}

/// Integer value of a signed decimal numeral.
pub open spec fn int_val(s: Seq<char>) -> int {
    if s.len() > 0 && s[0] == '-' {
        -digits_val(s.drop_first())
    } else if s.len() > 0 && s[0] == '+' {
        digits_val(s.drop_first())
    } else {
        digits_val(s)
    }
}

pub proof fn lemma_digits_val_nonneg(s: Seq<char>)
    requires
        all_digits(s),
    ensures
        digits_val(s) >= 0,
    decreases s.len(),
{
    if s.len() > 0 {
        lemma_digits_val_nonneg(s.drop_last());
    }
}

/// Extending a digit string cannot decrease its value.
pub proof fn lemma_digits_val_prefix_le(s: Seq<char>, k: int)
    requires
        all_digits(s),
        0 <= k <= s.len(),
    ensures
        digits_val(s.subrange(0, k)) <= digits_val(s),
    decreases s.len() - k,
{
    if k == s.len() {
        assert(s.subrange(0, k) =~= s);
    } else {
        let t = s.subrange(0, k + 1);
        assert(t.drop_last() =~= s.subrange(0, k));
        lemma_digits_val_nonneg(s.subrange(0, k));
        assert(digits_val(t) == digits_val(s.subrange(0, k)) * 10 + digit_val(t[k]));
        assert(digits_val(s.subrange(0, k)) * 10 >= digits_val(s.subrange(0, k))) by (nonlinear_arith)
            requires
                digits_val(s.subrange(0, k)) >= 0,
        ;
        lemma_digits_val_prefix_le(s, k + 1);
    }
}

/// Parse a signed decimal numeral into an `isize`, as `str::parse` does:
/// `Some` exactly when the slice has the right shape and the value fits.
pub fn parse_isize(s: &[char]) -> (r: Option<isize>)
    ensures
        r is Some <==> int_shape(s@) && isize::MIN <= int_val(s@) <= isize::MAX,
        r is Some ==> r->0 as int == int_val(s@),
{
    if s.len() == 0 {
        return None;
    }
    let neg: bool = s[0] == '-';
    let start: usize = if s[0] == '-' || s[0] == '+' {
        1
    } else {
        0
    };
    if s.len() == start {
        return None;
    }
    let ghost digits = s@.subrange(start as int, s@.len() as int);
    let limit: u64 = if neg {
        (isize::MAX as u64) + 1
    } else {
        isize::MAX as u64
    };
    let mut acc: u64 = 0;
    let mut i: usize = start;
    proof {
        assert(s@.subrange(start as int, start as int) =~= Seq::<char>::empty());
    }
    while i < s.len()
        invariant
            start <= i <= s@.len(),
            start < s@.len(),
            start == 0 || start == 1,
            start == 1 ==> (s@[0] == '-' || s@[0] == '+'),
            start == 0 ==> !(s@[0] == '-' || s@[0] == '+'),
            neg <==> (s@.len() > 0 && s@[0] == '-'),
            digits == s@.subrange(start as int, s@.len() as int),
            limit as int == if neg {
                isize::MAX as int + 1
            } else {
                isize::MAX as int
            },
            forall|k: int| start <= k < i ==> is_digit(s@[k]),
            acc as int == digits_val(s@.subrange(start as int, i as int)),
            acc <= limit,
        decreases s.len() - i,
    {
        let c = s[i];
        if !digit_char_test(c) {
            proof {
                assert(!all_digits(digits)) by {
                    assert(digits[i - start] == s@[i as int]);
                }
                assert(!int_shape(s@)) by {
                    if start == 1 {
                        assert(s@.drop_first() =~= digits);
                    }
                }
            }
            return None;
        }
        let d: u64 = (c as u32 - '0' as u32) as u64;
        proof {
            assert(d as int == digit_val(c));
            assert(0 <= d <= 9);
        }
        let ghost pre = s@.subrange(start as int, i as int);
        let ghost pre1 = s@.subrange(start as int, i + 1);
        proof {
            assert(pre1.drop_last() =~= pre);
            assert(digits_val(pre1) == acc as int * 10 + d as int);
        }
        if acc > (limit - d) / 10 {
            // The value of the digits read so far already exceeds the limit,
            // and further digits can only increase it.
            proof {
                assert(acc as int * 10 + d as int > limit as int) by (nonlinear_arith)
                    requires
                        acc as int > (limit as int - d as int) / 10,
                        0 <= d <= 9,
                        d as int <= limit as int,
                ;
                if int_shape(s@) {
                    if start == 1 {
                        assert(s@.drop_first() =~= digits);
                    }
                    assert(all_digits(digits));
                    assert forall|k: int| 0 <= k <= digits.len() implies digits.subrange(0, k)
                        == s@.subrange(start as int, start + k) by {
                        assert(digits.subrange(0, k) =~= s@.subrange(start as int, start + k));
                    }
                    lemma_digits_val_prefix_le(digits, i + 1 - start);
                    assert(digits_val(digits) >= digits_val(pre1));
                    if neg {
                        assert(int_val(s@) == -digits_val(digits));
                        assert(int_val(s@) < isize::MIN);
                    } else {
                        if start == 1 {
                            assert(int_val(s@) == digits_val(digits));
                        }
                        assert(int_val(s@) > isize::MAX);
                    }
                }
            }
            return None;
        }
        proof {
            assert(acc as int * 10 + d as int <= limit as int) by (nonlinear_arith)
                requires
                    acc as int <= (limit as int - d as int) / 10,
                    0 <= d as int <= limit as int,
            ;
        }
        acc = acc * 10 + d;
        i = i + 1;
    }
    proof {
        assert(s@.subrange(start as int, i as int) =~= digits);
        assert(all_digits(digits));
        if start == 1 {
            assert(s@.drop_first() =~= digits);
        } else {
            assert(s@ =~= digits);
        }
        assert(int_shape(s@));
        lemma_digits_val_nonneg(digits);
        assert(acc as int == digits_val(digits));
        if neg {
            assert(int_val(s@) == -digits_val(digits));
        } else {
            assert(int_val(s@) == digits_val(digits));
        }
    }
    if neg {
        if acc == (isize::MAX as u64) + 1 {
            proof {
                assert(int_val(s@) == isize::MIN);
            }
            Some(isize::MIN)
        } else {
            proof {
                assert(acc <= isize::MAX as u64);
            }
            Some(-(acc as isize))
        }
    } else {
        Some(acc as isize)
    }
}

/// Append all characters of `add` to `out`.
pub fn push_chars(out: &mut Vec<char>, add: &[char])
    ensures
        final(out)@ == old(out)@ + add@,
{
    let mut k: usize = 0;
    proof {
        assert(out@ =~= old(out)@ + add@.subrange(0, 0));
    }
    while k < add.len()
        invariant
            k <= add@.len(),
            out@ == old(out)@ + add@.subrange(0, k as int),
        decreases add.len() - k,
    {
        out.push(add[k]);
        proof {
            assert(out@ =~= old(out)@ + add@.subrange(0, k + 1));
        }
        k = k + 1;
    }
    proof {
        assert(add@.subrange(0, add@.len() as int) =~= add@);
    }
}

/// The slice has the shape of a signed decimal integer and its value
/// fits an `isize`.
pub open spec fn parses_isize(s: Seq<char>) -> bool {
    int_shape(s) && isize::MIN <= int_val(s) <= isize::MAX
}

/// Decimal digits of a natural number, most significant first.
pub open spec fn dec_nat(n: nat) -> Seq<char>
    decreases n,
{
    if n < 10 {
        seq![digit_char(n as int)]
    } else {
        dec_nat(n / 10).push(digit_char((n % 10) as int))
    }
}

/// Decimal numeral of an integer: a minus sign for negative values,
/// then the digits of the magnitude.
pub open spec fn dec_int(v: int) -> Seq<char> {
    if v < 0 {
        seq!['-'] + dec_nat((-v) as nat)
    } else {
        dec_nat(v as nat)
    }
}

/// The character of a single digit value.
pub(crate) fn digit_to_char(d: u32) -> (c: char)
    requires
        d <= 9,
    ensures
        c == digit_char(d as int),
{
    match d {
        0 => '0',
        1 => '1',
        2 => '2',
        3 => '3',
        4 => '4',
        5 => '5',
        6 => '6',
        7 => '7',
        8 => '8',
        _ => '9',
    }
}

/// The decimal digits of a natural number are digits and read back to
/// that number.
pub proof fn lemma_dec_nat(n: nat)
    ensures
        all_digits(dec_nat(n)),
        digits_val(dec_nat(n)) == n,
        dec_nat(n).len() >= 1,
    decreases n,
{
    if n < 10 {
        assert(0 <= n as int + ('0' as int) < 0xD800);
        assert(digit_char(n as int) as int == n as int + ('0' as int));
        assert(dec_nat(n) =~= seq![digit_char(n as int)]);
        assert(dec_nat(n).drop_last() =~= Seq::<char>::empty());
        assert(digits_val(Seq::<char>::empty()) == 0);
        assert(dec_nat(n)[dec_nat(n).len() - 1] == digit_char(n as int));
        assert(digits_val(dec_nat(n)) == digit_val(digit_char(n as int)));
        assert(is_digit(digit_char(n as int)));
    } else {
        lemma_dec_nat(n / 10);
        assert(dec_nat(n).drop_last() =~= dec_nat(n / 10));
        assert(0 <= (n % 10) as int + ('0' as int) < 0xD800);
        assert(digit_char((n % 10) as int) as int == (n % 10) as int + ('0' as int));
        assert(is_digit(digit_char((n % 10) as int)));
        assert(dec_nat(n)[dec_nat(n).len() - 1] == digit_char((n % 10) as int));
        assert(digits_val(dec_nat(n)) == digits_val(dec_nat(n / 10)) * 10 + digit_val(
            digit_char((n % 10) as int),
        ));
    }
}

/// The decimal numeral of an `isize`-ranged integer has the integer
/// shape, reads back to that integer, and holds neither whitespace nor
/// newlines.
pub proof fn lemma_dec_int(v: int)
    requires
        isize::MIN <= v <= isize::MAX,
    ensures
        parses_isize(dec_int(v)),
        int_val(dec_int(v)) == v,
        dec_int(v).len() >= 1,
        forall|i: int| 0 <= i < dec_int(v).len() ==> !is_ws(#[trigger] dec_int(v)[i]),
        forall|i: int| 0 <= i < dec_int(v).len() ==> #[trigger] dec_int(v)[i] != '\n',
{
    if v < 0 {
        lemma_dec_nat((-v) as nat);
        assert(dec_int(v)[0] == '-');
        assert(dec_int(v).drop_first() =~= dec_nat((-v) as nat));
        assert(int_val(dec_int(v)) == -digits_val(dec_nat((-v) as nat)));
        assert forall|i: int| 0 <= i < dec_int(v).len() implies !is_ws(#[trigger] dec_int(v)[i])
            && dec_int(v)[i] != '\n' by {
            if i >= 1 {
                assert(is_digit(dec_nat((-v) as nat)[i - 1]));
                assert(dec_int(v)[i] == dec_nat((-v) as nat)[i - 1]);
            }
        }
    } else {
        lemma_dec_nat(v as nat);
        assert(dec_int(v) == dec_nat(v as nat));
        assert(dec_int(v)[0] != '-' && dec_int(v)[0] != '+') by {
            assert(is_digit(dec_nat(v as nat)[0]));
        }
        assert forall|i: int| 0 <= i < dec_int(v).len() implies !is_ws(#[trigger] dec_int(v)[i])
            && dec_int(v)[i] != '\n' by {
            assert(is_digit(dec_int(v)[i]));
        }
    }
}

/// Splitting at a newline: a newline-free first line (not ending in a
/// carriage return) comes off the front.
pub proof fn lemma_spec_lines_cons(a: Seq<char>, b: Seq<char>)
    requires
        forall|i: int| 0 <= i < a.len() ==> #[trigger] a[i] != '\n',
        a.len() == 0 || a[a.len() - 1] != '\r',
    ensures
        spec_lines(a + seq!['\n'] + b) == seq![a] + spec_lines(b),
{
    let s = a + seq!['\n'] + b;
    lemma_first_nl(s);
    assert(s[a.len() as int] == '\n');
    assert forall|j: int| 0 <= j < a.len() implies s[j] != '\n' by {
        assert(s[j] == a[j]);
    }
    if first_nl(s) < a.len() {
        assert(s[first_nl(s)] != '\n');
        assert(false);
    }
    if first_nl(s) > a.len() {
        assert(false);
    }
    assert(first_nl(s) == a.len());
    assert(s.subrange(0, a.len() as int) =~= a);
    assert(strip_cr(a) == a);
    assert(s.subrange(a.len() as int + 1, s.len() as int) =~= b);
    assert(s.len() > 0);
    assert(spec_lines(s) =~= seq![a] + spec_lines(b));
}

/// Splitting at one space: a whitespace-free, non-empty token comes off
/// the front.
pub proof fn lemma_split_ws_cons(a: Seq<char>, b: Seq<char>)
    requires
        a.len() > 0,
        forall|i: int| 0 <= i < a.len() ==> !is_ws(#[trigger] a[i]),
    ensures
        spec_split_ws(a + seq![' '] + b) == seq![a] + spec_split_ws(b),
    decreases b.len(),
{
    let s = a + seq![' '] + b;
    lemma_first_ws(s);
    assert(is_ws(s[a.len() as int]));
    assert forall|j: int| 0 <= j < a.len() implies !is_ws(s[j]) by {
        assert(s[j] == a[j]);
    }
    if first_ws(s) < a.len() {
        assert(!is_ws(s[first_ws(s)]));
        assert(false);
    }
    if first_ws(s) > a.len() {
        assert(false);
    }
    assert(first_ws(s) == a.len());
    assert(!is_ws(s[0]));
    assert(s.subrange(0, a.len() as int) =~= a);
    assert(s.subrange(a.len() as int, s.len() as int) =~= seq![' '] + b);
    assert((seq![' '] + b).drop_first() =~= b);
    assert(spec_split_ws(seq![' '] + b) == spec_split_ws(b));
    assert(spec_split_ws(s) =~= seq![a] + spec_split_ws(b));
}

/// Write a `usize` in decimal.
pub fn dec_usize(n: usize) -> (r: Vec<char>)
    ensures
        r@ == dec_nat(n as nat),
{
    let mut out: Vec<char> = Vec::new();
    let mut m: usize = n;
    proof {
        assert(dec_nat(n as nat) =~= dec_nat(m as nat) + out@);
    }
    while m >= 10
        invariant
            dec_nat(n as nat) == dec_nat(m as nat) + out@,
        decreases m,
    {
        let d: u32 = (m % 10) as u32;
        let c: char = digit_to_char(d);
        proof {
            assert(c == digit_char((m % 10) as int));
        }
        let ghost old_out = out@;
        out.insert(0, c);
        proof {
            assert(out@ =~= seq![c] + old_out);
            assert(dec_nat(m as nat) == dec_nat((m / 10) as nat).push(c));
            assert(dec_nat((m / 10) as nat) + out@ =~= dec_nat(m as nat) + old_out);
        }
        m = m / 10;
    }
    let d: u32 = m as u32;
    let c: char = digit_to_char(d);
    proof {
        assert(c == digit_char(m as int));
        assert(dec_nat(m as nat) =~= seq![c]);
    }
    let ghost old_out = out@;
    out.insert(0, c);
    proof {
        assert(out@ =~= seq![c] + old_out);
        assert(out@ =~= dec_nat(m as nat) + old_out);
    }
    out
}

/// Write an `isize` in decimal.
pub fn dec_isize(v: isize) -> (r: Vec<char>)
    ensures
        r@ == dec_int(v as int),
{
    if v >= 0 {
        dec_usize(v as usize)
    } else {
        let m: usize = ((-(v + 1)) as usize) + 1;
        proof {
            assert(m as int == -(v as int));
        }
        let mut out = dec_usize(m);
        let ghost old_out = out@;
        out.insert(0, '-');
        proof {
            assert(out@ =~= seq!['-'] + old_out);
        }
        out
    }
}

} // verus!
