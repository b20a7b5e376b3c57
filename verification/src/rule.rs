//! The birth/survival rule table: for each neighbour count from 0 to 8,
//! whether a living cell survives and whether a dead cell is born.

use vstd::prelude::*;
use crate::text::{digit_char, digit_val, is_digit};

verus! {

/// A Game of Life rule: entry `n` holds `(survives, born)` for a cell
/// with `n` living neighbours, `n` ranging over 0 to 8.
#[derive(Debug, Clone, PartialEq)]
pub struct Rule {
    table: [(bool, bool); 9],
}

impl Rule {
    /// A living cell with `n` neighbours survives under this rule.
    pub closed spec fn spec_survival(self, n: int) -> bool {
        self.table@[n].0
    }

    /// A dead cell with `n` neighbours is born under this rule.
    pub closed spec fn spec_birth(self, n: int) -> bool {
        self.table@[n].1
    }

    /// This is the classic rule: survival on 2 or 3 neighbours, birth on
    /// exactly 3.
    pub open spec fn is_normal(self) -> bool {
        forall|n: int|
            0 <= n < 9 ==> ((self.spec_survival(n) <==> (n == 2 || n == 3)) && (self.spec_birth(n)
                <==> n == 3))
    }

    /// The rule with no survivals and no births; the accumulator from
    /// which a rule string is read.
    pub fn empty() -> (r: Rule)
        ensures
            forall|n: int| 0 <= n < 9 ==> !r.spec_survival(n),
            forall|n: int| 0 <= n < 9 ==> !r.spec_birth(n),
    {
        Rule { table: [(false, false);9] }
    }

    /// The classic rule: survival on 2 or 3 neighbours, birth on exactly 3.
    pub fn normal() -> (r: Rule)
        ensures
            r.is_normal(),
    {
        Rule {
            table: [
                (false, false),
                (false, false),
                (true, false),
                (true, true),
                (false, false),
                (false, false),
                (false, false),
                (false, false),
                (false, false),
            ],
        }
    }

    /// Whether a living cell with `neighbours` neighbours survives.
    pub fn survival(&self, neighbours: usize) -> (r: bool)
        requires
            neighbours < 9,
        ensures
            r == self.spec_survival(neighbours as int),
    {
        self.table[neighbours].0
    }

    /// Whether a dead cell with `neighbours` neighbours is born.
    pub fn birth(&self, neighbours: usize) -> (r: bool)
        requires
            neighbours < 9,
        ensures
            r == self.spec_birth(neighbours as int),
    {
        self.table[neighbours].1
    }

    /// Set the survival entry for `neighbours`.
    pub fn set_survival(&mut self, neighbours: usize, survival: bool)
        requires
            neighbours < 9,
        ensures
            final(self).spec_survival(neighbours as int) == survival,
            forall|n: int|
                0 <= n < 9 && n != neighbours ==> final(self).spec_survival(n) == old(
                    self,
                ).spec_survival(n),
            forall|n: int| 0 <= n < 9 ==> final(self).spec_birth(n) == old(self).spec_birth(n),
    {
        let born = self.table[neighbours].1;
        self.table[neighbours] = (survival, born);
    }

    /// Set the birth entry for `neighbours`.
    pub fn set_birth(&mut self, neighbours: usize, birth: bool)
        requires
            neighbours < 9,
        ensures
            final(self).spec_birth(neighbours as int) == birth,
            forall|n: int|
                0 <= n < 9 && n != neighbours ==> final(self).spec_birth(n) == old(
                    self,
                ).spec_birth(n),
            forall|n: int| 0 <= n < 9 ==> final(self).spec_survival(n) == old(self).spec_survival(n),
    {
        let survives = self.table[neighbours].0;
        self.table[neighbours] = (survives, birth);
    }

    /// The digits whose birth entry is set, in ascending order,
    /// starting from count `i`.
    pub open spec fn birth_digits(self, i: int) -> Seq<char>
        decreases 9 - i,
    {
        if i < 0 || i >= 9 {
            Seq::empty()
        } else if self.spec_birth(i) {
            seq![digit_char(i)] + self.birth_digits(i + 1)
        } else {
            self.birth_digits(i + 1)
        }
    }

    /// The digits whose survival entry is set, in ascending order,
    /// starting from count `i`.
    pub open spec fn survival_digits(self, i: int) -> Seq<char>
        decreases 9 - i,
    {
        if i < 0 || i >= 9 {
            Seq::empty()
        } else if self.spec_survival(i) {
            seq![digit_char(i)] + self.survival_digits(i + 1)
        } else {
            self.survival_digits(i + 1)
        }
    }

    /// The neighbour counts on which a cell is born, as a digit string
    /// in ascending order.
    pub fn display_birth(&self) -> (r: String)
        ensures
            r@ == self.birth_digits(0),
    {
        let mut out: Vec<char> = Vec::new();
        let mut i: usize = 0;
        proof {
            assert(out@ + self.birth_digits(0) =~= self.birth_digits(0));
        }
        while i < 9
            invariant
                i <= 9,
                self.birth_digits(0) == out@ + self.birth_digits(i as int),
            decreases 9 - i,
        {
            if self.birth(i) {
                let ghost old_out = out@;
                out.push(crate::text::digit_to_char(i as u32));
                proof {
                    assert(out@ =~= old_out + seq![digit_char(i as int)]);
                    assert(self.birth_digits(i as int) == seq![digit_char(i as int)]
                        + self.birth_digits(i + 1));
                    assert(out@ + self.birth_digits(i + 1) =~= old_out + self.birth_digits(
                        i as int,
                    ));
                }
            }
            i = i + 1;
        }
        proof {
            assert(out@ =~= self.birth_digits(0));
        }
        crate::text::string_from_chars(out.as_slice())
    }

    /// The neighbour counts on which a cell survives, as a digit string
    /// in ascending order.
    pub fn display_survival(&self) -> (r: String)
        ensures
            r@ == self.survival_digits(0),
    {
        let mut out: Vec<char> = Vec::new();
        let mut i: usize = 0;
        proof {
            assert(out@ + self.survival_digits(0) =~= self.survival_digits(0));
        }
        while i < 9
            invariant
                i <= 9,
                self.survival_digits(0) == out@ + self.survival_digits(i as int),
            decreases 9 - i,
        {
            if self.survival(i) {
                let ghost old_out = out@;
                out.push(crate::text::digit_to_char(i as u32));
                proof {
                    assert(out@ =~= old_out + seq![digit_char(i as int)]);
                    assert(self.survival_digits(i as int) == seq![digit_char(i as int)]
                        + self.survival_digits(i + 1));
                    assert(out@ + self.survival_digits(i + 1) =~= old_out + self.survival_digits(
                        i as int,
                    ));
                }
            }
            i = i + 1;
        }
        proof {
            assert(out@ =~= self.survival_digits(0));
        }
        crate::text::string_from_chars(out.as_slice())
    }
}

impl Default for Rule {
    /// The classic rule is the default.
    fn default() -> (r: Rule)
        ensures
            r.is_normal(),
    {
        Rule::normal()
    }
}

// ------------------------------------------------------------------
// Rule strings
// ------------------------------------------------------------------

/// A character allowed inside a part of a rule string: a digit between
/// 0 and 8, each setting one entry of the table.
pub open spec fn rule_char_ok(c: char) -> bool {
    is_digit(c) && digit_val(c) <= 8
}

/// Scan a rule string for its first offending character: every character
/// must be a digit between 0 and 8, except a single `/` separating the
/// survival digits from the birth digits.
pub open spec fn rule_scan(s: Seq<char>, slash_seen: bool) -> Option<char>
    decreases s.len(),
{
    if s.len() == 0 {
        None
    } else if s[0] == '/' && !slash_seen {
        rule_scan(s.drop_first(), true)
    } else if rule_char_ok(s[0]) {
        rule_scan(s.drop_first(), slash_seen)
    } else {
        Some(s[0])
    }
}

/// Index of the first `/` in `s`, or `s.len()` if there is none.
pub open spec fn slash_pos(s: Seq<char>) -> int
    decreases s.len(),
{
    if s.len() == 0 {
        0
    } else if s[0] == '/' {
        0
    } else {
        1 + slash_pos(s.drop_first())
    }
}

/// The survival digits of a rule string: everything before the first `/`.
pub open spec fn survival_part(s: Seq<char>) -> Seq<char> {
    s.subrange(0, slash_pos(s))
}

/// The birth digits of a rule string: everything after the first `/`.
pub open spec fn birth_part(s: Seq<char>) -> Seq<char> {
    if slash_pos(s) < s.len() {
        s.subrange(slash_pos(s) + 1, s.len() as int)
    } else {
        Seq::empty()
    }
}

pub proof fn lemma_slash_pos(s: Seq<char>)
    ensures
        0 <= slash_pos(s) <= s.len(),
        forall|j: int| 0 <= j < slash_pos(s) ==> s[j] != '/',
        slash_pos(s) < s.len() ==> s[slash_pos(s)] == '/',
    decreases s.len(),
{
    if s.len() == 0 {
    } else if s[0] == '/' {
    } else {
        lemma_slash_pos(s.drop_first());
        assert forall|j: int| 0 <= j < slash_pos(s) implies s[j] != '/' by {
            if j >= 1 {
                assert(s.drop_first()[j - 1] != '/');
            }
        }
    }
}

impl Rule {
    /// Read a rule string `<survival digits>/<birth digits>`, the grammar
    /// shared by Life 1.05 `#R` lines and RLE `#r` lines.  Returns the
    /// first offending character when the string is not of that shape.
    pub fn from_rule_string(s: &[char]) -> (r: Result<Rule, char>)
        ensures
            r is Ok <==> rule_scan(s@, false) is None,
            r is Err ==> r == Err::<Rule, char>(rule_scan(s@, false)->Some_0),
            r is Ok ==> forall|n: int|
                0 <= n < 9 ==> (r->Ok_0.spec_survival(n) <==> survival_part(s@).contains(
                    digit_char(n),
                )),
            r is Ok ==> forall|n: int|
                0 <= n < 9 ==> (r->Ok_0.spec_birth(n) <==> birth_part(s@).contains(digit_char(n))),
    {
        let mut rule = Rule::empty();
        let ghost sp = slash_pos(s@);
        proof {
            lemma_slash_pos(s@);
            assert(s@.subrange(0, s@.len() as int) =~= s@);
        }
        let mut i: usize = 0;
        // Survival digits, up to the first '/' or the end.
        while i < s.len() && s[i] != '/'
            invariant
                0 <= i <= s@.len(),
                forall|k: int| 0 <= k < i ==> s@[k] != '/' && rule_char_ok(s@[k]),
                rule_scan(s@, false) == rule_scan(s@.subrange(i as int, s@.len() as int), false),
                forall|n: int|
                    0 <= n < 9 ==> (rule.spec_survival(n) <==> exists|k: int|
                        0 <= k < i && s@[k] == digit_char(n)),
                forall|n: int| 0 <= n < 9 ==> !rule.spec_birth(n),
            decreases s.len() - i,
        {
            let ghost rest = s@.subrange(i as int, s@.len() as int);
            let c = s[i];
            if !crate::text::digit_char_test(c) || c > '8' {
                proof {
                    assert(!rule_char_ok(c)) by {
                        if is_digit(c) && c > '8' {
                            assert(digit_val(c) > 8);
                        }
                    }
                    assert(rest[0] == c);
                    assert(rule_scan(rest, false) == Some(c));
                }
                return Err(c);
            }
            let d: u32 = c as u32 - '0' as u32;
            proof {
                assert(rule_char_ok(c));
                assert(d as int == digit_val(c));
                assert(c == digit_char(d as int));
            }
            rule.set_survival(d as usize, true);
            proof {
                assert(rest[0] == c);
                assert(rest.drop_first() =~= s@.subrange(i + 1, s@.len() as int));
                assert(rule_scan(rest, false) == rule_scan(rest.drop_first(), false));
            }
            i = i + 1;
            proof {
                assert forall|n: int|
                    0 <= n < 9 implies (rule.spec_survival(n) <==> exists|k: int|
                    0 <= k < i && s@[k] == digit_char(n)) by {
                    if rule.spec_survival(n) {
                        if n == d as int {
                            assert(s@[i - 1] == digit_char(n));
                        }
                    }
                }
            }
        }
        proof {
            // i is the position of the first '/', or the end.
            if sp < i {
                assert(s@[sp] != '/');
                assert(false);
            }
            if sp > i {
                assert((i as int) < s@.len());
                assert(false);
            }
            assert(sp == i as int);
            assert(survival_part(s@) =~= s@.subrange(0, i as int));
            assert forall|n: int|
                0 <= n < 9 implies (rule.spec_survival(n) <==> survival_part(s@).contains(
                digit_char(n),
            )) by {
                if survival_part(s@).contains(digit_char(n)) {
                    let k = choose|k: int|
                        0 <= k < survival_part(s@).len() && survival_part(s@)[k] == digit_char(n);
                    assert(s@[k] == digit_char(n));
                }
                if rule.spec_survival(n) {
                    let k = choose|k: int| 0 <= k < i && s@[k] == digit_char(n);
                    assert(survival_part(s@)[k] == digit_char(n));
                }
            }
        }
        if i == s.len() {
            // No '/': there are no birth digits.
            proof {
                assert(s@.subrange(i as int, s@.len() as int) =~= Seq::<char>::empty());
                assert(birth_part(s@) =~= Seq::<char>::empty());
            }
            return Ok(rule);
        }
        // Skip the '/'.
        let ghost at_slash = s@.subrange(i as int, s@.len() as int);
        proof {
            assert(at_slash[0] == '/');
            assert(at_slash.drop_first() =~= s@.subrange(i + 1, s@.len() as int));
            assert(rule_scan(at_slash, false) == rule_scan(at_slash.drop_first(), true));
        }
        let slash: usize = i;
        i = i + 1;
        // Birth digits: the rest of the string.
        while i < s.len()
            invariant
                slash as int == sp,
                sp < s@.len(),
                slash < i <= s@.len(),
                forall|k: int| sp < k < i ==> rule_char_ok(s@[k]),
                rule_scan(s@, false) == rule_scan(s@.subrange(i as int, s@.len() as int), true),
                forall|n: int|
                    0 <= n < 9 ==> (rule.spec_survival(n) <==> survival_part(s@).contains(
                        digit_char(n),
                    )),
                forall|n: int|
                    0 <= n < 9 ==> (rule.spec_birth(n) <==> exists|k: int|
                        sp < k < i && s@[k] == digit_char(n)),
            decreases s.len() - i,
        {
            let ghost rest = s@.subrange(i as int, s@.len() as int);
            let c = s[i];
            if !crate::text::digit_char_test(c) || c > '8' {
                proof {
                    assert(!rule_char_ok(c)) by {
                        if is_digit(c) && c > '8' {
                            assert(digit_val(c) > 8);
                        }
                    }
                    assert(rest[0] == c);
                    assert(rule_scan(rest, true) == Some(c));
                }
                return Err(c);
            }
            let d: u32 = c as u32 - '0' as u32;
            proof {
                assert(rule_char_ok(c));
                assert(d as int == digit_val(c));
                assert(c == digit_char(d as int));
            }
            rule.set_birth(d as usize, true);
            proof {
                assert(rest[0] == c);
                assert(rest.drop_first() =~= s@.subrange(i + 1, s@.len() as int));
                assert(rule_scan(rest, true) == rule_scan(rest.drop_first(), true));
            }
            i = i + 1;
            proof {
                assert forall|n: int|
                    0 <= n < 9 implies (rule.spec_birth(n) <==> exists|k: int|
                    sp < k < i && s@[k] == digit_char(n)) by {
                    if rule.spec_birth(n) {
                        if n == d as int {
                            assert(s@[i - 1] == digit_char(n));
                        }
                    }
                }
            }
        }
        proof {
            assert(s@.subrange(i as int, s@.len() as int) =~= Seq::<char>::empty());
            assert(birth_part(s@) =~= s@.subrange(sp + 1, s@.len() as int));
            assert forall|n: int|
                0 <= n < 9 implies (rule.spec_birth(n) <==> birth_part(s@).contains(
                digit_char(n),
            )) by {
                if rule.spec_birth(n) {
                    let k = choose|k: int| sp < k < i && s@[k] == digit_char(n);
                    assert(birth_part(s@)[k - sp - 1] == digit_char(n));
                } else {
                    if birth_part(s@).contains(digit_char(n)) {
                        let k = choose|k: int|
                            0 <= k < birth_part(s@).len() && birth_part(s@)[k] == digit_char(n);
                        assert(s@[sp + 1 + k] == digit_char(n));
                    }
                }
            }
        }
        Ok(rule)
    }
}

} // verus!
