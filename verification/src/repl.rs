//! Helpers for an interactive toplevel: command detection, bracket
//! matching and whole-word keyword replacement.
//!
//! These work on character positions; the front end hands them single
//! input lines.

use vstd::prelude::*;

verus! {

/// Whether a character is one of the ASCII whitespace characters: space,
/// tab, line feed, form feed or carriage return. The vertical tab is not
/// one of them.
pub open spec fn is_ws(c: char) -> bool {
    c == ' ' || c == '\t' || c == '\n' || c == '\u{c}' || c == '\r'
}

fn is_ws_exec(c: char) -> (r: bool)
    ensures
        r == is_ws(c),
{
    c == ' ' || c == '\t' || c == '\n' || c == '\u{c}' || c == '\r'
}

/// The position of the first non-whitespace character at or after `i`.
pub open spec fn first_non_ws(s: Seq<char>, i: int) -> Option<int>
    decreases s.len() - i,
{
    if i < 0 || i >= s.len() {
        None
    } else if !is_ws(s[i]) {
        Some(i)
    } else {
        first_non_ws(s, i + 1)
    }
}

/// What `is_command` decides: a line is a command when it has a
/// non-whitespace character and does not start, there, with `//`.
pub open spec fn is_command_sp(s: Seq<char>) -> bool {
    match first_non_ws(s, 0) {
        None => false,
        Some(p) => s.len() < 2 || !(p + 2 <= s.len() && s[p] == '/' && s[p + 1] == '/'),
    }
}

/// Tests whether the line is a command, that is, not blank and not a
/// comment. Whitespace here means ASCII whitespace: a line led only by
/// exotic Unicode spaces counts as a command.
pub fn is_command(input: &str) -> (r: bool)
    ensures
        r == is_command_sp(input@),
{
    let n = input.unicode_len();
    let mut i: usize = 0;
    while i < n
        invariant
            i <= n,
            n == input@.len(),
            first_non_ws(input@, 0) == first_non_ws(input@, i as int),
        decreases n - i,
    {
        if !is_ws_exec(input.get_char(i)) {
            if n < 2 {
                return true;
            }
            if i <= n - 2 {
                let a = input.get_char(i);
                let b = input.get_char(i + 1);
                return !(a == '/' && b == '/');
            }
            return true;
        }
        i += 1;
    }
    false
}

/// Whether the line ends, ignoring trailing whitespace, in `->` or `=>`,
/// so that the reader should ask for more input.
pub open spec fn ends_in_arrow(s: Seq<char>) -> bool
    decreases s.len(),
{
    if s.len() == 0 {
        false
    } else if is_ws(s.last()) {
        ends_in_arrow(s.drop_last())
    } else {
        s.last() == '>' && s.len() >= 2 && (s[s.len() - 2] == '-' || s[s.len() - 2] == '=')
    }
}

/// The reading of a line by the validator.
#[derive(Debug, PartialEq, Eq, Clone)]
pub enum LineStatus {
    /// The line can be taken as it stands.
    Valid,
    /// The line is visibly unfinished; the reader should ask for more.
    Incomplete,
    /// The line cannot be completed; the message says why.
    Invalid(String),
}

/// Reports an unfinished line: one whose last symbol is an arrow.
pub fn validate_arrows(input: &str) -> (r: Option<LineStatus>)
    ensures
        match r {
            Some(st) => ends_in_arrow(input@) && st == LineStatus::Incomplete,
            None => !ends_in_arrow(input@),
        },
{
    let n = input.unicode_len();
    let mut i: usize = n;
    proof {
        assert(input@.take(n as int) =~= input@);
    }
    while i > 0
        invariant
            i <= n,
            n == input@.len(),
            ends_in_arrow(input@) == ends_in_arrow(input@.take(i as int)),
        decreases i,
    {
        proof {
            assert(input@.take(i as int).drop_last() =~= input@.take(i - 1));
            assert(input@.take(i as int).last() == input@[i - 1]);
        }
        let c = input.get_char(i - 1);
        if !is_ws_exec(c) {
            if c == '>' && i >= 2 {
                let b = input.get_char(i - 2);
                proof {
                    assert(input@.take(i as int)[i - 2] == input@[i - 2]);
                }
                if b == '-' || b == '=' {
                    return Some(LineStatus::Incomplete);
                }
            }
            return None;
        }
        i -= 1;
    }
    proof {
        assert(input@.take(0) =~= Seq::<char>::empty());
    }
    None
}

/// How a prefix of the line balances its parentheses: the number still
/// open, or `None` as soon as one closes without having been opened.
pub open spec fn paren_depth(s: Seq<char>, i: int) -> Option<nat>
    decreases i,
{
    if i <= 0 {
        Some(0)
    } else {
        match paren_depth(s, i - 1) {
            None => None,
            Some(d) => if s[i - 1] == '(' {
                Some(d + 1)
            } else if s[i - 1] == ')' {
                if d == 0 {
                    None
                } else {
                    Some((d - 1) as nat)
                }
            } else {
                Some(d)
            },
        }
    }
}

/// A line that has already failed stays failed however far one reads.
proof fn lemma_paren_none(s: Seq<char>, i: int, j: int)
    requires
        i <= j,
        paren_depth(s, i) is None,
    ensures
        paren_depth(s, j) is None,
    decreases j - i,
{
    if i < j {
        lemma_paren_none(s, i, j - 1);
    }
}

/// Reports a line whose parentheses do not close: either a closing
/// parenthesis that was never opened, or openings left unclosed. Only
/// parentheses are bracketed in this syntax, so a depth counter carries
/// the whole stack.
pub fn validate_brackets(input: &str) -> (r: Option<LineStatus>)
    ensures
        match r {
            Some(st) => match st {
                LineStatus::Invalid(m) => paren_depth(input@, input@.len() as int) is None && m@
                    == "\nMismatched brackets: ( is unpaired"@,
                LineStatus::Incomplete => paren_depth(input@, input@.len() as int) matches Some(d)
                    && d > 0,
                _ => false,
            },
            None => paren_depth(input@, input@.len() as int) == Some(0nat),
        },
{
    let n = input.unicode_len();
    let mut depth: usize = 0;
    let mut i: usize = 0;
    while i < n
        invariant
            i <= n,
            n == input@.len(),
            paren_depth(input@, i as int) == Some(depth as nat),
            depth <= i,
        decreases n - i,
    {
        let c = input.get_char(i);
        if c == '(' {
            depth += 1;
        } else if c == ')' {
            if depth == 0 {
                proof {
                    assert(paren_depth(input@, i + 1) is None);
                    lemma_paren_none(input@, i + 1, n as int);
                }
                return Some(
                    LineStatus::Invalid("\nMismatched brackets: ( is unpaired".to_owned()),
                );
            }
            depth -= 1;
        }
        i += 1;
    }
    if depth == 0 {
        None
    } else {
        Some(LineStatus::Incomplete)
    }
}

/// Tests whether the given symbol is a bracket.
pub fn is_bracket(bracket: u8) -> (r: bool)
    ensures
        r == (bracket == 40 || bracket == 41),
{
    bracket == 40 || bracket == 41
}

/// Tests whether the given symbol is an opening bracket.
pub fn is_open_bracket(bracket: u8) -> (r: bool)
    ensures
        r == (bracket == 40),
{
    bracket == 40
}

/// Associates the opening (resp. closing) bracket to its closing (resp.
/// opening) counterpart.
pub fn matching_bracket(bracket: u8) -> (r: char)
    requires
        bracket == 40 || bracket == 41,
    ensures
        bracket == 40 ==> r == ')',
        bracket == 41 ==> r == '(',
{
    if bracket == 40 {
        ')'
    } else {
        '('
    }
}

/// The bracket under the cursor, if the cursor is on one.
pub open spec fn get_bracket_sp(s: Seq<char>, pos: usize) -> Option<(u8, usize)> {
    if s.len() > 0 && (pos as int) < s.len() {
        if s[pos as int] == '(' {
            Some((40u8, pos))
        } else if s[pos as int] == ')' {
            Some((41u8, pos))
        } else {
            None
        }
    } else {
        None
    }
}

/// Checks whether the cursor is on a bracket.
pub fn get_bracket(line: &str, pos: usize) -> (r: Option<(u8, usize)>)
    ensures
        r == get_bracket_sp(line@, pos),
{
    let n = line.unicode_len();
    if n > 0 && pos < n {
        let c = line.get_char(pos);
        if c == '(' {
            Some((40u8, pos))
        } else if c == ')' {
            Some((41u8, pos))
        } else {
            None
        }
    } else {
        None
    }
}

/// Forward search for the position closing the bracket: the counter holds
/// how many openings are still unmatched.
pub open spec fn fwd_match(s: Seq<char>, i: int, open: char, close: char, cnt: nat) -> Option<usize>
    decreases s.len() - i,
{
    if i < 0 || i >= s.len() {
        None
    } else {
        let c2 = if s[i] == close {
            (cnt - 1) as nat
        } else if s[i] == open {
            cnt + 1
        } else {
            cnt
        };
        if s[i] == close && cnt == 1 {
            Some(i as usize)
        } else if s[i] == close && cnt == 0 {
            None
        } else {
            fwd_match(s, i + 1, open, close, c2)
        }
    }
}

/// Backward search for the position opening the bracket.
pub open spec fn bwd_match(s: Seq<char>, i: int, open: char, close: char, cnt: nat) -> Option<usize>
    decreases i + 1,
{
    if i < 0 || i >= s.len() {
        None
    } else {
        let c2 = if s[i] == close {
            (cnt - 1) as nat
        } else if s[i] == open {
            cnt + 1
        } else {
            cnt
        };
        if s[i] == close && cnt == 1 {
            Some(i as usize)
        } else if s[i] == close && cnt == 0 {
            None
        } else {
            bwd_match(s, i - 1, open, close, c2)
        }
    }
}

/// What `find_matching_bracket` finds: scanning away from the cursor, the
/// position at which the counter of unmatched brackets returns to zero.
pub open spec fn fmb_sp(s: Seq<char>, pos: usize, bracket: u8) -> Option<(char, usize)> {
    if bracket == 40 {
        match fwd_match(s, pos + 1, '(', ')', 1) {
            Some(j) => Some((')', j)),
            None => None,
        }
    } else {
        match bwd_match(s, pos - 1, ')', '(', 1) {
            Some(j) => Some(('(', j)),
            None => None,
        }
    }
}

/// Finds the position of the bracket associated to the given position, if
/// any.
pub fn find_matching_bracket(line: &str, pos: usize, bracket: u8) -> (r: Option<(char, usize)>)
    requires
        bracket == 40 || bracket == 41,
        pos < line@.len(),
    ensures
        r == fmb_sp(line@, pos, bracket),
{
    let n = line.unicode_len();
    if bracket == 40 {
        let mut cnt: usize = 1;
        let mut i: usize = pos + 1;
        while i < n
            invariant
                bracket == 40,
                pos < i <= n,
                n == line@.len(),
                1 <= cnt <= i - pos,
                fwd_match(line@, pos + 1, '(', ')', 1) == fwd_match(line@, i as int, '(', ')', cnt as nat),
            decreases n - i,
        {
            let c = line.get_char(i);
            if c == ')' {
                if cnt == 1 {
                    proof {
                        assert(fwd_match(line@, i as int, '(', ')', cnt as nat) == Some(i));
                    }
                    return Some((')', i));
                }
                cnt -= 1;
            } else if c == '(' {
                cnt += 1;
            }
            i += 1;
        }
        None
    } else {
        let mut cnt: usize = 1;
        let mut i: usize = pos;
        while i > 0
            invariant
                bracket == 41,
                i <= pos < n,
                n == line@.len(),
                1 <= cnt <= pos - i + 1,
                bwd_match(line@, pos - 1, ')', '(', 1) == bwd_match(line@, i - 1, ')', '(', cnt as nat),
            decreases i,
        {
            let c = line.get_char(i - 1);
            if c == '(' {
                if cnt == 1 {
                    proof {
                        assert(bwd_match(line@, i - 1, ')', '(', cnt as nat) == Some(
                            (i - 1) as usize,
                        ));
                    }
                    return Some(('(', i - 1));
                }
                cnt -= 1;
            } else if c == ')' {
                cnt += 1;
            }
            i -= 1;
        }
        None
    }
}

/// A handler for the tab key: a line that does not start an import is
/// indented by two spaces.
pub struct TabEventHandler;

impl TabEventHandler {
    /// The text to insert for a tab, or nothing on an import line, where
    /// the front end offers file completion instead.
    pub fn indent(line: &str) -> (r: Option<String>)
        ensures
            match r {
                None => "import"@.is_prefix_of(line@),
                Some(s) => !"import"@.is_prefix_of(line@) && s@ == "  "@,
            },
    {
        proof {
            reveal_strlit("import");
            reveal_strlit("  ");
        }
        let n = line.unicode_len();
        if n >= 6 {
            let starts = line.get_char(0) == 'i' && line.get_char(1) == 'm' && line.get_char(2)
                == 'p' && line.get_char(3) == 'o' && line.get_char(4) == 'r' && line.get_char(5)
                == 't';
            if starts {
                proof {
                    assert("import"@ =~= line@.subrange(0, 6));
                    assert("import"@.len() <= line@.len());
                }
                return None;
            }
        }
        proof {
            assert(!"import"@.is_prefix_of(line@)) by {
                reveal_strlit("import");
                assert("import"@.len() == 6);
                if "import"@.is_prefix_of(line@) {
                    assert(line@.subrange(0, 6) =~= "import"@);
                    assert(line@[0] == "import"@[0] && line@[1] == "import"@[1] && line@[2]
                        == "import"@[2] && line@[3] == "import"@[3] && line@[4] == "import"@[4]
                        && line@[5] == "import"@[5]);
                }
            }
        }
        Some("  ".to_owned())
    }
}

/// The first occurrence of `from` in `s` at or after `i`.
pub open spec fn find_from(s: Seq<char>, from: Seq<char>, i: int) -> Option<int>
    decreases s.len() - i,
{
    if from.len() <= 0 || i < 0 || i + from.len() > s.len() {
        None
    } else if s.subrange(i, i + from.len()) == from {
        Some(i)
    } else {
        find_from(s, from, i + 1)
    }
}

/// What `replace_inplace` computes: scanning from `offset`, every
/// occurrence of `from` that stands as a full word (each side an edge of
/// the scanned range or whitespace) is replaced by `to`, and scanning
/// resumes after the replacement.
pub open spec fn replace_sp(s: Seq<char>, from: Seq<char>, to: Seq<char>, offset: int) -> Seq<char>
    decreases s.len() - offset,
    when from.len() >= 1
    via replace_sp_dec
{
    match find_from(s, from, offset) {
        None => s,
        Some(j) => {
            let left_ok = j == offset || is_ws(s[j - 1]);
            let right_ok = j + from.len() == s.len() || is_ws(s[j + from.len()]);
            if left_ok && right_ok {
                let s2 = s.subrange(0, j) + to + s.subrange(j + from.len(), s.len() as int);
                replace_sp(s2, from, to, j + to.len())
            } else {
                replace_sp(s, from, to, j + from.len())
            }
        },
    }
}

/// The scanned suffix shrinks at every step of the replacement scan.
proof fn lemma_find_from_bounds(s: Seq<char>, from: Seq<char>, i: int)
    ensures
        match find_from(s, from, i) {
            Some(j) => j >= i && j >= 0 && j + from.len() <= s.len(),
            None => true,
        },
    decreases s.len() - i,
{
    if !(from.len() <= 0 || i < 0 || i + from.len() > s.len()) && s.subrange(i, i + from.len())
        != from {
        lemma_find_from_bounds(s, from, i + 1);
    }
}

#[via_fn]
proof fn replace_sp_dec(s: Seq<char>, from: Seq<char>, to: Seq<char>, offset: int) {
    lemma_find_from_bounds(s, from, offset);
}

/// Compares `from` against `s` at position `i`.
fn match_at(s: &str, from: &str, i: usize) -> (r: bool)
    requires
        i + from@.len() <= s@.len(),
        s@.len() <= usize::MAX,
    ensures
        r == (s@.subrange(i as int, i + from@.len()) == from@),
{
    let m = from.unicode_len();
    let mut k: usize = 0;
    while k < m
        invariant
            k <= m,
            i + m <= s@.len(),
            i + m <= usize::MAX,
            m == from@.len(),
            forall|t: int| 0 <= t < k ==> s@[i + t] == from@[t],
        decreases m - k,
    {
        if s.get_char(i + k) != from.get_char(k) {
            proof {
                assert(s@.subrange(i as int, i + m as int)[k as int] == s@[i + k]);
            }
            return false;
        }
        k += 1;
    }
    proof {
        assert(s@.subrange(i as int, i + m as int) =~= from@);
    }
    true
}

/// Finds the first occurrence of `from` in `s` at or after `offset`.
fn find_at(s: &str, from: &str, offset: usize) -> (r: Option<usize>)
    requires
        from@.len() >= 1,
    ensures
        match r {
            Some(j) => j >= offset && j + from@.len() <= s@.len() && find_from(
                s@,
                from@,
                offset as int,
            ) == Some(j as int),
            None => find_from(s@, from@, offset as int) is None,
        },
{
    let n = s.unicode_len();
    let m = from.unicode_len();
    let mut i: usize = offset;
    while m <= n && i <= n - m
        invariant
            offset <= i,
            n == s@.len(),
            m == from@.len(),
            m >= 1,
            find_from(s@, from@, offset as int) == find_from(s@, from@, i as int),
        decreases n - i,
    {
        if match_at(s, from, i) {
            return Some(i);
        }
        i += 1;
    }
    proof {
        assert(find_from(s@, from@, i as int) is None);
    }
    None
}

/// Variation of the standard replace that only replaces full words: an
/// occurrence counts only when each side is whitespace or an edge of the
/// remaining scan range.
pub fn replace_inplace(input: &mut String, from: &str, to: &str)
    requires
        from@.len() >= 1,
    ensures
        final(input)@ == replace_sp(old(input)@, from@, to@, 0),
{
    let ghost target = replace_sp(old(input)@, from@, to@, 0);
    let mut offset: usize = 0;
    loop
        invariant
            from@.len() >= 1,
            offset <= input@.len(),
            replace_sp(input@, from@, to@, offset as int) == target,
        ensures
            replace_sp(input@, from@, to@, offset as int) == target,
            find_from(input@, from@, offset as int) is None,
        decreases input@.len() - offset,
    {
        let j = match find_at(input.as_str(), from, offset) {
            None => {
                break;
            },
            Some(j) => j,
        };
        let m = from.unicode_len();
        let n = input.unicode_len();
        let left_ok = j == offset || {
            let c = input.as_str().get_char(j - 1);
            is_ws_exec(c)
        };
        let right_ok = j + m == n || {
            let c = input.as_str().get_char(j + m);
            is_ws_exec(c)
        };
        if left_ok && right_ok {
            let mut out = String::new();
            out.append(input.as_str().substring_char(0, j));
            out.append(to);
            out.append(input.as_str().substring_char(j + m, n));
            proof {
                assert(out@ =~= input@.subrange(0, j as int) + to@ + input@.subrange(
                    j + m,
                    input@.len() as int,
                ));
            }
            let tol = to.unicode_len();
            let ol = out.unicode_len();
            proof {
                assert(out@.len() == j + to@.len() + (n - (j + m)));
                assert(j + tol <= ol);
            }
            *input = out;
            offset = j + tol;
        } else {
            offset = j + m;
        }
    }
    proof {
        assert(replace_sp(input@, from@, to@, offset as int) == input@);
    }
}

} // verus!
