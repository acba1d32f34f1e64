//! Glob-style pattern matching over normalized paths.
//!
//! `*` matches any run of characters within one path segment, `**` matches
//! any run of characters including segment separators, and every other
//! character matches itself.

use vstd::prelude::*;

verus! {

/// True when the pattern `p` matches the whole text `s`. `*` stands for any
/// run of non-separator characters and `**` for any run of characters.
pub open spec fn glob_matches(p: Seq<char>, s: Seq<char>) -> bool
    decreases p.len(), s.len(),
{
    if p.len() == 0 {
        s.len() == 0
    } else if p[0] == '*' {
        if p.len() >= 2 && p[1] == '*' {
            glob_matches(p.skip(2), s) || (s.len() > 0 && glob_matches(p, s.skip(1)))
        } else {
            glob_matches(p.skip(1), s) || (s.len() > 0 && s[0] != '/' && glob_matches(
                p,
                s.skip(1),
            ))
        }
    } else {
        s.len() > 0 && p[0] == s[0] && glob_matches(p.skip(1), s.skip(1))
    }
}

fn glob_matches_from(p: &Vec<char>, s: &Vec<char>, i: usize, j: usize) -> (r: bool)
    requires
        i <= p@.len(),
        j <= s@.len(),
    ensures
        r == glob_matches(p@.skip(i as int), s@.skip(j as int)),
    decreases p@.len() - i, s@.len() - j,
{
    let ghost pp = p@.skip(i as int);
    let ghost ss = s@.skip(j as int);
    if i == p.len() {
        assert(pp.len() == 0);
        j == s.len()
    } else if p[i] == '*' {
        assert(pp[0] == '*');
        if i + 1 < p.len() && p[i + 1] == '*' {
            assert(pp.len() >= 2 && pp[1] == '*');
            assert(p@.skip(i as int).skip(2) =~= p@.skip(i + 2));
            if glob_matches_from(p, s, i + 2, j) {
                true
            } else if j < s.len() {
                assert(s@.skip(j as int).skip(1) =~= s@.skip(j + 1));
                glob_matches_from(p, s, i, j + 1)
            } else {
                assert(ss.len() == 0);
                false
            }
        } else {
            assert(!(pp.len() >= 2 && pp[1] == '*'));
            assert(p@.skip(i as int).skip(1) =~= p@.skip(i + 1));
            if glob_matches_from(p, s, i + 1, j) {
                true
            } else if j < s.len() && s[j] != '/' {
                assert(ss[0] == s@[j as int]);
                assert(s@.skip(j as int).skip(1) =~= s@.skip(j + 1));
                glob_matches_from(p, s, i, j + 1)
            } else {
                false
            }
        }
    } else {
        assert(pp[0] == p@[i as int]);
        if j < s.len() && p[i] == s[j] {
            assert(ss[0] == s@[j as int]);
            assert(p@.skip(i as int).skip(1) =~= p@.skip(i + 1));
            assert(s@.skip(j as int).skip(1) =~= s@.skip(j + 1));
            glob_matches_from(p, s, i + 1, j + 1)
        } else {
            false
        }
    }
}

/// Decides `glob_matches` on whole character vectors.
pub fn glob_match_chars(p: &Vec<char>, s: &Vec<char>) -> (r: bool)
    ensures
        r == glob_matches(p@, s@),
{
    let r = glob_matches_from(p, s, 0, 0);
    assert(p@.skip(0) =~= p@);
    assert(s@.skip(0) =~= s@);
    r
}

/// One character folded for case-insensitive comparison: an ASCII capital
/// becomes its small form, everything else stays.
pub open spec fn fold_char(c: char) -> char {
    if 'A' <= c && c <= 'Z' {
        ((c as u32) + 32) as char
    } else {
        c
    }
}

/// A text folded for case-insensitive comparison.
pub open spec fn fold_seq(s: Seq<char>) -> Seq<char> {
    s.map_values(|c: char| fold_char(c))
}

fn fold_char_exec(c: char) -> (r: char)
    ensures
        r == fold_char(c),
{
    match c {
        'A' => 'a',
        'B' => 'b',
        'C' => 'c',
        'D' => 'd',
        'E' => 'e',
        'F' => 'f',
        'G' => 'g',
        'H' => 'h',
        'I' => 'i',
        'J' => 'j',
        'K' => 'k',
        'L' => 'l',
        'M' => 'm',
        'N' => 'n',
        'O' => 'o',
        'P' => 'p',
        'Q' => 'q',
        'R' => 'r',
        'S' => 's',
        'T' => 't',
        'U' => 'u',
        'V' => 'v',
        'W' => 'w',
        'X' => 'x',
        'Y' => 'y',
        'Z' => 'z',
        other => other,
    }
}

/// Folds a text for case-insensitive comparison.
#[verifier::loop_isolation(false)]
pub fn fold_chars(s: &Vec<char>) -> (r: Vec<char>)
    ensures
        r@ == fold_seq(s@),
{
    let mut r: Vec<char> = Vec::new();
    let mut i: usize = 0;
    assert(r@ =~= fold_seq(s@.subrange(0, 0)));
    while i < s.len()
        invariant
            i <= s@.len(),
            r@ == fold_seq(s@.subrange(0, i as int)),
        decreases s.len() - i,
    {
        r.push(fold_char_exec(s[i]));
        proof {
            assert(r@ =~= fold_seq(s@.subrange(0, i + 1)));
        }
        i += 1;
    }
    assert(s@.subrange(0, s@.len() as int) =~= s@);
    r
}

/// Decides `glob_matches` up to ASCII case, as filesystems that ignore case
/// compare: both the pattern and the text are folded first.
pub fn glob_match_chars_ci(p: &Vec<char>, s: &Vec<char>) -> (r: bool)
    ensures
        r == glob_matches(fold_seq(p@), fold_seq(s@)),
{
    let pf = fold_chars(p);
    let sf = fold_chars(s);
    glob_match_chars(&pf, &sf)
}

} // verus!
