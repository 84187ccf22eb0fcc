//! Extracting the request target from the first line of a request.

use vstd::prelude::*;
use vstd::string::*;

verus! {

/// Unicode white space, the characters that separate request-line tokens.
pub open spec fn is_white(c: char) -> bool {
    let u = c as u32;
    (9 <= u && u <= 13) || u == 32 || u == 0x85 || u == 0xA0 || u == 0x1680 || (0x2000 <= u
        && u <= 0x200A) || u == 0x2028 || u == 0x2029 || u == 0x202F || u == 0x205F || u == 0x3000
}

/// The index of the first newline at or after `i`, or the length of `s`.
pub open spec fn line_end(s: Seq<char>, i: nat) -> nat
    decreases s.len() - i,
{
    if i >= s.len() {
        s.len()
    } else if s[i as int] == '\n' {
        i
    } else {
        line_end(s, i + 1)
    }
}

/// The index of the first non-white character at or after `i`, or the length of `s`.
pub open spec fn skip_white(s: Seq<char>, i: nat) -> nat
    decreases s.len() - i,
{
    if i >= s.len() {
        s.len()
    } else if is_white(s[i as int]) {
        skip_white(s, i + 1)
    } else {
        i
    }
}

/// The index of the first white character at or after `i`, or the length of `s`.
pub open spec fn skip_word(s: Seq<char>, i: nat) -> nat
    decreases s.len() - i,
{
    if i >= s.len() {
        s.len()
    } else if is_white(s[i as int]) {
        i
    } else {
        skip_word(s, i + 1)
    }
}

/// The first line of a request: everything before the first newline.
pub open spec fn first_line(s: Seq<char>) -> Seq<char> {
    s.take(line_end(s, 0) as int)
}

/// The second white-space separated token of the first line, if there is one.
pub open spec fn target_of(s: Seq<char>) -> Option<Seq<char>> {
    let line = first_line(s);
    let second = skip_white(line, skip_word(line, skip_white(line, 0)));
    if second >= line.len() {
        None
    } else {
        Some(line.subrange(second as int, skip_word(line, second) as int))
    }
}

proof fn lemma_line_end_bounds(s: Seq<char>, i: nat)
    requires
        i <= s.len(),
    ensures
        i <= line_end(s, i) <= s.len(),
    decreases s.len() - i,
{
    if i < s.len() && s[i as int] != '\n' {
        lemma_line_end_bounds(s, i + 1);
    }
}

proof fn lemma_skip_bounds(s: Seq<char>, i: nat)
    requires
        i <= s.len(),
    ensures
        i <= skip_white(s, i) <= s.len(),
        i <= skip_word(s, i) <= s.len(),
    decreases s.len() - i,
{
    if i < s.len() {
        lemma_skip_bounds(s, i + 1);
    }
}

/// Whether `c` is Unicode white space.
pub fn is_white_char(c: char) -> (r: bool)
    ensures
        r == is_white(c),
{
    let u = c as u32;
    (9 <= u && u <= 13) || u == 32 || u == 0x85 || u == 0xA0 || u == 0x1680 || (0x2000 <= u
        && u <= 0x200A) || u == 0x2028 || u == 0x2029 || u == 0x202F || u == 0x205F || u == 0x3000
}

fn find_line_end(s: &str, n: usize) -> (j: usize)
    requires
        n == s@.len(),
    ensures
        j == line_end(s@, 0),
{
    let mut j: usize = 0;
    while j < n && s.get_char(j) != '\n'
        invariant
            n == s@.len(),
            j <= n,
            line_end(s@, j as nat) == line_end(s@, 0),
        decreases n - j,
    {
        j = j + 1;
    }
    j
}

fn find_non_white(s: &str, n: usize, i: usize) -> (j: usize)
    requires
        n == s@.len(),
        i <= n,
    ensures
        j == skip_white(s@, i as nat),
{
    let mut j: usize = i;
    while j < n && is_white_char(s.get_char(j))
        invariant
            n == s@.len(),
            i <= j <= n,
            skip_white(s@, j as nat) == skip_white(s@, i as nat),
        decreases n - j,
    {
        j = j + 1;
    }
    j
}

fn find_white(s: &str, n: usize, i: usize) -> (j: usize)
    requires
        n == s@.len(),
        i <= n,
    ensures
        j == skip_word(s@, i as nat),
{
    let mut j: usize = i;
    while j < n && !is_white_char(s.get_char(j))
        invariant
            n == s@.len(),
            i <= j <= n,
            skip_word(s@, j as nat) == skip_word(s@, i as nat),
        decreases n - j,
    {
        j = j + 1;
    }
    j
}

/// The request target: the second token of the request's first line, or
/// `None` when the line has fewer than two tokens.
pub fn request_target(text: &str) -> (r: Option<&str>)
    ensures
        match r {
            Some(t) => target_of(text@) == Some(t@),
            None => target_of(text@) is None,
        },
{
    let n = text.unicode_len();
    let end = find_line_end(text, n);
    proof {
        lemma_line_end_bounds(text@, 0);
    }
    let line = text.substring_char(0, end);
    assert(line@ =~= first_line(text@));
    let first = find_non_white(line, end, 0);
    proof {
        lemma_skip_bounds(line@, 0);
    }
    let gap = find_white(line, end, first);
    proof {
        lemma_skip_bounds(line@, first as nat);
    }
    let second = find_non_white(line, end, gap);
    proof {
        lemma_skip_bounds(line@, gap as nat);
    }
    if second >= end {
        None
    } else {
        let stop = find_white(line, end, second);
        proof {
            lemma_skip_bounds(line@, second as nat);
        }
        Some(line.substring_char(second, stop))
    }
}

} // verus!
