//! Small verified helpers on strings: equality, substring search, locating
//! the last extension dot, and rendering page numbers as decimal text.

use vstd::prelude::*;
use vstd::string::*;

verus! {

/// Compares two string slices character by character.
pub fn str_eq(a: &str, b: &str) -> (r: bool)
    ensures
        r == (a@ == b@),
{
    let a_len: usize = a.unicode_len();
    let b_len: usize = b.unicode_len();
    if a_len != b_len {
        assert(a@ != b@) by {
            assert(a@.len() != b@.len());
        }
        return false;
    }
    let mut i: usize = 0;
    while i < a_len
        invariant
            a_len == a@.len(),
            b_len == b@.len(),
            a_len == b_len,
            i <= a_len,
            forall|j: int| 0 <= j < i ==> a@[j] == b@[j],
        decreases a_len - i,
    {
        if a.get_char(i) != b.get_char(i) {
            assert(a@ != b@);
            return false;
        }
        i += 1;
    }
    assert(a@ =~= b@);
    true
}

/// `needle` occurs in `haystack` starting at position `at`.
pub open spec fn occurs_at(haystack: Seq<char>, needle: Seq<char>, at: int) -> bool {
    &&& 0 <= at
    &&& at + needle.len() <= haystack.len()
    &&& haystack.subrange(at, at + needle.len() as int) == needle
}

/// `needle` is a substring of `haystack`.
pub open spec fn is_substring(haystack: Seq<char>, needle: Seq<char>) -> bool {
    exists|at: int| occurs_at(haystack, needle, at)
}

/// Whether `needle` occurs in `haystack` starting exactly at `at`.
fn matches_at(haystack: &str, h_len: usize, needle: &str, n_len: usize, at: usize) -> (r: bool)
    requires
        h_len == haystack@.len(),
        n_len == needle@.len(),
        at + n_len <= h_len,
    ensures
        r == occurs_at(haystack@, needle@, at as int),
{
    let mut i: usize = 0;
    while i < n_len
        invariant
            h_len == haystack@.len(),
            n_len == needle@.len(),
            at + n_len <= h_len,
            i <= n_len,
            forall|j: int| 0 <= j < i ==> haystack@[at + j] == needle@[j],
        decreases n_len - i,
    {
        if haystack.get_char(at + i) != needle.get_char(i) {
            assert(haystack@.subrange(at as int, at + n_len as int)[i as int] != needle@[i as int]);
            return false;
        }
        i += 1;
    }
    assert(haystack@.subrange(at as int, at + n_len as int) =~= needle@);
    true
}

/// Substring search, scanning candidate start positions left to right.
pub fn str_contains(haystack: &str, needle: &str) -> (r: bool)
    ensures
        r == is_substring(haystack@, needle@),
{
    let h_len: usize = haystack.unicode_len();
    let n_len: usize = needle.unicode_len();
    if n_len > h_len {
        assert(!is_substring(haystack@, needle@)) by {
            assert(forall|at: int| !occurs_at(haystack@, needle@, at));
        }
        return false;
    }
    if n_len == 0 {
        assert(occurs_at(haystack@, needle@, 0)) by {
            assert(haystack@.subrange(0, 0) =~= needle@);
        }
        return true;
    }
    let mut at: usize = 0;
    while at <= h_len - n_len
        invariant
            h_len == haystack@.len(),
            n_len == needle@.len(),
            1 <= n_len <= h_len,
            at <= h_len - n_len + 1,
            forall|p: int| 0 <= p < at ==> !occurs_at(haystack@, needle@, p),
        decreases h_len + 1 - n_len - at,
    {
        if matches_at(haystack, h_len, needle, n_len, at) {
            assert(is_substring(haystack@, needle@));
            return true;
        }
        at += 1;
    }
    assert(forall|p: int| !occurs_at(haystack@, needle@, p));
    false
}

/// Finds the last `.` in `s`, scanning right to left.
pub fn rfind_dot(s: &str) -> (r: Option<usize>)
    ensures
        match r {
            Some(j) => {
                &&& j < s@.len()
                &&& s@[j as int] == '.'
                &&& forall|k: int| j < k < s@.len() ==> s@[k] != '.'
            },
            None => forall|k: int| 0 <= k < s@.len() ==> s@[k] != '.',
        },
{
    let len: usize = s.unicode_len();
    let mut i: usize = len;
    while i > 0
        invariant
            len == s@.len(),
            i <= len,
            forall|k: int| i <= k < len ==> s@[k] != '.',
        decreases i,
    {
        i -= 1;
        if s.get_char(i) == '.' {
            return Some(i);
        }
    }
    None
}

/// The character for one decimal digit.
pub open spec fn digit_char(d: int) -> char {
    if d == 0 {
        '0'
    } else if d == 1 {
        '1'
    } else if d == 2 {
        '2'
    } else if d == 3 {
        '3'
    } else if d == 4 {
        '4'
    } else if d == 5 {
        '5'
    } else if d == 6 {
        '6'
    } else if d == 7 {
        '7'
    } else if d == 8 {
        '8'
    } else {
        '9'
    }
}

/// The decimal rendering of a natural number, most significant digit first.
pub open spec fn dec_str(n: nat) -> Seq<char>
    decreases n,
{
    if n < 10 {
        seq![digit_char(n as int)]
    } else {
        dec_str(n / 10) + seq![digit_char((n % 10) as int)]
    }
}

/// Renders one digit.
fn digit_to_str(d: u32) -> (r: &'static str)
    requires
        d < 10,
    ensures
        r@ =~= seq![digit_char(d as int)],
{
    proof {
        reveal_strlit("0");
        reveal_strlit("1");
        reveal_strlit("2");
        reveal_strlit("3");
        reveal_strlit("4");
        reveal_strlit("5");
        reveal_strlit("6");
        reveal_strlit("7");
        reveal_strlit("8");
        reveal_strlit("9");
    }
    match d {
        0 => "0",
        1 => "1",
        2 => "2",
        3 => "3",
        4 => "4",
        5 => "5",
        6 => "6",
        7 => "7",
        8 => "8",
        _ => "9",
    }
}

/// Renders a number as decimal text.
pub fn u32_to_string(n: u32) -> (r: String)
    ensures
        r@ == dec_str(n as nat),
    decreases n,
{
    let d = digit_to_str(n % 10);
    if n < 10 {
        let s = String::from_str(d);
        assert(s@ =~= dec_str(n as nat));
        s
    } else {
        let s = u32_to_string(n / 10).concat(d);
        assert(s@ =~= dec_str(n as nat));
        s
    }
}

} // verus!
