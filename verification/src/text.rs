//! Character-level utilities shared by the naming, resolving and snapshot
//! modules: conversions between `&str`/`String` and `Vec<char>`, searching,
//! and decimal rendering of integers.

use vstd::prelude::*;
use vstd::string::StrSliceExecFns;
use vstd::string::StringExecFns;

verus! {

/// Collects the characters of a string slice into a vector, in order.
pub fn chars_of(s: &str) -> (r: Vec<char>)
    ensures
        r@ == s@,
{
    let n = s.unicode_len();
    let mut r: Vec<char> = Vec::new();
    for i in 0..n
        invariant
            n == s@.len(),
            r@ =~= s@.subrange(0, i as int),
    {
        r.push(s.get_char(i));
        proof {
            assert(r@ =~= s@.subrange(0, i + 1));
        }
    }
    proof {
        assert(r@ =~= s@);
    }
    r
}

/// Relies on `String::push`: appends one character at the end of the string.
#[verifier::external_body]
fn push_char(s: &mut String, c: char)
    ensures
        final(s)@ == old(s)@.push(c),
{
    s.push(c);
}

/// Builds a string whose characters are exactly those of the vector, in order.
pub fn string_of(v: &Vec<char>) -> (r: String)
    ensures
        r@ == v@,
{
    let mut r = String::new();
    let n = v.len();
    for i in 0..n
        invariant
            n == v@.len(),
            r@ =~= v@.subrange(0, i as int),
    {
        push_char(&mut r, v[i]);
        proof {
            assert(r@ =~= v@.subrange(0, i + 1));
        }
    }
    proof {
        assert(r@ =~= v@);
    }
    r
}

/// True when `pat` occurs in `s` starting at position `at`.
pub open spec fn matches_at(s: Seq<char>, at: int, pat: Seq<char>) -> bool {
    &&& 0 <= at
    &&& at + pat.len() <= s.len()
    &&& s.subrange(at, at + pat.len()) == pat
}

/// True when `pat` occurs somewhere in `s`.
pub open spec fn contains_seq(s: Seq<char>, pat: Seq<char>) -> bool {
    exists|at: int| matches_at(s, at, pat)
}

/// Compares the slice of `s` starting at `at` with `pat`.
pub fn check_match_at(s: &Vec<char>, at: usize, pat: &Vec<char>) -> (r: bool)
    ensures
        r == matches_at(s@, at as int, pat@),
{
    if at > s.len() || pat.len() > s.len() - at {
        proof {
            assert(!matches_at(s@, at as int, pat@));
        }
        return false;
    }
    let mut i: usize = 0;
    while i < pat.len()
        invariant
            0 <= i <= pat@.len(),
            at + pat@.len() <= s@.len(),
            s@.len() <= usize::MAX,
            forall|j: int| 0 <= j < i ==> s@[at + j] == pat@[j],
        decreases pat@.len() - i,
    {
        if s[at + i] != pat[i] {
            proof {
                assert(s@.subrange(at as int, at + pat@.len())[i as int] != pat@[i as int]);
            }
            return false;
        }
        i = i + 1;
    }
    proof {
        assert(s@.subrange(at as int, at + pat@.len()) =~= pat@);
    }
    true
}

/// Compares two character vectors for equality.
pub fn chars_eq(a: &Vec<char>, b: &Vec<char>) -> (r: bool)
    ensures
        r == (a@ == b@),
{
    if a.len() != b.len() {
        return false;
    }
    let mut i: usize = 0;
    while i < a.len()
        invariant
            0 <= i <= a@.len(),
            a@.len() == b@.len(),
            forall|j: int| 0 <= j < i ==> a@[j] == b@[j],
        decreases a@.len() - i,
    {
        if a[i] != b[i] {
            return false;
        }
        i = i + 1;
    }
    proof {
        assert(a@ =~= b@);
    }
    true
}

/// True when `c` occurs in `s`.
pub open spec fn has_char(s: Seq<char>, c: char) -> bool {
    exists|i: int| 0 <= i < s.len() && s[i] == c
}

/// True when `i` is the position of the last occurrence of `c` in `s`.
pub open spec fn is_last_occurrence(s: Seq<char>, c: char, i: int) -> bool {
    &&& 0 <= i < s.len()
    &&& s[i] == c
    &&& forall|j: int| i < j < s.len() ==> s[j] != c
}

/// The position of the last occurrence of `c` in `s`; meaningful only when
/// `has_char(s, c)` holds.
pub open spec fn last_occurrence(s: Seq<char>, c: char) -> int {
    choose|i: int| is_last_occurrence(s, c, i)
}

/// When `c` occurs in `s` at all, it has a well-defined last occurrence.
pub proof fn lemma_last_occurrence(s: Seq<char>, c: char)
    requires
        has_char(s, c),
    ensures
        is_last_occurrence(s, c, last_occurrence(s, c)),
    decreases s.len(),
{
    if s[s.len() - 1] == c {
        assert(is_last_occurrence(s, c, s.len() - 1));
    } else {
        let w = choose|i: int| 0 <= i < s.len() && s[i] == c;
        assert(s.drop_last()[w] == c);
        lemma_last_occurrence(s.drop_last(), c);
        let l = last_occurrence(s.drop_last(), c);
        assert(s[l] == c);
        assert forall|j: int| l < j < s.len() implies s[j] != c by {
            if j < s.len() - 1 {
                assert(s.drop_last()[j] == s[j]);
            }
        }
        assert(is_last_occurrence(s, c, l));
    }
}

/// True when `i` is the position of the first occurrence of `c` in `s`.
pub open spec fn is_first_occurrence(s: Seq<char>, c: char, i: int) -> bool {
    &&& 0 <= i < s.len()
    &&& s[i] == c
    &&& forall|j: int| 0 <= j < i ==> s[j] != c
}

/// The position of the first occurrence of `c` in `s`; meaningful only when
/// `has_char(s, c)` holds.
pub open spec fn first_occurrence(s: Seq<char>, c: char) -> int {
    choose|i: int| is_first_occurrence(s, c, i)
}

/// When `c` occurs in `s` at all, it has a well-defined first occurrence.
pub proof fn lemma_first_occurrence(s: Seq<char>, c: char)
    requires
        has_char(s, c),
    ensures
        is_first_occurrence(s, c, first_occurrence(s, c)),
    decreases s.len(),
{
    if s[0] == c {
        assert(is_first_occurrence(s, c, 0));
    } else {
        let w = choose|i: int| 0 <= i < s.len() && s[i] == c;
        assert(s.drop_first()[w - 1] == c);
        lemma_first_occurrence(s.drop_first(), c);
        let l = first_occurrence(s.drop_first(), c);
        assert(s[l + 1] == c);
        assert forall|j: int| 0 <= j < l + 1 implies s[j] != c by {
            if j > 0 {
                assert(s.drop_first()[j - 1] == s[j]);
            }
        }
        assert(is_first_occurrence(s, c, l + 1));
    }
}

/// Finds the position of the first occurrence of `c` in `v`, if any.
pub fn find_char(v: &Vec<char>, c: char) -> (r: Option<usize>)
    ensures
        match r {
            Some(i) => is_first_occurrence(v@, c, i as int),
            None => !has_char(v@, c),
        },
{
    let mut i: usize = 0;
    while i < v.len()
        invariant
            0 <= i <= v@.len(),
            forall|j: int| 0 <= j < i ==> v@[j] != c,
        decreases v@.len() - i,
    {
        if v[i] == c {
            return Some(i);
        }
        i = i + 1;
    }
    None
}

/// Finds the position of the last occurrence of `c` in `v`, if any.
pub fn rfind_char(v: &Vec<char>, c: char) -> (r: Option<usize>)
    ensures
        match r {
            Some(i) => is_last_occurrence(v@, c, i as int),
            None => !has_char(v@, c),
        },
{
    let mut i: usize = v.len();
    while i > 0
        invariant
            0 <= i <= v@.len(),
            forall|j: int| i <= j < v@.len() ==> v@[j] != c,
        decreases i,
    {
        i = i - 1;
        if v[i] == c {
            return Some(i);
        }
    }
    None
}

/// Copies `v[from..to]` into a fresh vector.
pub fn subvec(v: &Vec<char>, from: usize, to: usize) -> (r: Vec<char>)
    requires
        from <= to <= v@.len(),
    ensures
        r@ == v@.subrange(from as int, to as int),
{
    let mut r: Vec<char> = Vec::new();
    let mut k = from;
    while k < to
        invariant
            from <= k <= to <= v@.len(),
            r@ =~= v@.subrange(from as int, k as int),
        decreases to - k,
    {
        r.push(v[k]);
        proof {
            assert(r@ =~= v@.subrange(from as int, k + 1));
        }
        k = k + 1;
    }
    proof {
        assert(r@ =~= v@.subrange(from as int, to as int));
    }
    r
}

/// The character for a single decimal digit.
pub open spec fn digit_char(d: int) -> char {
    if d == 0 {
        '0'
    } else if d == 1 {
        '1'
    } else if d == 2 {
        '2'
    } else if d == 3 {
        '3'
    } else if d == 4 {
        '4'
    } else if d == 5 {
        '5'
    } else if d == 6 {
        '6'
    } else if d == 7 {
        '7'
    } else if d == 8 {
        '8'
    } else {
        '9'
    }
}

/// The usual decimal rendering of `n`, without leading zeros (except for 0 itself).
pub open spec fn spec_decimal(n: nat) -> Seq<char>
    decreases n,
{
    if n < 10 {
        seq![digit_char(n as int)]
    } else {
        spec_decimal(n / 10) + seq![digit_char((n % 10) as int)]
    }
}

fn digit_char_exec(d: u32) -> (r: char)
    requires
        d < 10,
    ensures
        r == digit_char(d as int),
{
    match d {
        0 => '0',
        1 => '1',
        2 => '2',
        3 => '3',
        4 => '4',
        5 => '5',
        6 => '6',
        7 => '7',
        8 => '8',
        _ => '9',
    }
}

/// Renders `n` in decimal.
pub fn u32_decimal(n: u32) -> (r: Vec<char>)
    ensures
        r@ == spec_decimal(n as nat),
    decreases n,
{
    if n < 10 {
        let mut v: Vec<char> = Vec::new();
        v.push(digit_char_exec(n));
        proof {
            assert(v@ =~= spec_decimal(n as nat));
        }
        v
    } else {
        let mut v = u32_decimal(n / 10);
        v.push(digit_char_exec(n % 10));
        proof {
            assert(v@ =~= spec_decimal(n as nat));
        }
        v
    }
}

/// The decimal rendering of `n` zero-padded on the left to at least two digits.
pub open spec fn spec_padded2(n: nat) -> Seq<char> {
    if n < 10 {
        seq!['0'] + spec_decimal(n)
    } else {
        spec_decimal(n)
    }
}

/// Renders `n` in decimal, zero-padded to at least two digits.
pub fn u32_padded2(n: u32) -> (r: Vec<char>)
    ensures
        r@ == spec_padded2(n as nat),
{
    if n < 10 {
        let mut v: Vec<char> = Vec::new();
        v.push('0');
        v.push(digit_char_exec(n));
        proof {
            assert(v@ =~= spec_padded2(n as nat));
        }
        v
    } else {
        u32_decimal(n)
    }
}

/// Appends all of `src` at the end of `dst`.
pub fn append_chars(dst: &mut Vec<char>, src: &Vec<char>)
    ensures
        final(dst)@ == old(dst)@ + src@,
{
    let n = src.len();
    for i in 0..n
        invariant
            n == src@.len(),
            dst@ =~= old(dst)@ + src@.subrange(0, i as int),
    {
        dst.push(src[i]);
        proof {
            assert(dst@ =~= old(dst)@ + src@.subrange(0, i + 1));
        }
    }
    proof {
        assert(dst@ =~= old(dst)@ + src@);
    }
}

} // verus!
