//! Character-level scanning helpers shared by the tokenizer and the parser.

use vstd::prelude::*;

verus! {

/// Whitespace that may surround a token and is trimmed away.
pub open spec fn is_space(c: char) -> bool {
    c == ' ' || c == '\t' || c == '\r'
}

/// Decimal digits `'0'` through `'9'`.
pub open spec fn is_digit(c: char) -> bool {
    48 <= c as u32 && c as u32 <= 57
}

/// Index of the first occurrence of `c` in `s` at or after `i`, or `s.len()`
/// when there is none.
pub open spec fn find_from(s: Seq<char>, i: nat, c: char) -> nat
    decreases s.len() - i when i <= s.len()
{
    if i >= s.len() {
        s.len()
    } else if s[i as int] == c {
        i
    } else {
        find_from(s, i + 1, c)
    }
}

/// A comment marker (two adjacent slashes) starts at position `j` of `s`.
pub open spec fn marker_at(s: Seq<char>, j: int) -> bool {
    0 <= j && j + 1 < s.len() && s[j] == '/' && s[j + 1] == '/'
}

/// Index of the first comment marker at or after `i`, or `s.len()` when there
/// is none.
pub open spec fn comment_from(s: Seq<char>, i: nat) -> nat
    decreases s.len() - i when i <= s.len()
{
    if i + 1 >= s.len() {
        s.len()
    } else if s[i as int] == '/' && s[i as int + 1] == '/' {
        i
    } else {
        comment_from(s, i + 1)
    }
}

/// `find_from` stays within bounds, skips no occurrence, and lands on one.
pub proof fn lemma_find_from(s: Seq<char>, i: nat, c: char)
    requires
        i <= s.len(),
    ensures
        i <= find_from(s, i, c) <= s.len(),
        forall|j: int| i <= j < find_from(s, i, c) ==> s[j] != c,
        find_from(s, i, c) < s.len() ==> s[find_from(s, i, c) as int] == c,
    decreases s.len() - i,
{
    if i >= s.len() {
    } else if s[i as int] == c {
    } else {
        lemma_find_from(s, i + 1, c);
    }
}

/// `comment_from` stays within bounds, skips no marker, and lands on one.
pub proof fn lemma_comment_from(s: Seq<char>, i: nat)
    requires
        i <= s.len(),
    ensures
        i <= comment_from(s, i) <= s.len(),
        forall|j: int| i <= j < comment_from(s, i) ==> !marker_at(s, j),
        comment_from(s, i) < s.len() ==> marker_at(s, comment_from(s, i) as int),
    decreases s.len() - i,
{
    if i + 1 >= s.len() {
    } else if s[i as int] == '/' && s[i as int + 1] == '/' {
    } else {
        lemma_comment_from(s, i + 1);
    }
}

/// Whether `c` counts as trimmable whitespace.
pub fn space_char(c: char) -> (b: bool)
    ensures
        b == is_space(c),
{
    c == ' ' || c == '\t' || c == '\r'
}

/// Whether `c` is a decimal digit.
pub fn digit_char(c: char) -> (b: bool)
    ensures
        b == is_digit(c),
{
    let u = c as u32;
    48 <= u && u <= 57
}

/// First occurrence of `c` in `s` at or after `from`.
pub fn find_char(s: &str, from: usize, c: char) -> (p: usize)
    requires
        from <= s@.len(),
    ensures
        p == find_from(s@, from as nat, c),
{
    let n = s.unicode_len();
    let mut i: usize = from;
    while i < n
        invariant
            from <= i <= n,
            n == s@.len(),
            find_from(s@, from as nat, c) == find_from(s@, i as nat, c),
        decreases n - i,
    {
        if s.get_char(i) == c {
            return i;
        }
        proof {
            assert(find_from(s@, i as nat, c) == find_from(s@, (i + 1) as nat, c));
        }
        i = i + 1;
    }
    i
}

/// First comment marker in `s`, or the length when there is none.
pub fn find_comment(s: &str) -> (p: usize)
    ensures
        p == comment_from(s@, 0),
{
    let n = s.unicode_len();
    let mut i: usize = 0;
    while i < n
        invariant
            i <= n,
            n == s@.len(),
            comment_from(s@, 0) == comment_from(s@, i as nat),
        decreases n - i,
    {
        if i + 1 >= n {
            proof {
                assert(comment_from(s@, i as nat) == s@.len());
            }
            return n;
        }
        if s.get_char(i) == '/' && s.get_char(i + 1) == '/' {
            return i;
        }
        proof {
            assert(comment_from(s@, i as nat) == comment_from(s@, (i + 1) as nat));
        }
        i = i + 1;
    }
    proof {
        assert(comment_from(s@, i as nat) == s@.len());
    }
    n
}

/// Whether two strings hold the same characters.
pub fn str_eq(a: &str, b: &str) -> (r: bool)
    ensures
        r == (a@ == b@),
{
    let n = a.unicode_len();
    if n != b.unicode_len() {
        return false;
    }
    let mut i: usize = 0;
    while i < n
        invariant
            i <= n,
            n == a@.len(),
            n == b@.len(),
            forall|j: int| 0 <= j < i ==> a@[j] == b@[j],
        decreases n - i,
    {
        if s_get(a, i) != s_get(b, i) {
            return false;
        }
        i = i + 1;
    }
    proof {
        assert(a@ =~= b@);
    }
    true
}

/// One character of `s`, by position.
fn s_get(s: &str, i: usize) -> (c: char)
    requires
        i < s@.len(),
    ensures
        c == s@[i as int],
{
    s.get_char(i)
}

} // verus!
