//! Tokenizer: turns raw source text into the ordered sequence of cleaned
//! instruction tokens. A token is one source line with any comment removed
//! and surrounding whitespace trimmed; lines that are left empty are dropped.

use vstd::prelude::*;

use crate::text::{
    comment_from, find_from, is_space, lemma_comment_from, lemma_find_from, marker_at,
    find_comment, find_char, space_char,
};

verus! {

/// Length of `s` restricted to `[0, e)` once trailing whitespace is removed.
pub open spec fn rstrip_to(s: Seq<char>, e: nat) -> nat
    decreases e when e <= s.len()
{
    if e == 0 {
        0
    } else if is_space(s[e - 1]) {
        rstrip_to(s, (e - 1) as nat)
    } else {
        e
    }
}

/// First index in `[i, e)` that is not whitespace, or `e` when all are.
pub open spec fn lstrip_from(s: Seq<char>, i: nat, e: nat) -> nat
    decreases e - i when i <= e <= s.len()
{
    if i >= e {
        e
    } else if is_space(s[i as int]) {
        lstrip_from(s, i + 1, e)
    } else {
        i
    }
}

/// One raw source line reduced to its token text: the part before any comment
/// marker, with surrounding whitespace removed.
pub open spec fn clean(line: Seq<char>) -> Seq<char> {
    let c = comment_from(line, 0);
    let e = rstrip_to(line, c);
    let a = lstrip_from(line, 0, e);
    line.subrange(a as int, e as int)
}

/// The cleaned, non-empty instruction tokens of a source text, in source
/// order: the text is split at newlines, each line is cleaned, and lines
/// that clean to nothing are dropped.
pub open spec fn tokenize(s: Seq<char>) -> Seq<Seq<char>>
    decreases s.len()
{
    if s.len() == 0 {
        Seq::empty()
    } else {
        let p = find_from(s, 0, '\n');
        if p >= s.len() {
            let tok = clean(s);
            if tok.len() == 0 {
                Seq::empty()
            } else {
                seq![tok]
            }
        } else {
            let tok = clean(s.subrange(0, p as int));
            let rest = tokenize(s.subrange(p as int + 1, s.len() as int));
            if tok.len() == 0 {
                rest
            } else {
                seq![tok] + rest
            }
        }
    }
}

/// `rstrip_to` only shrinks the range, and the retained last character, if
/// any, is not whitespace.
pub proof fn lemma_rstrip_to(s: Seq<char>, e: nat)
    requires
        e <= s.len(),
    ensures
        rstrip_to(s, e) <= e,
        rstrip_to(s, e) > 0 ==> !is_space(s[rstrip_to(s, e) - 1]),
    decreases e,
{
    if e == 0 {
    } else if is_space(s[e - 1]) {
        lemma_rstrip_to(s, (e - 1) as nat);
    }
}

/// `lstrip_from` stays within `[i, e]`, and the retained first character, if
/// any, is not whitespace.
pub proof fn lemma_lstrip_from(s: Seq<char>, i: nat, e: nat)
    requires
        i <= e <= s.len(),
    ensures
        i <= lstrip_from(s, i, e) <= e,
        lstrip_from(s, i, e) < e ==> !is_space(s[lstrip_from(s, i, e) as int]),
    decreases e - i,
{
    if i >= e {
    } else if is_space(s[i as int]) {
        lemma_lstrip_from(s, i + 1, e);
    }
}

/// A cleaned line is trimmed on both ends and holds no comment marker.
pub proof fn lemma_clean(line: Seq<char>)
    ensures
        clean(line).len() > 0 ==> !is_space(clean(line)[0]),
        clean(line).len() > 0 ==> !is_space(clean(line)[clean(line).len() - 1]),
        forall|j: int| !marker_at(clean(line), j),
{
    let c = comment_from(line, 0);
    let e = rstrip_to(line, c);
    let a = lstrip_from(line, 0, e);
    lemma_comment_from(line, 0);
    lemma_rstrip_to(line, c);
    lemma_lstrip_from(line, 0, e);
    let t = clean(line);
    assert forall|j: int| !marker_at(t, j) by {
        if marker_at(t, j) {
            assert(t[j] == line[a + j]);
            assert(t[j + 1] == line[a + j + 1]);
            assert(marker_at(line, a + j));
            assert(a + j < c);
        }
    }
}

/// Reads an ordered collection of cleaned instruction tokens out of one
/// source text.
pub struct Lexer {
    lines: Vec<String>,
}

/// A cursor over a `Lexer`'s tokens, front to back.
pub struct LexerIter<'a> {
    lexer: &'a Lexer,
    pos: usize,
}

impl View for Lexer {
    type V = Seq<Seq<char>>;

    closed spec fn view(&self) -> Seq<Seq<char>> {
        self.lines.deep_view()
    }
}

impl Lexer {
    /// Constructs a Lexer holding the cleaned tokens of `source`.
    pub fn new(source: &str) -> (l: Lexer)
        ensures
            l@ == tokenize(source@),
    {
        Lexer { lines: tokenize_str(source) }
    }

    /// The tokens, in source order.
    pub fn lines(&self) -> (r: &Vec<String>)
        ensures
            r.deep_view() == self@,
    {
        &self.lines
    }

    /// A cursor positioned at the first token.
    pub fn iter<'a>(&'a self) -> (it: LexerIter<'a>)
        ensures
            it.lexer() == self,
            it.pos() == 0,
    {
        LexerIter { lexer: self, pos: 0 }
    }

    /// Whether a raw line is a comment from its first character on.
    pub fn is_ignored_token(token: &str) -> (b: bool)
        ensures
            b == (token@.len() >= 2 && token@[0] == '/' && token@[1] == '/'),
    {
        if token.unicode_len() < 2 {
            return false;
        }
        token.get_char(0) == '/' && token.get_char(1) == '/'
    }

    /// Cleans one raw line: removes any comment and trims whitespace.
    pub fn trim_command(token: &str) -> (r: String)
        ensures
            r@ == clean(token@),
    {
        clean_line(token)
    }
}

impl<'a> LexerIter<'a> {
    /// The lexer this cursor reads from.
    pub closed spec fn lexer(&self) -> &'a Lexer {
        self.lexer
    }

    /// How many tokens have been handed out already.
    pub closed spec fn pos(&self) -> usize {
        self.pos
    }

    /// The next token, if one is left; advances the cursor.
    pub fn next(&mut self) -> (r: Option<&'a String>)
        ensures
            final(self).lexer() == old(self).lexer(),
            old(self).pos() < old(self).lexer()@.len() ==> {
                &&& final(self).pos() == old(self).pos() + 1
                &&& r matches Some(s) && s@ == old(self).lexer()@[old(self).pos() as int]
            },
            old(self).pos() >= old(self).lexer()@.len() ==> {
                &&& final(self).pos() == old(self).pos()
                &&& r is None
            },
    {
        if self.pos < self.lexer.lines.len() {
            let r = &self.lexer.lines[self.pos];
            self.pos = self.pos + 1;
            Some(r)
        } else {
            None
        }
    }
}

/// Cleans one raw line: the part before any comment marker, trimmed.
fn clean_line(line: &str) -> (t: String)
    ensures
        t@ == clean(line@),
{
    let c = find_comment(line);
    proof {
        lemma_comment_from(line@, 0);
    }
    let e = scan_rstrip(line, c);
    proof {
        lemma_rstrip_to(line@, c as nat);
    }
    let a = scan_lstrip(line, e);
    proof {
        lemma_lstrip_from(line@, 0, e as nat);
    }
    let piece = line.substring_char(a, e);
    piece.to_owned()
}

/// Shrinks the bound `c` past any trailing whitespace of `line`'s prefix.
fn scan_rstrip(line: &str, c: usize) -> (e: usize)
    requires
        c <= line@.len(),
    ensures
        e == rstrip_to(line@, c as nat),
{
    let mut e: usize = c;
    while e > 0
        invariant
            e <= c <= line@.len(),
            rstrip_to(line@, c as nat) == rstrip_to(line@, e as nat),
        decreases e,
    {
        if space_char(line.get_char(e - 1)) {
            e = e - 1;
        } else {
            return e;
        }
    }
    e
}

/// First index below `e` that is not whitespace, or `e` when all are.
fn scan_lstrip(line: &str, e: usize) -> (a: usize)
    requires
        e <= line@.len(),
    ensures
        a == lstrip_from(line@, 0, e as nat),
{
    let mut a: usize = 0;
    while a < e
        invariant
            a <= e <= line@.len(),
            lstrip_from(line@, 0, e as nat) == lstrip_from(line@, a as nat, e as nat),
        decreases e - a,
    {
        if space_char(line.get_char(a)) {
            a = a + 1;
        } else {
            return a;
        }
    }
    a
}

/// The cleaned tokens of `s`, splitting at newlines, in order.
fn tokenize_str(s: &str) -> (v: Vec<String>)
    ensures
        v.deep_view() == tokenize(s@),
    decreases s@.len(),
{
    let n = s.unicode_len();
    if n == 0 {
        let v: Vec<String> = Vec::new();
        proof {
            assert(v.deep_view() =~= tokenize(s@));
        }
        return v;
    }
    let p = find_char(s, 0, '\n');
    proof {
        lemma_find_from(s@, 0, '\n');
    }
    if p == n {
        let tok = clean_line(s);
        let mut v: Vec<String> = Vec::new();
        if tok.unicode_len() > 0 {
            v.push(tok);
            proof {
                assert(v.deep_view() =~= tokenize(s@));
            }
        } else {
            proof {
                assert(v.deep_view() =~= tokenize(s@));
            }
        }
        v
    } else {
        let head = s.substring_char(0, p);
        let tail = s.substring_char(p + 1, n);
        let tok = clean_line(head);
        let mut v = tokenize_str(tail);
        proof {
            assert(head@ == s@.subrange(0, p as int));
            assert(tail@ == s@.subrange(p as int + 1, s@.len() as int));
        }
        if tok.unicode_len() > 0 {
            v.insert(0, tok);
            proof {
                assert(v.deep_view() =~= tokenize(s@));
            }
        } else {
            proof {
                assert(v.deep_view() =~= tokenize(s@));
            }
        }
        v
    }
}

} // verus!
