//! The tokenizer: where the tokens of a source text begin and end.
//!
//! White space and commas separate tokens. A token is `~@`, one of the special
//! characters, a string literal, a comment that runs to the end of its line,
//! or an atom: a longest run of characters that may stand inside an atom.

use crate::text::{
    atom_char, chars_of, is_atom_char, is_separator, is_special, separator, special, string_of,
};
use vstd::prelude::*;

verus! {

/// The first position at or after `i` that holds no separator.
pub open spec fn skip_separators(s: Seq<char>, i: int) -> int
    decreases s.len() - i,
{
    if 0 <= i < s.len() && is_separator(s[i]) {
        skip_separators(s, i + 1)
    } else {
        i
    }
}

/// Where a string literal ends whose body goes on at `i`: behind its closing
/// quote; at the end of the text where the quote is missing; or before a
/// backslash that escapes nothing, one at the end of the text or before a
/// line feed.
pub open spec fn string_end(s: Seq<char>, i: int) -> int
    decreases s.len() - i,
{
    if !(0 <= i < s.len()) {
        i
    } else if s[i] == '"' {
        i + 1
    } else if s[i] == '\\' {
        if i + 1 < s.len() && s[i + 1] != '\n' {
            string_end(s, i + 2)
        } else {
            i
        }
    } else {
        string_end(s, i + 1)
    }
}

/// Where a comment ends that goes on at `i`: before the next line feed, or at
/// the end of the text.
pub open spec fn comment_end(s: Seq<char>, i: int) -> int
    decreases s.len() - i,
{
    if 0 <= i < s.len() && s[i] != '\n' {
        comment_end(s, i + 1)
    } else {
        i
    }
}

/// Where an atom ends that goes on at `i`: before the next character that
/// cannot stand inside an atom, or at the end of the text.
pub open spec fn atom_end(s: Seq<char>, i: int) -> int
    decreases s.len() - i,
{
    if 0 <= i < s.len() && is_atom_char(s[i]) {
        atom_end(s, i + 1)
    } else {
        i
    }
}

/// Where the token ends that begins at `i`, a position that holds no
/// separator.
pub open spec fn token_end(s: Seq<char>, i: int) -> int {
    if s[i] == '~' && i + 1 < s.len() && s[i + 1] == '@' {
        i + 2
    } else if is_special(s[i]) {
        i + 1
    } else if s[i] == '"' {
        string_end(s, i + 1)
    } else if s[i] == ';' {
        comment_end(s, i + 1)
    } else {
        atom_end(s, i + 1)
    }
}

/// The tokens of `s` that begin at or after `i`: none where only separators
/// are left; otherwise the token that begins behind the separators, and the
/// tokens behind it.
pub open spec fn tokens_from(s: Seq<char>, i: int) -> Seq<Seq<char>>
    decreases s.len() - i,
{
    let start = skip_separators(s, i);
    let end = token_end(s, start);
    if 0 <= i <= start < end <= s.len() {
        seq![s.subrange(start, end)] + tokens_from(s, end)
    } else {
        Seq::empty()
    }
}

/// The tokens of `s`, in order.
pub open spec fn tokenize(s: Seq<char>) -> Seq<Seq<char>> {
    tokens_from(s, 0)
}

/// Skipping separators moves forward, stays inside the text, and stops at a
/// character that is no separator.
pub proof fn lemma_skip_separators(s: Seq<char>, i: int)
    requires
        0 <= i <= s.len(),
    ensures
        i <= skip_separators(s, i) <= s.len(),
        skip_separators(s, i) < s.len() ==> !is_separator(s[skip_separators(s, i)]),
        forall|j: int| i <= j < skip_separators(s, i) ==> is_separator(#[trigger] s[j]),
    decreases s.len() - i,
{
    if i < s.len() && is_separator(s[i]) {
        lemma_skip_separators(s, i + 1);
    }
}

/// A string literal ends inside the text, at or after the place from which it
/// goes on.
pub proof fn lemma_string_end(s: Seq<char>, i: int)
    requires
        0 <= i <= s.len(),
    ensures
        i <= string_end(s, i) <= s.len(),
    decreases s.len() - i,
{
    if i < s.len() && s[i] != '"' {
        if s[i] == '\\' {
            if i + 1 < s.len() && s[i + 1] != '\n' {
                lemma_string_end(s, i + 2);
            }
        } else {
            lemma_string_end(s, i + 1);
        }
    }
}

/// A comment ends inside the text, at or after the place from which it goes
/// on, and holds no line feed.
pub proof fn lemma_comment_end(s: Seq<char>, i: int)
    requires
        0 <= i <= s.len(),
    ensures
        i <= comment_end(s, i) <= s.len(),
        forall|j: int| i <= j < comment_end(s, i) ==> #[trigger] s[j] != '\n',
        comment_end(s, i) < s.len() ==> s[comment_end(s, i)] == '\n',
    decreases s.len() - i,
{
    if i < s.len() && s[i] != '\n' {
        lemma_comment_end(s, i + 1);
    }
}

/// An atom ends inside the text, at or after the place from which it goes on;
/// it holds atom characters only, and what follows it is none.
pub proof fn lemma_atom_end(s: Seq<char>, i: int)
    requires
        0 <= i <= s.len(),
    ensures
        i <= atom_end(s, i) <= s.len(),
        forall|j: int| i <= j < atom_end(s, i) ==> is_atom_char(#[trigger] s[j]),
        atom_end(s, i) < s.len() ==> !is_atom_char(s[atom_end(s, i)]),
    decreases s.len() - i,
{
    if i < s.len() && is_atom_char(s[i]) {
        lemma_atom_end(s, i + 1);
    }
}

/// A token is not empty and ends inside the text.
pub proof fn lemma_token_end(s: Seq<char>, i: int)
    requires
        0 <= i < s.len(),
    ensures
        i < token_end(s, i) <= s.len(),
{
    lemma_string_end(s, i + 1);
    lemma_comment_end(s, i + 1);
    lemma_atom_end(s, i + 1);
}

fn scan_separators(s: &Vec<char>, i: usize) -> (r: usize)
    requires
        i <= s.len(),
    ensures
        r == skip_separators(s@, i as int),
        i <= r <= s.len(),
{
    let mut j: usize = i;
    while j < s.len() && separator(s[j])
        invariant
            i <= j <= s.len(),
            skip_separators(s@, i as int) == skip_separators(s@, j as int),
        decreases s.len() - j,
    {
        j += 1;
    }
    j
}

fn scan_string(s: &Vec<char>, i: usize) -> (r: usize)
    requires
        i <= s.len(),
    ensures
        r == string_end(s@, i as int),
        i <= r <= s.len(),
{
    let mut j: usize = i;
    loop
        invariant
            i <= j <= s.len(),
            string_end(s@, i as int) == string_end(s@, j as int),
        decreases s.len() - j,
    {
        if j >= s.len() {
            return j;
        }
        let c: char = s[j];
        if c == '"' {
            return j + 1;
        }
        if c == '\\' {
            if j + 1 < s.len() && s[j + 1] != '\n' {
                j += 2;
            } else {
                return j;
            }
        } else {
            j += 1;
        }
    }
}

fn scan_comment(s: &Vec<char>, i: usize) -> (r: usize)
    requires
        i <= s.len(),
    ensures
        r == comment_end(s@, i as int),
        i <= r <= s.len(),
{
    let mut j: usize = i;
    while j < s.len() && s[j] != '\n'
        invariant
            i <= j <= s.len(),
            comment_end(s@, i as int) == comment_end(s@, j as int),
        decreases s.len() - j,
    {
        j += 1;
    }
    j
}

fn scan_atom(s: &Vec<char>, i: usize) -> (r: usize)
    requires
        i <= s.len(),
    ensures
        r == atom_end(s@, i as int),
        i <= r <= s.len(),
{
    let mut j: usize = i;
    while j < s.len() && atom_char(s[j])
        invariant
            i <= j <= s.len(),
            atom_end(s@, i as int) == atom_end(s@, j as int),
        decreases s.len() - j,
    {
        j += 1;
    }
    j
}

fn scan_token(s: &Vec<char>, i: usize) -> (r: usize)
    requires
        i < s.len(),
    ensures
        r == token_end(s@, i as int),
        i < r <= s.len(),
{
    let c: char = s[i];
    if c == '~' && i + 1 < s.len() && s[i + 1] == '@' {
        i + 2
    } else if special(c) {
        i + 1
    } else if c == '"' {
        scan_string(s, i + 1)
    } else if c == ';' {
        scan_comment(s, i + 1)
    } else {
        scan_atom(s, i + 1)
    }
}

/// The texts of the strings of `tokens`.
pub open spec fn texts(tokens: Seq<String>) -> Seq<Seq<char>> {
    tokens.map_values(|t: String| t@)
}

/// The token at `pos`, if there is one.
pub open spec fn current(tokens: Seq<Seq<char>>, pos: nat) -> Option<Seq<char>> {
    if pos < tokens.len() {
        Some(tokens[pos as int])
    } else {
        None
    }
}

/// The text of a token that was handed out, if one was.
pub open spec fn text_of(token: Option<&str>) -> Option<Seq<char>> {
    match token {
        Some(t) => Some(t@),
        None => None,
    }
}

/// A token stream as a value: all the tokens of a source text, and how many of
/// them were read.
pub ghost struct TokenStream {
    pub tokens: Seq<Seq<char>>,
    pub pos: nat,
}

/// Reads tokens from a source text, one after the other.
pub struct Tokenizer {
    tokens: Vec<String>,
    pos: usize,
}

impl View for Tokenizer {
    type V = TokenStream;

    closed spec fn view(&self) -> TokenStream {
        TokenStream { tokens: texts(self.tokens@), pos: self.pos as nat }
    }
}

impl Tokenizer {
    /// Turns `s` into tokens to be read.
    pub fn new(s: String) -> (r: Self)
        ensures
            r@.tokens == tokenize(s@),
            r@.pos == 0,
    {
        let chars = chars_of(s.as_str());
        let mut tokens: Vec<String> = Vec::new();
        let mut i: usize = 0;
        loop
            invariant
                i <= chars.len(),
                tokenize(chars@) == texts(tokens@) + tokens_from(chars@, i as int),
            ensures
                tokenize(chars@) == texts(tokens@),
            decreases chars.len() - i,
        {
            let start = scan_separators(&chars, i);
            if start >= chars.len() {
                assert(texts(tokens@) + Seq::<Seq<char>>::empty() =~= texts(tokens@));
                break;
            }
            let end = scan_token(&chars, start);
            let ghost before = tokens@;
            tokens.push(string_of(&chars, start, end));
            let ghost token = chars@.subrange(start as int, end as int);
            assert(texts(tokens@) =~= texts(before).push(token));
            assert(texts(tokens@) + tokens_from(chars@, end as int) =~= texts(before)
                + tokens_from(chars@, i as int));
            i = end;
        }
        Tokenizer { tokens, pos: 0 }
    }

    /// All the tokens, read or not.
    pub fn tokens(&self) -> (r: &Vec<String>)
        ensures
            texts(r@) == self@.tokens,
    {
        &self.tokens
    }

    /// Returns the current token and advances; `None` once every token was
    /// read.
    pub fn next(&mut self) -> (r: Option<&str>)
        ensures
            text_of(r) == current(old(self)@.tokens, old(self)@.pos),
            final(self)@.tokens == old(self)@.tokens,
            final(self)@.pos == old(self)@.pos + (if r is Some { 1nat } else { 0nat }),
    {
        if self.pos >= self.tokens.len() {
            return None;
        }
        let token = &self.tokens[self.pos];
        self.pos += 1;
        Some(token.as_str())
    }

    /// Returns the current token and does not advance; `None` once every
    /// token was read.
    pub fn peek(&mut self) -> (r: Option<&str>)
        ensures
            text_of(r) == current(old(self)@.tokens, old(self)@.pos),
            *final(self) == *old(self),
    {
        if self.pos >= self.tokens.len() {
            return None;
        }
        Some(self.tokens[self.pos].as_str())
    }
}

} // verus!
