//! Characters and character sequences: conversions between strings and
//! sequences of characters, and the character classes of the source grammar.

use vstd::prelude::*;
use vstd::std_specs::iter::IteratorSpec;

verus! {

/// `String::push` appends one character to the end of the string and leaves
/// the characters before it unchanged.
pub assume_specification[ std::string::String::push ](s: &mut std::string::String, ch: char)
    ensures
        final(s)@ == old(s)@.push(ch),
;

/// Tells whether two string slices hold the same text.
pub fn same_text(a: &str, b: &str) -> (r: bool)
    ensures
        r == (a@ == b@),
{
    let mut x = a.chars();
    let mut y = b.chars();
    let ghost mut n: int = 0;
    loop
        invariant
            0 <= n <= a@.len(),
            n <= b@.len(),
            x.remaining() == a@.skip(n),
            y.remaining() == b@.skip(n),
            a@.take(n) == b@.take(n),
        decreases a@.len() - n,
    {
        let c = x.next();
        let d = y.next();
        match c {
            None => {
                proof {
                    assert(a@.take(n) =~= a@);
                    if d is None {
                        assert(b@.take(n) =~= b@);
                    }
                }
                return d.is_none();
            },
            Some(p) => {
                match d {
                    None => {
                        assert(b@.take(n) =~= b@);
                        return false;
                    },
                    Some(q) => {
                        assert(p == a@[n] && q == b@[n]);
                        if p != q {
                            return false;
                        }
                        proof {
                            assert(a@.take(n + 1) =~= a@.take(n).push(p));
                            assert(b@.take(n + 1) =~= b@.take(n).push(q));
                            assert(a@.skip(n).drop_first() =~= a@.skip(n + 1));
                            assert(b@.skip(n).drop_first() =~= b@.skip(n + 1));
                            n = n + 1;
                        }
                    },
                }
            },
        }
    }
}

/// Tells whether `s` begins with the character `c`.
pub fn begins_with(s: &str, c: char) -> (r: bool)
    ensures
        r == (s@.len() > 0 && s@[0] == c),
{
    let mut chars = s.chars();
    match chars.next() {
        Some(first) => first == c,
        None => false,
    }
}

/// The characters of `s`, in order.
pub fn chars_of(s: &str) -> (r: Vec<char>)
    ensures
        r@ == s@,
{
    let mut out: Vec<char> = Vec::new();
    for c in it: s.chars()
        invariant
            out@ == it.seq().take(it.index() as int),
            it.seq() == s@,
    {
        out.push(c);
    }
    out
}

/// The string made of the characters `chars[from..to]`.
pub fn string_of(chars: &Vec<char>, from: usize, to: usize) -> (r: String)
    requires
        from <= to <= chars.len(),
    ensures
        r@ == chars@.subrange(from as int, to as int),
{
    let mut out = String::new();
    let mut i: usize = from;
    while i < to
        invariant
            from <= i <= to <= chars.len(),
            out@ == chars@.subrange(from as int, i as int),
        decreases to - i,
    {
        out.push(chars[i]);
        i += 1;
    }
    out
}

/// White space: the characters with the Unicode property `White_Space`.
pub open spec fn is_whitespace(c: char) -> bool {
    ||| '\u{9}' <= c <= '\u{d}'
    ||| c == ' '
    ||| c == '\u{85}'
    ||| c == '\u{a0}'
    ||| c == '\u{1680}'
    ||| '\u{2000}' <= c <= '\u{200a}'
    ||| c == '\u{2028}'
    ||| c == '\u{2029}'
    ||| c == '\u{202f}'
    ||| c == '\u{205f}'
    ||| c == '\u{3000}'
}

/// White space and commas separate tokens and belong to none.
pub open spec fn is_separator(c: char) -> bool {
    is_whitespace(c) || c == ','
}

/// The characters that are a token by themselves wherever a token starts.
pub open spec fn is_special(c: char) -> bool {
    ||| c == '['
    ||| c == ']'
    ||| c == '{'
    ||| c == '}'
    ||| c == '('
    ||| c == ')'
    ||| c == '\''
    ||| c == '`'
    ||| c == '~'
    ||| c == '^'
    ||| c == '@'
}

/// The characters that may stand inside an atom: everything but separators,
/// brackets, quotes and the semicolon.
pub open spec fn is_atom_char(c: char) -> bool {
    &&& !is_separator(c)
    &&& c != '['
    &&& c != ']'
    &&& c != '{'
    &&& c != '}'
    &&& c != '('
    &&& c != ')'
    &&& c != '\''
    &&& c != '"'
    &&& c != '`'
    &&& c != ';'
}

/// The ten decimal digits.
pub open spec fn is_digit(c: char) -> bool {
    '0' <= c <= '9'
}

/// Tells whether `c` is white space.
#[verifier::when_used_as_spec(is_whitespace)]
pub fn whitespace(c: char) -> (r: bool)
    ensures
        r == is_whitespace(c),
{
    ('\u{9}' <= c && c <= '\u{d}')
        || c == ' '
        || c == '\u{85}'
        || c == '\u{a0}'
        || c == '\u{1680}'
        || ('\u{2000}' <= c && c <= '\u{200a}')
        || c == '\u{2028}'
        || c == '\u{2029}'
        || c == '\u{202f}'
        || c == '\u{205f}'
        || c == '\u{3000}'
}

/// Tells whether `c` separates tokens.
#[verifier::when_used_as_spec(is_separator)]
pub fn separator(c: char) -> (r: bool)
    ensures
        r == is_separator(c),
{
    whitespace(c) || c == ','
}

/// Tells whether `c` is a token by itself wherever a token starts.
#[verifier::when_used_as_spec(is_special)]
pub fn special(c: char) -> (r: bool)
    ensures
        r == is_special(c),
{
    c == '[' || c == ']' || c == '{' || c == '}' || c == '(' || c == ')' || c == '\'' || c == '`'
        || c == '~' || c == '^' || c == '@'
}

/// Tells whether `c` may stand inside an atom.
#[verifier::when_used_as_spec(is_atom_char)]
pub fn atom_char(c: char) -> (r: bool)
    ensures
        r == is_atom_char(c),
{
    !separator(c) && c != '[' && c != ']' && c != '{' && c != '}' && c != '(' && c != ')'
        && c != '\'' && c != '"' && c != '`' && c != ';'
}

/// Tells whether `c` is a decimal digit.
#[verifier::when_used_as_spec(is_digit)]
pub fn digit(c: char) -> (r: bool)
    ensures
        r == is_digit(c),
{
    '0' <= c && c <= '9'
}

} // verus!
