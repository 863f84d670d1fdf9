//! Character classes and the few string operations the lexer and the
//! formatter need, with their specifications.
use vstd::prelude::*;

verus! {

/// What `char::is_alphabetic` returns for a character (Unicode `Alphabetic`).
pub uninterp spec fn char_alphabetic(c: char) -> bool;

/// What `char::is_alphanumeric` returns for a character.
pub uninterp spec fn char_alphanumeric(c: char) -> bool;

pub open spec fn ascii_letter(c: char) -> bool {
    ('a' <= c && c <= 'z') || ('A' <= c && c <= 'Z')
}

/// `char::is_alphabetic`: in ASCII the Latin letters (the only ASCII
/// characters with the Unicode `Alphabetic` property), beyond it the named
/// result.
pub open spec fn alphabetic(c: char) -> bool {
    if c <= '\x7f' {
        ascii_letter(c)
    } else {
        char_alphabetic(c)
    }
}

/// `char::is_alphanumeric` (alphabetic or numeric): in ASCII the letters and
/// digits, beyond it the named result.
pub open spec fn alphanumeric(c: char) -> bool {
    if c <= '\x7f' {
        ascii_letter(c) || ('0' <= c && c <= '9')
    } else {
        char_alphanumeric(c)
    }
}

/// The characters with the Unicode `White_Space` property, which
/// `char::is_whitespace` tests: tab to carriage return, space, next line, no-break space, ogham
/// space mark, the spaces from en quad to hair space, line separator,
/// paragraph separator, narrow no-break space, medium mathematical space and
/// ideographic space.
pub open spec fn white_space(c: char) -> bool {
    ||| ('\u{9}' <= c && c <= '\u{d}')
    ||| c == '\u{20}'
    ||| c == '\u{85}'
    ||| c == '\u{a0}'
    ||| c == '\u{1680}'
    ||| ('\u{2000}' <= c && c <= '\u{200a}')
    ||| c == '\u{2028}'
    ||| c == '\u{2029}'
    ||| c == '\u{202f}'
    ||| c == '\u{205f}'
    ||| c == '\u{3000}'
}

/// `char::is_ascii_digit`.
pub open spec fn ascii_digit(c: char) -> bool {
    '0' <= c && c <= '9'
}

/// `char::is_ascii_hexdigit`.
pub open spec fn ascii_hexdigit(c: char) -> bool {
    ascii_digit(c) || ('a' <= c && c <= 'f') || ('A' <= c && c <= 'F')
}

/// The text with every white space character removed.
pub open spec fn strip_space(s: Seq<char>) -> Seq<char>
    decreases s.len(),
{
    if s.len() == 0 {
        Seq::<char>::empty()
    } else if white_space(s.last()) {
        strip_space(s.drop_last())
    } else {
        strip_space(s.drop_last()).push(s.last())
    }
}

pub proof fn lemma_strip_space_push(s: Seq<char>, c: char)
    ensures
        strip_space(s.push(c)) == (if white_space(c) {
            strip_space(s)
        } else {
            strip_space(s).push(c)
        }),
{
    assert(s.push(c).drop_last() =~= s);
}

pub proof fn lemma_strip_space_add(a: Seq<char>, b: Seq<char>)
    ensures
        strip_space(a + b) == strip_space(a) + strip_space(b),
    decreases b.len(),
{
    if b.len() == 0 {
        assert(a + b =~= a);
        assert(strip_space(a) + strip_space(b) =~= strip_space(a));
    } else {
        lemma_strip_space_add(a, b.drop_last());
        assert((a + b).drop_last() =~= a + b.drop_last());
        assert((a + b).last() == b.last());
        if !white_space(b.last()) {
            assert(strip_space(a) + strip_space(b.drop_last()).push(b.last()) =~= (strip_space(a)
                + strip_space(b.drop_last())).push(b.last()));
        }
    }
}

/// A text made of white space only loses everything.
pub open spec fn all_white_space(s: Seq<char>) -> bool {
    forall|k: int| 0 <= k < s.len() ==> white_space(#[trigger] s[k])
}

pub proof fn lemma_strip_space_all_space(s: Seq<char>)
    requires
        all_white_space(s),
    ensures
        strip_space(s) == Seq::<char>::empty(),
    decreases s.len(),
{
    if s.len() > 0 {
        assert(white_space(s[s.len() - 1]));
        assert forall|k: int| 0 <= k < s.drop_last().len() implies white_space(
            #[trigger] s.drop_last()[k],
        ) by {
            assert(s.drop_last()[k] == s[k]);
        }
        lemma_strip_space_all_space(s.drop_last());
    }
}

/// Calls `char::is_alphabetic` (the Unicode `Alphabetic` property): an
/// ASCII character is alphabetic exactly when it is a Latin letter; beyond
/// ASCII the contract only names the result.
#[verifier::external_body]
pub(crate) fn is_alphabetic(c: char) -> (r: bool)
    ensures
        r == alphabetic(c),
        c > '\x7f' ==> r == char_alphabetic(c),
{
    c.is_alphabetic()
}

/// Calls `char::is_alphanumeric` (alphabetic or numeric in Unicode): an
/// ASCII character is alphanumeric exactly when it is a Latin letter or a
/// decimal digit; beyond ASCII the contract only names the result.
#[verifier::external_body]
pub(crate) fn is_alphanumeric(c: char) -> (r: bool)
    ensures
        r == alphanumeric(c),
        c > '\x7f' ==> r == char_alphanumeric(c),
{
    c.is_alphanumeric()
}

/// Whether `c` is white space (`char::is_whitespace`).
pub fn is_whitespace(c: char) -> (r: bool)
    ensures
        r == white_space(c),
{
    ('\u{9}' <= c && c <= '\u{d}') || c == '\u{20}' || c == '\u{85}' || c == '\u{a0}' || c
        == '\u{1680}' || ('\u{2000}' <= c && c <= '\u{200a}') || c == '\u{2028}' || c == '\u{2029}'
        || c == '\u{202f}' || c == '\u{205f}' || c == '\u{3000}'
}

/// Calls `String::push`, which appends one character.
#[verifier::external_body]
pub(crate) fn push_char(s: &mut String, c: char)
    ensures
        final(s)@ == old(s)@.push(c),
{
    s.push(c)
}

/// Calls `str`'s `==`, which holds exactly when both hold the same characters.
#[verifier::external_body]
pub(crate) fn str_eq(a: &str, b: &str) -> (r: bool)
    ensures
        r == (a@ == b@),
{
    a == b
}

/// The characters of a string slice, in order.
pub fn chars_of(s: &str) -> (v: Vec<char>)
    ensures
        v@ == s@,
{
    let mut v: Vec<char> = Vec::new();
    for c in it: s.chars()
        invariant
            v@ == it.seq().take(it.index() as int),
    {
        v.push(c);
    }
    v
}

/// A string holding the given characters.
pub fn string_of(v: &Vec<char>) -> (s: String)
    ensures
        s@ == v@,
{
    let mut s = String::new();
    let n = v.len();
    let mut i: usize = 0;
    while i < n
        invariant
            n == v@.len(),
            i <= n,
            s@ == v@.take(i as int),
        decreases n - i,
    {
        push_char(&mut s, v[i]);
        assert(v@.take(i as int).push(v@[i as int]) =~= v@.take(i + 1));
        i += 1;
    }
    assert(v@.take(n as int) =~= v@);
    s
}

pub fn is_ascii_digit(c: char) -> (r: bool)
    ensures
        r == ascii_digit(c),
{
    '0' <= c && c <= '9'
}

pub fn is_ascii_hexdigit(c: char) -> (r: bool)
    ensures
        r == ascii_hexdigit(c),
{
    ('0' <= c && c <= '9') || ('a' <= c && c <= 'f') || ('A' <= c && c <= 'F')
}

} // verus!
