//! What the lexer reads: line-ending normalisation and, for each position of
//! the normalised source, the token that starts there.
use vstd::prelude::*;
use crate::text::{alphabetic, alphanumeric, ascii_digit, ascii_hexdigit};
use crate::lexer::{TokenKind, SpecToken};

verus! {

/// `"\r\n"` and a lone `'\r'` both become `'\n'`.
pub open spec fn normalize_newlines(s: Seq<char>) -> Seq<char>
    decreases s.len(),
{
    if s.len() == 0 {
        Seq::<char>::empty()
    } else if s[0] == '\r' {
        if s.len() > 1 && s[1] == '\n' {
            seq!['\n'] + normalize_newlines(s.subrange(2, s.len() as int))
        } else {
            seq!['\n'] + normalize_newlines(s.subrange(1, s.len() as int))
        }
    } else {
        seq![s[0]] + normalize_newlines(s.subrange(1, s.len() as int))
    }
}

/// The classes of characters a token keeps consuming.
#[derive(Clone, Copy, PartialEq, Eq, Structural)]
pub enum CharClass {
    NotNewline,
    Newline,
    Word,
    NumberPart,
    HexPart,
}

pub open spec fn word_char(c: char) -> bool {
    alphanumeric(c) || c == '_'
}

pub open spec fn in_class(c: char, cls: CharClass) -> bool {
    match cls {
        CharClass::NotNewline => c != '\n',
        CharClass::Newline => c == '\n',
        CharClass::Word => word_char(c),
        CharClass::NumberPart => ascii_digit(c) || c == '.' || c == '_' || c == 'e' || c == 'E',
        CharClass::HexPart => ascii_hexdigit(c) || c == '_',
    }
}

/// The first position at or after `j` whose character is not in `cls`.
pub open spec fn run_end(cs: Seq<char>, j: int, cls: CharClass) -> int
    decreases cs.len() - j,
{
    if 0 <= j < cs.len() && in_class(cs[j], cls) {
        run_end(cs, j + 1, cls)
    } else {
        j
    }
}

/// Where a string literal whose body starts at `j` ends: after the closing
/// quote, at the end of the text, or one past it when the text ends in a
/// backslash escape.
pub open spec fn string_end(cs: Seq<char>, j: int) -> int
    decreases cs.len() + 1 - j,
{
    if j < 0 || j >= cs.len() {
        j
    } else if cs[j] == '\\' {
        string_end(cs, j + 2)
    } else if cs[j] == '"' {
        j + 1
    } else {
        string_end(cs, j + 1)
    }
}

/// The position of the first `*/` at or after `j`, or the end of the text.
pub open spec fn block_close(cs: Seq<char>, j: int) -> int
    decreases cs.len() - j,
{
    if j < 0 || j >= cs.len() {
        j
    } else if cs[j] == '*' && j + 1 < cs.len() && cs[j + 1] == '/' {
        j
    } else {
        block_close(cs, j + 1)
    }
}

pub open spec fn count_nl(s: Seq<char>) -> int
    decreases s.len(),
{
    if s.len() == 0 {
        0
    } else {
        count_nl(s.drop_last()) + (if s.last() == '\n' {
            1int
        } else {
            0int
        })
    }
}

pub open spec fn peek_is(cs: Seq<char>, k: int, c: char) -> bool {
    0 <= k < cs.len() && cs[k] == c
}

pub open spec fn hash_kind(t: Seq<char>) -> TokenKind {
    if t == "#include"@ {
        TokenKind::HashInclude
    } else if t == "#using_animtree"@ {
        TokenKind::HashUsingAnimtree
    } else if t == "#animtree"@ {
        TokenKind::HashAnimtree
    } else if t == "#define"@ {
        TokenKind::HashDefine
    } else {
        TokenKind::HashOther
    }
}

/// The two-character operators.
pub open spec fn two_kind(a: char, b: char) -> Option<TokenKind> {
    if a == ':' && b == ':' {
        Some(TokenKind::DoubleColon)
    } else if a == '=' && b == '=' {
        Some(TokenKind::Eq)
    } else if a == '!' && b == '=' {
        Some(TokenKind::NotEq)
    } else if a == '<' && b == '=' {
        Some(TokenKind::LtEq)
    } else if a == '>' && b == '=' {
        Some(TokenKind::GtEq)
    } else if a == '&' && b == '&' {
        Some(TokenKind::And)
    } else if a == '|' && b == '|' {
        Some(TokenKind::Or)
    } else if a == '+' && b == '+' {
        Some(TokenKind::PlusPlus)
    } else if a == '-' && b == '-' {
        Some(TokenKind::MinusMinus)
    } else if a == '+' && b == '=' {
        Some(TokenKind::PlusEq)
    } else if a == '-' && b == '=' {
        Some(TokenKind::MinusEq)
    } else if a == '*' && b == '=' {
        Some(TokenKind::StarEq)
    } else if a == '/' && b == '=' {
        Some(TokenKind::SlashEq)
    } else if a == '%' && b == '=' {
        Some(TokenKind::PercentEq)
    } else if a == '&' && b == '=' {
        Some(TokenKind::AmpEq)
    } else if a == '|' && b == '=' {
        Some(TokenKind::PipeEq)
    } else if a == '^' && b == '=' {
        Some(TokenKind::CaretEq)
    } else if a == '<' && b == '<' {
        Some(TokenKind::LShift)
    } else if a == '>' && b == '>' {
        Some(TokenKind::RShift)
    } else {
        None
    }
}

/// The one-character tokens; any other character is an identifier of its own.
pub open spec fn single_kind(c: char) -> TokenKind {
    if c == '{' {
        TokenKind::LBrace
    } else if c == '}' {
        TokenKind::RBrace
    } else if c == '(' {
        TokenKind::LParen
    } else if c == ')' {
        TokenKind::RParen
    } else if c == '[' {
        TokenKind::LBracket
    } else if c == ']' {
        TokenKind::RBracket
    } else if c == ';' {
        TokenKind::Semicolon
    } else if c == ',' {
        TokenKind::Comma
    } else if c == '.' {
        TokenKind::Dot
    } else if c == ':' {
        TokenKind::Colon
    } else if c == '\\' || c == '@' {
        TokenKind::At
    } else if c == '=' {
        TokenKind::Assign
    } else if c == '+' {
        TokenKind::Plus
    } else if c == '-' {
        TokenKind::Minus
    } else if c == '*' {
        TokenKind::Star
    } else if c == '/' {
        TokenKind::Slash
    } else if c == '%' {
        TokenKind::Percent
    } else if c == '!' {
        TokenKind::Bang
    } else if c == '~' {
        TokenKind::Tilde
    } else if c == '&' {
        TokenKind::Amp
    } else if c == '|' {
        TokenKind::Pipe
    } else if c == '^' {
        TokenKind::Caret
    } else if c == '<' {
        TokenKind::Lt
    } else if c == '>' {
        TokenKind::Gt
    } else if c == '?' {
        TokenKind::Question
    } else {
        TokenKind::Ident
    }
}

/// The token that starts at `i`: its kind, where it ends, and how many line
/// breaks it holds that count towards the line number.
pub struct Scan {
    pub kind: TokenKind,
    pub end: int,
    pub lines: int,
}

pub open spec fn starts_number(cs: Seq<char>, i: int) -> bool {
    ascii_digit(cs[i]) || (cs[i] == '.' && i + 1 < cs.len() && ascii_digit(cs[i + 1]))
}

pub open spec fn starts_anim_ref(cs: Seq<char>, i: int) -> bool {
    cs[i] == '%' && i + 1 < cs.len() && (alphabetic(cs[i + 1]) || cs[i + 1] == '_')
}

/// Identifiers, `#` directives, animation references and numbers keep
/// consuming from the character after their first one: that first character
/// always belongs to the run (a digit or `.` is a number character, and std
/// documents `char::is_alphanumeric` as alphabetic or numeric).
pub open spec fn scan(cs: Seq<char>, i: int) -> Scan {
    let ch = cs[i];
    if ch == '/' && peek_is(cs, i + 1, '/') {
        Scan { kind: TokenKind::LineComment, end: run_end(cs, i + 2, CharClass::NotNewline), lines: 0 }
    } else if ch == '/' && peek_is(cs, i + 1, '*') {
        let close = block_close(cs, i + 2);
        Scan { kind: TokenKind::BlockComment, end: close + 2, lines: count_nl(cs.subrange(i + 2, close)) }
    } else if ch == '#' {
        let e = run_end(cs, i + 1, CharClass::Word);
        Scan { kind: hash_kind(cs.subrange(i, e)), end: e, lines: 0 }
    } else if ch == '&' && peek_is(cs, i + 1, '"') {
        Scan { kind: TokenKind::IString, end: string_end(cs, i + 2), lines: 0 }
    } else if ch == '"' {
        Scan { kind: TokenKind::StringLit, end: string_end(cs, i + 1), lines: 0 }
    } else if starts_anim_ref(cs, i) {
        Scan { kind: TokenKind::AnimRef, end: run_end(cs, i + 1, CharClass::Word), lines: 0 }
    } else if starts_number(cs, i) {
        if ch == '0' && (peek_is(cs, i + 1, 'x') || peek_is(cs, i + 1, 'X')) {
            Scan { kind: TokenKind::Number, end: run_end(cs, i + 2, CharClass::HexPart), lines: 0 }
        } else {
            Scan { kind: TokenKind::Number, end: run_end(cs, i + 1, CharClass::NumberPart), lines: 0 }
        }
    } else if alphabetic(ch) || ch == '_' {
        Scan { kind: TokenKind::Ident, end: run_end(cs, i + 1, CharClass::Word), lines: 0 }
    } else if i + 1 < cs.len() && two_kind(ch, cs[i + 1]) is Some {
        Scan { kind: two_kind(ch, cs[i + 1])->0, end: i + 2, lines: 0 }
    } else {
        Scan { kind: single_kind(ch), end: i + 1, lines: 0 }
    }
}

pub proof fn lemma_run_end_ge(cs: Seq<char>, j: int, cls: CharClass)
    ensures
        run_end(cs, j, cls) >= j,
        0 <= j <= cs.len() ==> run_end(cs, j, cls) <= cs.len(),
    decreases cs.len() - j,
{
    if 0 <= j < cs.len() && in_class(cs[j], cls) {
        lemma_run_end_ge(cs, j + 1, cls);
    }
}

pub proof fn lemma_string_end_ge(cs: Seq<char>, j: int)
    ensures
        string_end(cs, j) >= j,
    decreases cs.len() + 1 - j,
{
    if j < 0 || j >= cs.len() {
    } else if cs[j] == '\\' {
        lemma_string_end_ge(cs, j + 2);
    } else if cs[j] == '"' {
    } else {
        lemma_string_end_ge(cs, j + 1);
    }
}

pub proof fn lemma_block_close_ge(cs: Seq<char>, j: int)
    ensures
        block_close(cs, j) >= j,
        0 <= j <= cs.len() ==> block_close(cs, j) <= cs.len(),
    decreases cs.len() - j,
{
    if j < 0 || j >= cs.len() {
    } else if cs[j] == '*' && j + 1 < cs.len() && cs[j + 1] == '/' {
    } else {
        lemma_block_close_ge(cs, j + 1);
    }
}

pub proof fn lemma_scan_advances(cs: Seq<char>, i: int)
    requires
        0 <= i < cs.len(),
    ensures
        scan(cs, i).end > i,
{
    let ch = cs[i];
    lemma_run_end_ge(cs, i + 2, CharClass::NotNewline);
    lemma_block_close_ge(cs, i + 2);
    lemma_run_end_ge(cs, i + 1, CharClass::Word);
    lemma_string_end_ge(cs, i + 2);
    lemma_string_end_ge(cs, i + 1);
    lemma_run_end_ge(cs, i + 2, CharClass::HexPart);
    lemma_run_end_ge(cs, i + 1, CharClass::NumberPart);
}

/// The tokens from position `i` on, when the current line is `line` and a
/// blank line was seen since the last token exactly when `pending`; `None`
/// when a string or block comment runs past the end of the text.
pub open spec fn lex_at(cs: Seq<char>, i: int, line: int, pending: bool) -> Option<Seq<SpecToken>>
    decreases cs.len() - i,
{
    if i < 0 || i >= cs.len() {
        Some(seq![SpecToken { kind: TokenKind::Eof, text: Seq::<char>::empty(), line, preceded_by_blank: false }])
    } else if cs[i] == ' ' || cs[i] == '\t' {
        lex_at(cs, i + 1, line, pending)
    } else if cs[i] == '\n' {
        let j = run_end(cs, i + 1, CharClass::Newline);
        proof {
            lemma_run_end_ge(cs, i + 1, CharClass::Newline);
        }
        lex_at(cs, j, line + (j - i), pending || j - i > 1)
    } else {
        let sc = scan(cs, i);
        proof {
            lemma_scan_advances(cs, i);
        }
        if sc.end > cs.len() {
            None
        } else {
            match lex_at(cs, sc.end, line + sc.lines, false) {
                Some(rest) => Some(
                    seq![SpecToken { kind: sc.kind, text: cs.subrange(i, sc.end), line, preceded_by_blank: pending }]
                        + rest,
                ),
                None => None,
            }
        }
    }
}

/// The tokens of a source text, or `None` when a string literal or block
/// comment is left open in a way that runs past the end of the text.
pub open spec fn lex(src: Seq<char>) -> Option<Seq<SpecToken>> {
    lex_at(normalize_newlines(src), 0, 1, false)
}

} // verus!
