//! The GSC lexer: token kinds, tokens, keyword tables and `tokenize`.
//!
//! The meaning of `tokenize` is given by the spec function `lex`, which reads
//! the source after line endings are normalised and describes, position by
//! position, which token starts there and where it ends.
use vstd::prelude::*;
use crate::text::{str_eq, is_alphabetic, is_alphanumeric, is_ascii_digit, is_ascii_hexdigit, push_char};
use crate::lexspec::{
    CharClass, in_class, run_end, string_end, block_close, count_nl, hash_kind, two_kind, single_kind,
    scan, lex_at, lex, normalize_newlines, lemma_run_end_ge,
};

verus! {

#[derive(Debug, Clone, Copy, PartialEq, Eq, Structural)]
pub enum TokenKind {
    LBrace,
    RBrace,
    LParen,
    RParen,
    LBracket,
    RBracket,
    Semicolon,
    Comma,
    Dot,
    Colon,
    DoubleColon,
    At,
    Assign,
    Plus,
    Minus,
    Star,
    Slash,
    Percent,
    Bang,
    Tilde,
    Amp,
    Pipe,
    Caret,
    Lt,
    Gt,
    Question,
    Eq,
    NotEq,
    LtEq,
    GtEq,
    And,
    Or,
    PlusPlus,
    MinusMinus,
    PlusEq,
    MinusEq,
    StarEq,
    SlashEq,
    PercentEq,
    AmpEq,
    PipeEq,
    CaretEq,
    LShift,
    RShift,
    Ident,
    Number,
    /// `"..."`
    StringLit,
    /// `&"..."`
    IString,
    /// `%ident`
    AnimRef,
    /// `// ...`
    LineComment,
    /// `/* ... */`
    BlockComment,
    HashInclude,
    HashUsingAnimtree,
    HashAnimtree,
    HashDefine,
    HashOther,
    Eof,
}

impl TokenKind {
    pub open spec fn binary_op(self) -> bool {
        match self {
            TokenKind::Assign | TokenKind::Plus | TokenKind::Minus | TokenKind::Star
            | TokenKind::Slash | TokenKind::Percent | TokenKind::Amp | TokenKind::Pipe
            | TokenKind::Caret | TokenKind::Lt | TokenKind::Gt | TokenKind::Question
            | TokenKind::Eq | TokenKind::NotEq | TokenKind::LtEq | TokenKind::GtEq
            | TokenKind::And | TokenKind::Or | TokenKind::PlusEq | TokenKind::MinusEq
            | TokenKind::StarEq | TokenKind::SlashEq | TokenKind::PercentEq | TokenKind::AmpEq
            | TokenKind::PipeEq | TokenKind::CaretEq | TokenKind::LShift | TokenKind::RShift => true,
            _ => false,
        }
    }

    pub open spec fn preprocessor(self) -> bool {
        match self {
            TokenKind::HashInclude | TokenKind::HashUsingAnimtree | TokenKind::HashAnimtree
            | TokenKind::HashDefine | TokenKind::HashOther => true,
            _ => false,
        }
    }

    pub open spec fn unary_prefix_only(self) -> bool {
        self == TokenKind::Bang || self == TokenKind::Tilde
    }

    pub open spec fn comment(self) -> bool {
        self == TokenKind::LineComment || self == TokenKind::BlockComment
    }

    /// Whether the kind is a binary (or assignment, or ternary) operator.
    pub fn is_binary_op(&self) -> (r: bool)
        ensures
            r == self.binary_op(),
    {
        match self {
            TokenKind::Assign | TokenKind::Plus | TokenKind::Minus | TokenKind::Star
            | TokenKind::Slash | TokenKind::Percent | TokenKind::Amp | TokenKind::Pipe
            | TokenKind::Caret | TokenKind::Lt | TokenKind::Gt | TokenKind::Question
            | TokenKind::Eq | TokenKind::NotEq | TokenKind::LtEq | TokenKind::GtEq
            | TokenKind::And | TokenKind::Or | TokenKind::PlusEq | TokenKind::MinusEq
            | TokenKind::StarEq | TokenKind::SlashEq | TokenKind::PercentEq | TokenKind::AmpEq
            | TokenKind::PipeEq | TokenKind::CaretEq | TokenKind::LShift | TokenKind::RShift => true,
            _ => false,
        }
    }

    /// Whether the kind is a preprocessor directive.
    pub fn is_preprocessor(&self) -> (r: bool)
        ensures
            r == self.preprocessor(),
    {
        match self {
            TokenKind::HashInclude | TokenKind::HashUsingAnimtree | TokenKind::HashAnimtree
            | TokenKind::HashDefine | TokenKind::HashOther => true,
            _ => false,
        }
    }

    /// Whether the kind is an operator that can only be a unary prefix (`!`, `~`).
    pub fn is_unary_prefix_only(&self) -> (r: bool)
        ensures
            r == self.unary_prefix_only(),
    {
        match self {
            TokenKind::Bang | TokenKind::Tilde => true,
            _ => false,
        }
    }
}

#[derive(Debug, Clone)]
pub struct Token {
    pub kind: TokenKind,
    pub text: String,
    pub line: usize,
    pub preceded_by_blank: bool,
}

/// A token as a mathematical value.
pub struct SpecToken {
    pub kind: TokenKind,
    pub text: Seq<char>,
    pub line: int,
    pub preceded_by_blank: bool,
}

impl View for Token {
    type V = SpecToken;

    open spec fn view(&self) -> SpecToken {
        SpecToken {
            kind: self.kind,
            text: self.text@,
            line: self.line as int,
            preceded_by_blank: self.preceded_by_blank,
        }
    }
}

pub open spec fn token_views(ts: Seq<Token>) -> Seq<SpecToken> {
    ts.map_values(|t: Token| t@)
}

impl Token {
    /// Whether the token is the identifier `word`.
    pub fn is_ident(&self, word: &str) -> (r: bool)
        ensures
            r == (self.kind == TokenKind::Ident && self.text@ == word@),
    {
        self.kind == TokenKind::Ident && str_eq(self.text.as_str(), word)
    }
}

pub open spec fn keyword(s: Seq<char>) -> bool {
    ||| s == "if"@
    ||| s == "else"@
    ||| s == "for"@
    ||| s == "while"@
    ||| s == "foreach"@
    ||| s == "do"@
    ||| s == "switch"@
    ||| s == "case"@
    ||| s == "default"@
    ||| s == "break"@
    ||| s == "continue"@
    ||| s == "return"@
    ||| s == "wait"@
    ||| s == "waittill"@
    ||| s == "waittillmatch"@
    ||| s == "waittillframeend"@
    ||| s == "waittilltimeout"@
    ||| s == "endon"@
    ||| s == "notify"@
    ||| s == "thread"@
    ||| s == "childthread"@
    ||| s == "in"@
    ||| s == "undefined"@
    ||| s == "true"@
    ||| s == "false"@
    ||| s == "game"@
    ||| s == "self"@
    ||| s == "anim"@
    ||| s == "level"@
    ||| s == "new"@
    ||| s == "delete"@
    ||| s == "call"@
    ||| s == "prof_begin"@
    ||| s == "prof_end"@
    ||| s == "breakpoint"@
}

pub open spec fn control_kw(s: Seq<char>) -> bool {
    ||| s == "if"@
    ||| s == "for"@
    ||| s == "while"@
    ||| s == "foreach"@
    ||| s == "switch"@
}

pub open spec fn space_after_kw(s: Seq<char>) -> bool {
    ||| s == "return"@
    ||| s == "wait"@
    ||| s == "waittill"@
    ||| s == "waittillmatch"@
    ||| s == "waittilltimeout"@
    ||| s == "endon"@
    ||| s == "notify"@
    ||| s == "waittillframeend"@
    ||| s == "thread"@
    ||| s == "childthread"@
    ||| s == "case"@
    ||| s == "in"@
    ||| s == "new"@
    ||| s == "delete"@
}

/// Whether `s` is a GSC keyword.
pub fn is_keyword(s: &str) -> (r: bool)
    ensures
        r == keyword(s@),
{
    str_eq(s, "if") || str_eq(s, "else") || str_eq(s, "for") || str_eq(s, "while") || str_eq(
        s,
        "foreach",
    ) || str_eq(s, "do") || str_eq(s, "switch") || str_eq(s, "case") || str_eq(s, "default")
        || str_eq(s, "break") || str_eq(s, "continue") || str_eq(s, "return") || str_eq(s, "wait")
        || str_eq(s, "waittill") || str_eq(s, "waittillmatch") || str_eq(s, "waittillframeend")
        || str_eq(s, "waittilltimeout") || str_eq(s, "endon") || str_eq(s, "notify") || str_eq(
        s,
        "thread",
    ) || str_eq(s, "childthread") || str_eq(s, "in") || str_eq(s, "undefined") || str_eq(
        s,
        "true",
    ) || str_eq(s, "false") || str_eq(s, "game") || str_eq(s, "self") || str_eq(s, "anim")
        || str_eq(s, "level") || str_eq(s, "new") || str_eq(s, "delete") || str_eq(s, "call")
        || str_eq(s, "prof_begin") || str_eq(s, "prof_end") || str_eq(s, "breakpoint")
}

/// Whether `s` is a keyword that opens a parenthesised control header.
pub fn is_control_kw(s: &str) -> (r: bool)
    ensures
        r == control_kw(s@),
{
    str_eq(s, "if") || str_eq(s, "for") || str_eq(s, "while") || str_eq(s, "foreach") || str_eq(
        s,
        "switch",
    )
}

/// Whether `s` is a keyword that is always followed by a space.
pub fn is_space_after_kw(s: &str) -> (r: bool)
    ensures
        r == space_after_kw(s@),
{
    str_eq(s, "return") || str_eq(s, "wait") || str_eq(s, "waittill") || str_eq(s, "waittillmatch")
        || str_eq(s, "waittilltimeout") || str_eq(s, "endon") || str_eq(s, "notify") || str_eq(
        s,
        "waittillframeend",
    ) || str_eq(s, "thread") || str_eq(s, "childthread") || str_eq(s, "case") || str_eq(s, "in")
        || str_eq(s, "new") || str_eq(s, "delete")
}

/// The characters of `src` with `"\r\n"` and lone `'\r'` turned into `'\n'`.
fn normalized_chars(src: &str) -> (v: Vec<char>)
    ensures
        v@ == normalize_newlines(src@),
{
    let cs = crate::text::chars_of(src);
    let n = cs.len();
    let mut out: Vec<char> = Vec::new();
    let mut i: usize = 0;
    assert(cs@.subrange(0, n as int) =~= cs@);
    assert(out@ + normalize_newlines(cs@) =~= normalize_newlines(cs@));
    while i < n
        invariant
            n == cs@.len(),
            cs@ == src@,
            i <= n,
            normalize_newlines(cs@) == out@ + normalize_newlines(cs@.subrange(i as int, n as int)),
        decreases n - i,
    {
        let ghost rest = cs@.subrange(i as int, n as int);
        let c = cs[i];
        if c == '\r' {
            out.push('\n');
            if i + 1 < n && cs[i + 1] == '\n' {
                assert(rest.subrange(2, rest.len() as int) =~= cs@.subrange(i + 2, n as int));
                i += 2;
            } else {
                assert(rest.subrange(1, rest.len() as int) =~= cs@.subrange(i + 1, n as int));
                i += 1;
            }
        } else {
            out.push(c);
            assert(rest.subrange(1, rest.len() as int) =~= cs@.subrange(i + 1, n as int));
            i += 1;
        }
    }
    assert(cs@.subrange(n as int, n as int) =~= Seq::<char>::empty());
    assert(out@ + Seq::<char>::empty() =~= out@);
    out
}

pub proof fn lemma_normalize_len(s: Seq<char>)
    ensures
        normalize_newlines(s).len() <= s.len(),
    decreases s.len(),
{
    if s.len() > 0 {
        lemma_normalize_len(s.subrange(1, s.len() as int));
        if s.len() > 1 {
            lemma_normalize_len(s.subrange(2, s.len() as int));
        }
    }
}

fn char_in_class(c: char, cls: CharClass) -> (r: bool)
    ensures
        r == in_class(c, cls),
{
    match cls {
        CharClass::NotNewline => c != '\n',
        CharClass::Newline => c == '\n',
        CharClass::Word => is_alphanumeric(c) || c == '_',
        CharClass::NumberPart => is_ascii_digit(c) || c == '.' || c == '_' || c == 'e' || c == 'E',
        CharClass::HexPart => is_ascii_hexdigit(c) || c == '_',
    }
}

/// The first position at or after `j` whose character is not in `cls`.
fn scan_run(chars: &Vec<char>, j: usize, cls: CharClass) -> (e: usize)
    requires
        j <= chars@.len(),
    ensures
        e == run_end(chars@, j as int, cls),
        j <= e <= chars@.len(),
{
    let n = chars.len();
    let mut k = j;
    while k < n && char_in_class(chars[k], cls)
        invariant
            n == chars@.len(),
            j <= k <= n,
            run_end(chars@, j as int, cls) == run_end(chars@, k as int, cls),
        decreases n - k,
    {
        k += 1;
    }
    k
}

/// The end of a string literal whose body starts at `j`, when it lies within the text.
fn scan_string(chars: &Vec<char>, j: usize) -> (r: Option<usize>)
    requires
        j <= chars@.len(),
    ensures
        match r {
            Some(e) => e == string_end(chars@, j as int) && e <= chars@.len(),
            None => string_end(chars@, j as int) > chars@.len(),
        },
{
    let n = chars.len();
    let mut k = j;
    while k < n
        invariant
            n == chars@.len(),
            j <= k <= n,
            string_end(chars@, j as int) == string_end(chars@, k as int),
        decreases n - k,
    {
        if chars[k] == '\\' {
            if k + 1 >= n {
                assert(string_end(chars@, k + 2) == k + 2);
                return None;
            }
            k += 2;
        } else if chars[k] == '"' {
            return Some(k + 1);
        } else {
            k += 1;
        }
    }
    Some(k)
}

/// The position of the first `*/` at or after `j` (or the end of the text),
/// and the number of line breaks before it.
fn scan_block(chars: &Vec<char>, j: usize) -> (r: (usize, usize))
    requires
        j <= chars@.len(),
    ensures
        r.0 == block_close(chars@, j as int),
        r.1 == count_nl(chars@.subrange(j as int, r.0 as int)),
        j <= r.0 <= chars@.len(),
        r.1 <= r.0 - j,
{
    let n = chars.len();
    let mut k = j;
    let mut lines: usize = 0;
    while k < n && !(chars[k] == '*' && k + 1 < n && chars[k + 1] == '/')
        invariant
            n == chars@.len(),
            j <= k <= n,
            block_close(chars@, j as int) == block_close(chars@, k as int),
            lines == count_nl(chars@.subrange(j as int, k as int)),
            lines <= k - j,
        decreases n - k,
    {
        assert(chars@.subrange(j as int, k + 1).drop_last() =~= chars@.subrange(j as int, k as int));
        if chars[k] == '\n' {
            lines += 1;
        }
        k += 1;
    }
    (k, lines)
}

proof fn lemma_block_close_found(cs: Seq<char>, j: int)
    requires
        0 <= j <= cs.len(),
        block_close(cs, j) < cs.len(),
    ensures
        block_close(cs, j) + 1 < cs.len(),
    decreases cs.len() - j,
{
    if j < cs.len() && !(cs[j] == '*' && j + 1 < cs.len() && cs[j + 1] == '/') {
        lemma_block_close_found(cs, j + 1);
    }
}

fn hash_kind_of(t: &str) -> (k: TokenKind)
    ensures
        k == hash_kind(t@),
{
    if str_eq(t, "#include") {
        TokenKind::HashInclude
    } else if str_eq(t, "#using_animtree") {
        TokenKind::HashUsingAnimtree
    } else if str_eq(t, "#animtree") {
        TokenKind::HashAnimtree
    } else if str_eq(t, "#define") {
        TokenKind::HashDefine
    } else {
        TokenKind::HashOther
    }
}

fn two_kind_of(a: char, b: char) -> (r: Option<TokenKind>)
    ensures
        r == two_kind(a, b),
{
    if a == ':' && b == ':' {
        Some(TokenKind::DoubleColon)
    } else if a == '=' && b == '=' {
        Some(TokenKind::Eq)
    } else if a == '!' && b == '=' {
        Some(TokenKind::NotEq)
    } else if a == '<' && b == '=' {
        Some(TokenKind::LtEq)
    } else if a == '>' && b == '=' {
        Some(TokenKind::GtEq)
    } else if a == '&' && b == '&' {
        Some(TokenKind::And)
    } else if a == '|' && b == '|' {
        Some(TokenKind::Or)
    } else if a == '+' && b == '+' {
        Some(TokenKind::PlusPlus)
    } else if a == '-' && b == '-' {
        Some(TokenKind::MinusMinus)
    } else if a == '+' && b == '=' {
        Some(TokenKind::PlusEq)
    } else if a == '-' && b == '=' {
        Some(TokenKind::MinusEq)
    } else if a == '*' && b == '=' {
        Some(TokenKind::StarEq)
    } else if a == '/' && b == '=' {
        Some(TokenKind::SlashEq)
    } else if a == '%' && b == '=' {
        Some(TokenKind::PercentEq)
    } else if a == '&' && b == '=' {
        Some(TokenKind::AmpEq)
    } else if a == '|' && b == '=' {
        Some(TokenKind::PipeEq)
    } else if a == '^' && b == '=' {
        Some(TokenKind::CaretEq)
    } else if a == '<' && b == '<' {
        Some(TokenKind::LShift)
    } else if a == '>' && b == '>' {
        Some(TokenKind::RShift)
    } else {
        None
    }
}

fn single_kind_of(c: char) -> (k: TokenKind)
    ensures
        k == single_kind(c),
{
    if c == '{' {
        TokenKind::LBrace
    } else if c == '}' {
        TokenKind::RBrace
    } else if c == '(' {
        TokenKind::LParen
    } else if c == ')' {
        TokenKind::RParen
    } else if c == '[' {
        TokenKind::LBracket
    } else if c == ']' {
        TokenKind::RBracket
    } else if c == ';' {
        TokenKind::Semicolon
    } else if c == ',' {
        TokenKind::Comma
    } else if c == '.' {
        TokenKind::Dot
    } else if c == ':' {
        TokenKind::Colon
    } else if c == '\\' || c == '@' {
        TokenKind::At
    } else if c == '=' {
        TokenKind::Assign
    } else if c == '+' {
        TokenKind::Plus
    } else if c == '-' {
        TokenKind::Minus
    } else if c == '*' {
        TokenKind::Star
    } else if c == '/' {
        TokenKind::Slash
    } else if c == '%' {
        TokenKind::Percent
    } else if c == '!' {
        TokenKind::Bang
    } else if c == '~' {
        TokenKind::Tilde
    } else if c == '&' {
        TokenKind::Amp
    } else if c == '|' {
        TokenKind::Pipe
    } else if c == '^' {
        TokenKind::Caret
    } else if c == '<' {
        TokenKind::Lt
    } else if c == '>' {
        TokenKind::Gt
    } else if c == '?' {
        TokenKind::Question
    } else {
        TokenKind::Ident
    }
}

/// The text between positions `a` and `b`.
fn text_of(chars: &Vec<char>, a: usize, b: usize) -> (s: String)
    requires
        a <= b <= chars@.len(),
    ensures
        s@ == chars@.subrange(a as int, b as int),
{
    let mut s = String::new();
    let mut k = a;
    while k < b
        invariant
            a <= k <= b,
            b <= chars@.len(),
            s@ == chars@.subrange(a as int, k as int),
        decreases b - k,
    {
        push_char(&mut s, chars[k]);
        assert(chars@.subrange(a as int, k as int).push(chars@[k as int]) =~= chars@.subrange(
            a as int,
            k + 1,
        ));
        k += 1;
    }
    s
}

/// The token that starts at `i` (which holds no blank or line break): its
/// kind, its end and the line breaks it holds; `None` when it runs past the
/// end of the text.
fn scan_token(chars: &Vec<char>, i: usize) -> (r: Option<(TokenKind, usize, usize)>)
    requires
        i < chars@.len(),
    ensures
        match r {
            Some((k, e, l)) => {
                &&& k == scan(chars@, i as int).kind
                &&& e == scan(chars@, i as int).end
                &&& l == scan(chars@, i as int).lines
                &&& i < e <= chars@.len()
                &&& l <= e - i
            },
            None => scan(chars@, i as int).end > chars@.len(),
        },
{
    let n = chars.len();
    let ch = chars[i];
    let next: char = if i + 1 < n {
        chars[i + 1]
    } else {
        '\0'
    };
    proof {
        lemma_run_end_ge(chars@, i + 1, CharClass::Word);
        crate::lexspec::lemma_scan_advances(chars@, i as int);
    }
    if ch == '/' && next == '/' {
        let e = scan_run(chars, i + 2, CharClass::NotNewline);
        Some((TokenKind::LineComment, e, 0))
    } else if ch == '/' && next == '*' {
        let (close, lines) = scan_block(chars, i + 2);
        if close >= n {
            None
        } else {
            proof {
                lemma_block_close_found(chars@, i + 2);
            }
            Some((TokenKind::BlockComment, close + 2, lines))
        }
    } else if ch == '#' {
        let e = scan_run(chars, i + 1, CharClass::Word);
        let t = text_of(chars, i, e);
        let k = hash_kind_of(t.as_str());
        Some((k, e, 0))
    } else if ch == '&' && next == '"' {
        match scan_string(chars, i + 2) {
            Some(e) => Some((TokenKind::IString, e, 0)),
            None => None,
        }
    } else if ch == '"' {
        match scan_string(chars, i + 1) {
            Some(e) => {
                proof {
                    crate::lexspec::lemma_string_end_ge(chars@, i + 1);
                }
                Some((TokenKind::StringLit, e, 0))
            },
            None => None,
        }
    } else if ch == '%' && i + 1 < n && (is_alphabetic(next) || next == '_') {
        let e = scan_run(chars, i + 1, CharClass::Word);
        Some((TokenKind::AnimRef, e, 0))
    } else if is_ascii_digit(ch) || (ch == '.' && is_ascii_digit(next)) {
        if ch == '0' && (next == 'x' || next == 'X') {
            let e = scan_run(chars, i + 2, CharClass::HexPart);
            Some((TokenKind::Number, e, 0))
        } else {
            let e = scan_run(chars, i + 1, CharClass::NumberPart);
            Some((TokenKind::Number, e, 0))
        }
    } else if is_alphabetic(ch) || ch == '_' {
        let e = scan_run(chars, i + 1, CharClass::Word);
        Some((TokenKind::Ident, e, 0))
    } else {
        if i + 1 < n {
            match two_kind_of(ch, next) {
                Some(k) => {
                    return Some((k, i + 2, 0));
                },
                None => {},
            }
        }
        Some((single_kind_of(ch), i + 1, 0))
    }
}

/// Puts the tokens in front of a result that may have failed.
pub open spec fn prepend(p: Seq<SpecToken>, r: Option<Seq<SpecToken>>) -> Option<Seq<SpecToken>> {
    match r {
        Some(rest) => Some(p + rest),
        None => None,
    }
}

/// Splits GSC source into tokens, or `None` where splitting it would run past
/// the end of the text (a string literal ending in a lone backslash, or an
/// unclosed block comment).
pub fn try_tokenize(src: &str) -> (r: Option<Vec<Token>>)
    requires
        src@.len() < usize::MAX,
    ensures
        match r {
            Some(ts) => lex(src@) == Some(token_views(ts@)),
            None => lex(src@) is None,
        },
{
    let chars = normalized_chars(src);
    proof {
        lemma_normalize_len(src@);
    }
    let ghost cs = chars@;
    let n = chars.len();
    let mut i: usize = 0;
    let mut line: usize = 1;
    let mut tokens: Vec<Token> = Vec::new();
    let mut pending_blank = false;
    while i < n
        invariant
            n == cs.len(),
            cs == chars@,
            cs == normalize_newlines(src@),
            n < usize::MAX,
            i <= n,
            1 <= line <= i + 1,
            lex_at(cs, 0, 1, false) == prepend(token_views(tokens@), lex_at(cs, i as int, line as int, pending_blank)),
        decreases n - i,
    {
        let ch = chars[i];
        if ch == ' ' || ch == '\t' {
            i += 1;
            continue;
        }
        if ch == '\n' {
            let i0 = i;
            let line0 = line;
            let ghost pending0 = pending_blank;
            let mut nl: usize = 0;
            while i < n && chars[i] == '\n'
                invariant
                    n == cs.len(),
                    cs == chars@,
                    n < usize::MAX,
                    i0 < n,
                    cs[i0 as int] == '\n',
                    i0 <= i <= n,
                    nl == i - i0,
                    line == line0 + nl,
                    line0 <= i0 + 1,
                    i == i0 || run_end(cs, i0 + 1, CharClass::Newline) == run_end(cs, i as int, CharClass::Newline),
                decreases n - i,
            {
                line += 1;
                i += 1;
                nl += 1;
            }
            if nl > 1 {
                pending_blank = true;
            }
            assert(lex_at(cs, i0 as int, line0 as int, pending0) == lex_at(cs, i as int, line as int, pending_blank));
            continue;
        }
        let token_line = line;
        let pb = pending_blank;
        pending_blank = false;
        match scan_token(&chars, i) {
            None => {
                assert(lex_at(cs, i as int, line as int, pb) is None);
                return None;
            },
            Some((kind, e, lines)) => {
                let text = text_of(&chars, i, e);
                let t = Token { kind, text, line: token_line, preceded_by_blank: pb };
                let ghost before = token_views(tokens@);
                tokens.push(t);
                assert(token_views(tokens@) =~= before.push(t@));
                let ghost rest = lex_at(cs, e as int, (line + lines) as int, false);
                assert(lex_at(cs, i as int, line as int, pb) == prepend(seq![t@], rest));
                assert(prepend(before, prepend(seq![t@], rest)) == prepend(before.push(t@), rest)) by {
                    if rest is Some {
                        assert(before + (seq![t@] + rest->0) =~= before.push(t@) + rest->0);
                    }
                }
                line = line + lines;
                i = e;
            },
        }
    }
    let eof = Token { kind: TokenKind::Eof, text: String::new(), line, preceded_by_blank: false };
    let ghost before = token_views(tokens@);
    tokens.push(eof);
    assert(token_views(tokens@) =~= before.push(eof@));
    assert(before + seq![eof@] =~= before.push(eof@));
    Some(tokens)
}

/// Splits GSC source into tokens, the last of which is `Eof`.
pub fn tokenize(src: &str) -> (ts: Vec<Token>)
    requires
        src@.len() < usize::MAX,
        lex(src@) is Some,
    ensures
        lex(src@) == Some(token_views(ts@)),
{
    match try_tokenize(src) {
        Some(ts) => ts,
        None => {
            assert(false);
            Vec::new()
        },
    }
}

} // verus!
