//! The formatter: configuration, the printer that lays tokens out, and the
//! public entry points.
use vstd::prelude::*;
use crate::text::{str_eq, chars_of, string_of};
use crate::lexspec::{lex, count_nl};
use crate::tidy::{tidy_text, finalize_chars};
use crate::lexer::{Token, TokenKind, SpecToken, token_views, is_control_kw, is_keyword, is_space_after_kw};
use crate::emitspec::{
    EmitState, at_line_start, strip_trailing, newline, repeat, sign_context, needs_space_spec,
    value_kind, next_real_from, need_blank, line_head, newlines, author_blank_lines, prev_end_line,
    ensure_line_start, step_comment, step_rbrace, step_lbrace, step_preprocessor, step_semicolon,
    step_colon, step_rparen, step_else, step_general, open_body, enter_case_label, push_control,
    space_before, opt_token, step, emit_upto, bounded, paren_balance,
    stop_index, parens_ok, emit_text, init_state, lemma_step_bounded, lemma_stop_index,
    lemma_stop_index_at,
};

verus! {

#[derive(Debug, Clone)]
pub struct FormatConfig {
    pub indent: String,
    pub max_blank_lines: usize,
}

impl Default for FormatConfig {
    /// Four spaces of indentation, at most one blank line in a row.
    fn default() -> (c: Self)
        ensures
            c.indent@ == "    "@,
            c.max_blank_lines == 1,
    {
        FormatConfig { indent: "    ".to_owned(), max_blank_lines: 1 }
    }
}

/// What formatting `src` gives: its tokens laid out with `indent`, then
/// tidied with at most `max` blank lines in a row.
pub open spec fn format_text(src: Seq<char>, indent: Seq<char>, max: int) -> Seq<char> {
    tidy_text(emit_text(lex(src)->0, indent), max)
}

/// Whether the formatter handles `src`: it splits into tokens, and no `)`
/// closes a parenthesis that was never opened.
pub open spec fn formattable(src: Seq<char>) -> bool {
    lex(src) is Some && parens_ok(lex(src)->0)
}

pub struct Formatter {
    cfg: FormatConfig,
}


/// Appends the characters of `s`.
pub(crate) fn push_all_chars(out: &mut Vec<char>, s: &Vec<char>)
    ensures
        final(out)@ == old(out)@ + s@,
{
    let n = s.len();
    let mut k: usize = 0;
    while k < n
        invariant
            n == s@.len(),
            k <= n,
            out@ == old(out)@ + s@.take(k as int),
        decreases n - k,
    {
        out.push(s[k]);
        assert(s@.take(k as int).push(s@[k as int]) =~= s@.take(k + 1));
        assert(old(out)@ + s@.take(k as int).push(s@[k as int]) =~= (old(out)@ + s@.take(
            k as int,
        )).push(s@[k as int]));
        k += 1;
    }
    assert(s@.take(n as int) =~= s@);
}

/// Appends the text of a string.
fn push_text(out: &mut Vec<char>, t: &String)
    ensures
        final(out)@ == old(out)@ + t@,
{
    let cs = chars_of(t.as_str());
    push_all_chars(out, &cs);
}

/// Appends `indent` `d` times.
fn push_indent(out: &mut Vec<char>, indent: &Vec<char>, d: usize)
    ensures
        final(out)@ == old(out)@ + repeat(indent@, d as nat),
{
    let mut k: usize = 0;
    while k < d
        invariant
            k <= d,
            out@ == old(out)@ + repeat(indent@, k as nat),
        decreases d - k,
    {
        push_all_chars(out, indent);
        assert(old(out)@ + repeat(indent@, k as nat) + indent@ =~= old(out)@ + (repeat(
            indent@,
            k as nat,
        ) + indent@));
        assert(repeat(indent@, (k + 1) as nat) == repeat(indent@, k as nat) + indent@);
        k += 1;
    }
}

fn out_at_line_start(out: &Vec<char>) -> (r: bool)
    ensures
        r == at_line_start(out@),
{
    out.len() == 0 || out[out.len() - 1] == '\n'
}

fn strip_trailing_space(out: &mut Vec<char>)
    ensures
        final(out)@ == strip_trailing(old(out)@),
{
    while out.len() > 0 && (out[out.len() - 1] == ' ' || out[out.len() - 1] == '\t')
        invariant
            strip_trailing(out@) == strip_trailing(old(out)@),
        decreases out@.len(),
    {
        out.pop();
    }
}

fn push_newline(out: &mut Vec<char>)
    ensures
        final(out)@ == newline(old(out)@),
{
    strip_trailing_space(out);
    out.push('\n');
}

/// The first token after `i` that is not a comment, unless the end of file
/// comes first.
fn next_real(tokens: &[Token], i: usize) -> (r: Option<usize>)
    requires
        i < tokens@.len(),
    ensures
        match r {
            Some(j) => next_real_from(token_views(tokens@), i + 1) == Some(j as int) && j
                < tokens@.len(),
            None => next_real_from(token_views(tokens@), i + 1) is None,
        },
{
    let ghost tv = token_views(tokens@);
    let n = tokens.len();
    let mut j = i + 1;
    while j < n
        invariant
            n == tokens@.len(),
            tv == token_views(tokens@),
            i + 1 <= j <= n,
            next_real_from(tv, i + 1) == next_real_from(tv, j as int),
        decreases n - j,
    {
        let k = tokens[j].kind;
        assert(tv[j as int].kind == k);
        if k == TokenKind::LineComment || k == TokenKind::BlockComment {
            j += 1;
        } else if k == TokenKind::Eof {
            return None;
        } else {
            return Some(j);
        }
    }
    None
}

fn text_is(t: &Token, lit: &str) -> (r: bool)
    ensures
        r == (t.text@ == lit@),
{
    str_eq(t.text.as_str(), lit)
}

/// Whether a `+` or `-` after `pprev` is a sign rather than a binary operator.
fn is_sign_context(pprev: Option<&Token>) -> (r: bool)
    ensures
        r == sign_context(match pprev {
            Some(t) => Some(t@),
            None => None,
        }),
{
    match pprev {
        None => true,
        Some(pp) => {
            let k = pp.kind;
            k == TokenKind::LParen || k == TokenKind::LBracket || k == TokenKind::Comma || k
                == TokenKind::Semicolon || k == TokenKind::Colon || k == TokenKind::Assign || k
                == TokenKind::Plus || k == TokenKind::Minus || k == TokenKind::Star || k
                == TokenKind::Slash || k == TokenKind::Percent || (k == TokenKind::Ident && (
            text_is(pp, "return") || is_control_kw(pp.text.as_str()) || is_space_after_kw(
                pp.text.as_str(),
            )))
        },
    }
}

fn is_value_kind(k: TokenKind) -> (r: bool)
    ensures
        r == value_kind(k),
{
    k == TokenKind::Ident || k == TokenKind::Number || k == TokenKind::StringLit || k
        == TokenKind::IString || k == TokenKind::AnimRef
}

/// Whether a space separates `prev` (preceded by `pprev`) from `cur` on one line.
pub fn needs_space(pprev: Option<&Token>, prev: &Token, cur: &Token) -> (r: bool)
    ensures
        r == needs_space_spec(
            match pprev {
                Some(t) => Some(t@),
                None => None,
            },
            prev@,
            cur@,
        ),
{
    let pk = prev.kind;
    let ck = cur.kind;
    if pk == TokenKind::Dot || pk == TokenKind::DoubleColon || pk == TokenKind::At {
        return false;
    }
    if ck == TokenKind::Dot || ck == TokenKind::DoubleColon || ck == TokenKind::LBracket {
        if pk.is_binary_op() || pk == TokenKind::Comma {
            return true;
        }
        return false;
    }
    if ck == TokenKind::Comma || ck == TokenKind::Semicolon {
        return false;
    }
    if ck == TokenKind::RParen {
        return false;
    }
    if ck == TokenKind::LParen {
        if pk.is_binary_op() || pk == TokenKind::Comma {
            return true;
        }
        return pk == TokenKind::Ident && is_control_kw(prev.text.as_str());
    }
    if ck == TokenKind::PlusPlus || ck == TokenKind::MinusMinus || pk == TokenKind::PlusPlus || pk
        == TokenKind::MinusMinus {
        return false;
    }
    if ck == TokenKind::Bang || ck == TokenKind::Tilde {
        return pk.is_binary_op() || pk == TokenKind::Comma;
    }
    let is_unary = (pk == TokenKind::Minus || pk == TokenKind::Plus) && is_sign_context(pprev);
    if is_unary && (ck == TokenKind::Number || ck == TokenKind::Ident || ck == TokenKind::LParen) {
        return false;
    }
    if pk.is_binary_op() || ck.is_binary_op() {
        return true;
    }
    if pk == TokenKind::Comma {
        return true;
    }
    if pk == TokenKind::Ident && is_keyword(prev.text.as_str()) {
        if !(text_is(cur, ";") || text_is(cur, ",") || text_is(cur, ")") || text_is(cur, "]")
            || text_is(cur, "(") || text_is(cur, "{") || text_is(cur, "}")) {
            return true;
        }
    }
    if ck == TokenKind::Ident && is_keyword(cur.text.as_str()) {
        if !(text_is(prev, "(") || text_is(prev, ")") || text_is(prev, "[") || text_is(prev, "]")
            || text_is(prev, "{") || text_is(prev, ".") || text_is(prev, "::")) {
            return true;
        }
    }
    if pk == TokenKind::RBracket && ck == TokenKind::Ident {
        return true;
    }
    if is_value_kind(pk) && is_value_kind(ck) {
        return true;
    }
    if pk.is_preprocessor() {
        return true;
    }
    false
}


/// The number of line feeds in a text.
fn count_newlines(t: &String) -> (r: usize)
    ensures
        r as int == count_nl(t@),
        r <= t@.len(),
{
    let cs = chars_of(t.as_str());
    let n = cs.len();
    let mut k: usize = 0;
    let mut c: usize = 0;
    while k < n
        invariant
            n == cs@.len(),
            cs@ == t@,
            k <= n,
            c <= k,
            c as int == count_nl(cs@.take(k as int)),
        decreases n - k,
    {
        assert(cs@.take(k + 1).drop_last() =~= cs@.take(k as int));
        if cs[k] == '\n' {
            c += 1;
        }
        k += 1;
    }
    assert(cs@.take(n as int) =~= cs@);
    c
}

/// How many blank lines the source has before token `i`: see `author_blank_lines`.
fn author_blank_lines_of(tokens: &[Token], i: usize) -> (r: usize)
    requires
        i < tokens@.len(),
    ensures
        r as nat == author_blank_lines(token_views(tokens@), i as int),
{
    let ghost tv = token_views(tokens@);
    let tk = &tokens[i];
    assert(tv[i as int] == tk@);
    if !tk.preceded_by_blank {
        return 0;
    }
    let end: Option<usize> = if i == 0 {
        Some(0)
    } else {
        let p = &tokens[i - 1];
        assert(tv[i - 1] == p@);
        let nl = if p.kind == TokenKind::BlockComment {
            count_newlines(&p.text)
        } else {
            0
        };
        p.line.checked_add(nl)
    };
    match end {
        Some(e) => {
            assert(e as int == prev_end_line(tv, i as int));
            if tk.line > e && tk.line - e >= 2 {
                tk.line - e - 1
            } else {
                1
            }
        },
        None => 1,
    }
}

/// The printer's state between two tokens.
struct Emitter {
    out: Vec<char>,
    depth: usize,
    paren_depth: usize,
    control_stack: Vec<usize>,
    awaiting_body: bool,
    braceless_saved_depth: Option<usize>,
    prev_real: Option<usize>,
    last_real: Option<usize>,
    prev_was_rbrace_toplevel: bool,
    prev_was_preprocessor: bool,
    in_case_label: bool,
    case_body_depth: Option<usize>,
    case_open_braces: usize,
}

impl View for Emitter {
    type V = EmitState;

    closed spec fn view(&self) -> EmitState {
        EmitState {
            out: self.out@,
            depth: self.depth,
            paren_depth: self.paren_depth,
            control_stack: self.control_stack@,
            awaiting_body: self.awaiting_body,
            braceless_saved_depth: self.braceless_saved_depth,
            prev_real: self.prev_real,
            last_real: self.last_real,
            prev_was_rbrace_toplevel: self.prev_was_rbrace_toplevel,
            prev_was_preprocessor: self.prev_was_preprocessor,
            in_case_label: self.in_case_label,
            case_body_depth: self.case_body_depth,
            case_open_braces: self.case_open_braces,
        }
    }
}

impl Emitter {
    fn new() -> (e: Emitter)
        ensures
            e@ == init_state(),
    {
        Emitter {
            out: Vec::new(),
            depth: 0,
            paren_depth: 0,
            control_stack: Vec::new(),
            awaiting_body: false,
            braceless_saved_depth: None,
            prev_real: None,
            last_real: None,
            prev_was_rbrace_toplevel: false,
            prev_was_preprocessor: false,
            in_case_label: false,
            case_body_depth: None,
            case_open_braces: 0,
        }
    }

    fn rotate(&mut self, i: usize)
        ensures
            final(self)@ == (EmitState { prev_real: old(self)@.last_real, last_real: Some(i), ..old(self)@ }),
    {
        self.prev_real = self.last_real;
        self.last_real = Some(i);
    }

    fn need_blank(&self, tokens: &[Token], i: usize) -> (r: usize)
        requires
            i < tokens@.len(),
        ensures
            r as nat == need_blank(token_views(tokens@), i as int, self@),
    {
        let tk = &tokens[i];
        let tl_fn = self.depth == 0 && self.prev_was_rbrace_toplevel && tk.kind == TokenKind::Ident
            && match next_real(tokens, i) {
            Some(j) => tokens[j].kind == TokenKind::LParen,
            None => false,
        };
        let author_blank = tk.preceded_by_blank && self.depth == 0 && !self.prev_was_rbrace_toplevel
            && !self.prev_was_preprocessor;
        let inner_blank = tk.preceded_by_blank && self.depth > 0 && out_at_line_start(&self.out)
            && !self.prev_was_preprocessor;
        if author_blank || inner_blank {
            author_blank_lines_of(tokens, i)
        } else if tl_fn {
            1
        } else {
            0
        }
    }

    fn line_head(&mut self, nb: usize, indent: &Vec<char>)
        ensures
            final(self)@ == (EmitState { out: line_head(old(self)@.out, nb as nat, indent@, old(self)@.depth), ..old(self)@ }),
    {
        let mut k: usize = 0;
        while k < nb
            invariant
                k <= nb,
                self@ == (EmitState { out: old(self)@.out + newlines(k as nat), ..old(self)@ }),
            decreases nb - k,
        {
            self.out.push('\n');
            assert(old(self)@.out + newlines(k as nat) + seq!['\n'] =~= old(self)@.out + newlines((k + 1) as nat));
            assert(self.out@ =~= old(self)@.out + newlines(k as nat) + seq!['\n']);
            k += 1;
        }
        push_indent(&mut self.out, indent, self.depth);
    }

    fn ensure_line_start(&mut self)
        ensures
            final(self)@ == (EmitState { out: ensure_line_start(old(self)@.out), ..old(self)@ }),
    {
        if !out_at_line_start(&self.out) {
            push_newline(&mut self.out);
        }
    }

    fn on_comment(&mut self, tokens: &[Token], i: usize, indent: &Vec<char>, nb: usize)
        requires
            i < tokens@.len(),
        ensures
            final(self)@ == step_comment(token_views(tokens@), indent@, i as int, old(self)@, nb as nat),
    {
        if out_at_line_start(&self.out) {
            self.line_head(nb, indent);
        } else {
            strip_trailing_space(&mut self.out);
            self.out.push(' ');
            self.out.push(' ');
            assert(strip_trailing(old(self)@.out).push(' ').push(' ') =~= strip_trailing(old(self)@.out) + seq![' ', ' ']);
        }
        push_text(&mut self.out, &tokens[i].text);
        push_newline(&mut self.out);
    }

    fn on_rbrace(&mut self, i: usize, indent: &Vec<char>)
        ensures
            final(self)@ == step_rbrace(indent@, i as int, old(self)@),
    {
        if self.case_body_depth.is_some() {
            if self.case_open_braces > 0 {
                self.case_open_braces -= 1;
            } else {
                if let Some(d) = self.case_body_depth {
                    self.depth = d;
                }
                self.case_body_depth = None;
                self.in_case_label = false;
            }
        }
        self.ensure_line_start();
        if self.depth > 0 {
            self.depth -= 1;
        }
        push_indent(&mut self.out, indent, self.depth);
        let ghost o1 = self.out@;
        self.out.push('}');
        assert(self.out@ =~= o1 + seq!['}']);
        self.prev_was_rbrace_toplevel = self.depth == 0;
        self.prev_was_preprocessor = false;
        push_newline(&mut self.out);
        self.rotate(i);
        self.awaiting_body = false;
    }

    fn on_lbrace(&mut self, i: usize, indent: &Vec<char>)
        requires
            old(self).depth < usize::MAX,
            old(self).case_open_braces < usize::MAX,
        ensures
            final(self)@ == step_lbrace(indent@, i as int, old(self)@),
    {
        self.awaiting_body = false;
        self.braceless_saved_depth = None;
        if self.case_body_depth.is_some() {
            self.case_open_braces += 1;
        }
        self.ensure_line_start();
        push_indent(&mut self.out, indent, self.depth);
        let ghost o1 = self.out@;
        self.out.push('{');
        assert(self.out@ =~= o1 + seq!['{']);
        self.depth += 1;
        self.prev_was_rbrace_toplevel = false;
        self.prev_was_preprocessor = false;
        push_newline(&mut self.out);
        self.rotate(i);
    }

    fn on_preprocessor(&mut self, tokens: &[Token], i: usize, indent: &Vec<char>, nb: usize)
        requires
            i < tokens@.len(),
        ensures
            final(self)@ == step_preprocessor(token_views(tokens@), indent@, i as int, old(self)@, nb as nat),
    {
        self.ensure_line_start();
        let blank = if nb == 0 && self.prev_was_rbrace_toplevel {
            1
        } else {
            nb
        };
        self.line_head(blank, indent);
        push_text(&mut self.out, &tokens[i].text);
        self.rotate(i);
        self.prev_was_rbrace_toplevel = false;
        self.prev_was_preprocessor = true;
    }

    fn on_semicolon(&mut self, tokens: &[Token], i: usize)
        requires
            i < tokens@.len(),
        ensures
            final(self)@ == step_semicolon(token_views(tokens@), i as int, old(self)@),
    {
        strip_trailing_space(&mut self.out);
        self.out.push(';');
        if self.paren_depth == 0 {
            push_newline(&mut self.out);
            if let Some(saved) = self.braceless_saved_depth {
                self.depth = saved;
                self.awaiting_body = false;
            }
            self.braceless_saved_depth = None;
        } else {
            let next_needs_space = match next_real(tokens, i) {
                Some(j) => !(tokens[j].kind == TokenKind::Semicolon || tokens[j].kind
                    == TokenKind::RParen),
                None => false,
            };
            if next_needs_space {
                self.out.push(' ');
            }
        }
        self.rotate(i);
        self.prev_was_preprocessor = false;
    }

    fn on_colon(&mut self, i: usize)
        requires
            old(self).depth < usize::MAX,
        ensures
            final(self)@ == step_colon(i as int, old(self)@),
    {
        self.out.push(':');
        if self.in_case_label {
            self.case_body_depth = Some(self.depth);
            self.case_open_braces = 0;
            self.depth += 1;
            self.in_case_label = false;
        }
        push_newline(&mut self.out);
        self.rotate(i);
        self.prev_was_preprocessor = false;
    }

    fn on_rparen(&mut self, tokens: &[Token], i: usize)
        requires
            i < tokens@.len(),
            old(self).paren_depth > 0,
            old(self).last_real matches Some(j) ==> j < tokens@.len(),
        ensures
            final(self)@ == step_rparen(token_views(tokens@), i as int, old(self)@),
    {
        strip_trailing_space(&mut self.out);
        let closes_control = self.control_stack.len() > 0 && self.control_stack[self.control_stack.len() - 1]
            == self.paren_depth - 1;
        self.paren_depth -= 1;
        if closes_control {
            self.control_stack.pop();
            self.awaiting_body = true;
        }
        let space_before_rparen = match self.last_real {
            Some(j) => !(tokens[j].kind == TokenKind::LParen || tokens[j].kind == TokenKind::Semicolon),
            None => false,
        };
        if space_before_rparen {
            self.out.push(' ');
        }
        self.out.push(')');
        self.prev_was_rbrace_toplevel = false;
        self.prev_was_preprocessor = false;
        self.rotate(i);
    }

    fn on_else(&mut self, tokens: &[Token], i: usize, indent: &Vec<char>)
        requires
            i < tokens@.len(),
        ensures
            final(self)@ == step_else(token_views(tokens@), indent@, i as int, old(self)@),
    {
        self.ensure_line_start();
        push_indent(&mut self.out, indent, self.depth);
        push_text(&mut self.out, &tokens[i].text);
        let nxt = next_real(tokens, i);
        let next_is_if = match nxt {
            Some(j) => tokens[j].is_ident("if"),
            None => false,
        };
        let next_is_brace = match nxt {
            Some(j) => tokens[j].kind == TokenKind::LBrace,
            None => false,
        };
        if next_is_if {
        } else if next_is_brace {
            push_newline(&mut self.out);
        } else {
            self.awaiting_body = true;
            push_newline(&mut self.out);
        }
        self.rotate(i);
        self.prev_was_rbrace_toplevel = false;
        self.prev_was_preprocessor = false;
    }

    fn space_before(&self, tokens: &[Token], i: usize) -> (r: bool)
        requires
            i < tokens@.len(),
            self.last_real matches Some(j) ==> j < tokens@.len(),
            self.prev_real matches Some(j) ==> j < tokens@.len(),
        ensures
            r == space_before(token_views(tokens@), i as int, self@),
    {
        let ghost tv = token_views(tokens@);
        let tk = &tokens[i];
        match self.last_real {
            Some(j) => {
                if tokens[j].kind == TokenKind::LParen && !(tk.kind == TokenKind::RParen || tk.kind
                    == TokenKind::Semicolon) {
                    true
                } else {
                    let pprev = match self.prev_real {
                        Some(p) => Some(&tokens[p]),
                        None => None,
                    };
                    let r = needs_space(pprev, &tokens[j], tk);
                    assert(opt_token(tv, self.prev_real) == match pprev {
                        Some(t) => Some(t@),
                        None => None::<SpecToken>,
                    });
                    r
                }
            },
            None => false,
        }
    }

    /// Prints token `i` at the start of a line or after the previous one.
    fn print_general(&mut self, tokens: &[Token], i: usize, indent: &Vec<char>, nb: usize)
        requires
            i < tokens@.len(),
            old(self).last_real matches Some(j) ==> j < tokens@.len(),
            old(self).prev_real matches Some(j) ==> j < tokens@.len(),
        ensures
            final(self)@ == (EmitState {
                out: if at_line_start(old(self)@.out) {
                    line_head(old(self)@.out, nb as nat, indent@, old(self)@.depth) + tokens@[i as int].text@
                } else {
                    (if space_before(token_views(tokens@), i as int, old(self)@) {
                        old(self)@.out.push(' ')
                    } else {
                        old(self)@.out
                    }) + tokens@[i as int].text@
                },
                ..old(self)@
            }),
    {
        if out_at_line_start(&self.out) {
            self.line_head(nb, indent);
            push_text(&mut self.out, &tokens[i].text);
        } else {
            let space = self.space_before(tokens, i);
            if space {
                self.out.push(' ');
            }
            push_text(&mut self.out, &tokens[i].text);
        }
    }

    fn open_body(&mut self)
        requires
            old(self).depth < usize::MAX,
        ensures
            final(self)@ == open_body(old(self)@),
    {
        if self.awaiting_body {
            self.awaiting_body = false;
            self.braceless_saved_depth = Some(self.depth);
            self.depth += 1;
            self.ensure_line_start();
        }
    }

    fn enter_case_label(&mut self, tk: &Token)
        ensures
            final(self)@ == enter_case_label(tk@, old(self)@),
    {
        if tk.kind == TokenKind::Ident && (text_is(tk, "case") || text_is(tk, "default")) {
            if let Some(d) = self.case_body_depth {
                self.depth = d;
                self.case_open_braces = 0;
            }
            self.case_body_depth = None;
            self.in_case_label = true;
        }
    }

    fn push_control(&mut self, tk: &Token)
        ensures
            final(self)@ == push_control(tk@, old(self)@),
    {
        if tk.kind == TokenKind::Ident && is_control_kw(tk.text.as_str()) {
            self.control_stack.push(self.paren_depth);
        }
    }

    fn on_general(&mut self, tokens: &[Token], i: usize, indent: &Vec<char>, nb: usize)
        requires
            i < tokens@.len(),
            old(self).depth < usize::MAX,
            old(self).last_real matches Some(j) ==> j < tokens@.len(),
            old(self).prev_real matches Some(j) ==> j < tokens@.len(),
        ensures
            final(self)@ == step_general(token_views(tokens@), indent@, i as int, old(self)@, nb as nat),
    {
        let ghost tv = token_views(tokens@);
        let tk = &tokens[i];
        assert(tv[i as int] == tk@);
        self.open_body();
        self.enter_case_label(tk);
        self.push_control(tk);
        self.print_general(tokens, i, indent, nb);
        self.rotate(i);
        self.prev_was_rbrace_toplevel = false;
        self.prev_was_preprocessor = false;
    }
}


/// Whether no `)` before the end of file closes a parenthesis that was never opened.
fn parens_balanced(tokens: &[Token]) -> (r: bool)
    ensures
        r == parens_ok(token_views(tokens@)),
{
    let ghost tv = token_views(tokens@);
    let n = tokens.len();
    let mut i: usize = 0;
    let mut balance: usize = 0;
    proof {
        lemma_stop_index(tv);
    }
    while i < n && tokens[i].kind != TokenKind::Eof
        invariant
            tv == token_views(tokens@),
            n == tokens@.len(),
            i <= n,
            balance <= i,
            balance == paren_balance(tv, i as int),
            forall|j: int| 0 <= j < i ==> #[trigger] tv[j].kind != TokenKind::Eof,
            forall|j: int|
                0 <= j < i && #[trigger] tv[j].kind == TokenKind::RParen ==> paren_balance(tv, j) > 0,
        decreases n - i,
    {
        assert(tv[i as int].kind == tokens[i as int].kind);
        if tokens[i].kind == TokenKind::RParen {
            if balance == 0 {
                proof {
                    lemma_stop_index(tv);
                    if stop_index(tv) <= i {
                        assert(tv[stop_index(tv) as int].kind == TokenKind::Eof);
                    }
                    assert(tv[i as int].kind == TokenKind::RParen);
                }
                return false;
            }
            balance -= 1;
        } else if tokens[i].kind == TokenKind::LParen {
            balance += 1;
        }
        i += 1;
    }
    proof {
        if i < n {
            assert(tv[i as int].kind == tokens[i as int].kind);
        }
        lemma_stop_index_at(tv, i as int);
    }
    true
}

impl Formatter {
    pub closed spec fn indent_text(&self) -> Seq<char> {
        self.cfg.indent@
    }

    pub closed spec fn max_blank(&self) -> usize {
        self.cfg.max_blank_lines
    }

    pub fn new(cfg: FormatConfig) -> (f: Self)
        ensures
            f.indent_text() == cfg.indent@,
            f.max_blank() == cfg.max_blank_lines,
    {
        Formatter { cfg }
    }

    /// Formats GSC source.
    pub fn format(&self, src: &str) -> (out: String)
        requires
            src@.len() < usize::MAX,
            formattable(src@),
        ensures
            out@ == format_text(src@, self.indent_text(), self.max_blank() as int),
    {
        let tokens = crate::lexer::tokenize(src);
        self.emit(tokens.as_slice())
    }

    /// Formats GSC source, or gives `None` where `format` cannot: see `formattable`.
    pub fn try_format(&self, src: &str) -> (out: Option<String>)
        requires
            src@.len() < usize::MAX,
        ensures
            out is Some <==> formattable(src@),
            out matches Some(s) ==> s@ == format_text(src@, self.indent_text(), self.max_blank() as int),
    {
        match crate::lexer::try_tokenize(src) {
            None => None,
            Some(tokens) => {
                if parens_balanced(tokens.as_slice()) {
                    Some(self.format(src))
                } else {
                    None
                }
            },
        }
    }

    fn emit(&self, tokens: &[Token]) -> (out: String)
        requires
            parens_ok(token_views(tokens@)),
        ensures
            out@ == tidy_text(emit_text(token_views(tokens@), self.cfg.indent@), self.cfg.max_blank_lines as int),
    {
        let ghost tv = token_views(tokens@);
        let indent = chars_of(self.cfg.indent.as_str());
        let n = tokens.len();
        let mut e = Emitter::new();
        let mut i: usize = 0;
        proof {
            lemma_stop_index(tv);
        }
        while i < n && tokens[i].kind != TokenKind::Eof
            invariant
                tv == token_views(tokens@),
                n == tokens@.len(),
                indent@ == self.cfg.indent@,
                parens_ok(tv),
                i <= n,
                forall|j: int| 0 <= j < i ==> #[trigger] tv[j].kind != TokenKind::Eof,
                e@ == emit_upto(tv, indent@, i as nat),
                bounded(e@, i as int),
                e@.paren_depth == paren_balance(tv, i as int),
            decreases n - i,
        {
            assert(tv[i as int] == tokens@[i as int]@);
            proof {
                lemma_stop_index(tv);
                if stop_index(tv) <= i {
                    assert(tv[stop_index(tv) as int].kind == TokenKind::Eof);
                }
                assert(i < stop_index(tv));
            }
            let ghost st = e@;
            let nb = e.need_blank(tokens, i);
            let k = tokens[i].kind;
            if k == TokenKind::LineComment || k == TokenKind::BlockComment {
                e.on_comment(tokens, i, &indent, nb);
            } else if k == TokenKind::RBrace {
                e.on_rbrace(i, &indent);
            } else if k == TokenKind::LBrace {
                e.on_lbrace(i, &indent);
            } else if k.is_preprocessor() {
                e.on_preprocessor(tokens, i, &indent, nb);
            } else if k == TokenKind::Semicolon {
                e.on_semicolon(tokens, i);
            } else if k == TokenKind::Colon {
                e.on_colon(i);
            } else if k == TokenKind::RParen {
                e.on_rparen(tokens, i);
            } else if tokens[i].is_ident("else") {
                e.on_else(tokens, i, &indent);
            } else {
                if k == TokenKind::LParen {
                    e.paren_depth += 1;
                }
                e.on_general(tokens, i, &indent, nb);
            }
            proof {
                lemma_step_bounded(tv, indent@, i as int, st);
            }
            assert(e@ == step(tv, indent@, i as int, st));
            i += 1;
        }
        proof {
            if i < n {
                assert(tv[i as int].kind == tokens[i as int].kind);
            }
            lemma_stop_index_at(tv, i as int);
        }
        let out = finalize_chars(&e.out, self.cfg.max_blank_lines);
        string_of(&out)
    }
}

} // verus!
