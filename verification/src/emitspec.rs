//! The layout rules of the formatter as a state machine over the tokens:
//! `emit_upto(toks, indent, k)` is the printer's state after the first `k`
//! tokens, and `emit_text` the text printed before the end-of-file token.
use vstd::prelude::*;
use crate::lexer::{TokenKind, SpecToken, keyword, control_kw, space_after_kw};
use crate::lexspec::count_nl;

verus! {

pub open spec fn at_line_start(out: Seq<char>) -> bool {
    out.len() == 0 || out.last() == '\n'
}

/// The text without its trailing spaces and tabs.
pub open spec fn strip_trailing(out: Seq<char>) -> Seq<char>
    decreases out.len(),
{
    if out.len() > 0 && (out.last() == ' ' || out.last() == '\t') {
        strip_trailing(out.drop_last())
    } else {
        out
    }
}

/// Ends the current line: trailing spaces and tabs go, a line feed follows.
pub open spec fn newline(out: Seq<char>) -> Seq<char> {
    strip_trailing(out).push('\n')
}

/// `indent` repeated `d` times.
pub open spec fn repeat(indent: Seq<char>, d: nat) -> Seq<char>
    decreases d,
{
    if d == 0 {
        Seq::<char>::empty()
    } else {
        repeat(indent, (d - 1) as nat) + indent
    }
}

pub open spec fn value_kind(k: TokenKind) -> bool {
    k == TokenKind::Ident || k == TokenKind::Number || k == TokenKind::StringLit || k
        == TokenKind::IString || k == TokenKind::AnimRef
}

/// Whether a `+` or `-` after `pprev` is a sign rather than a binary operator.
pub open spec fn sign_context(pprev: Option<SpecToken>) -> bool {
    match pprev {
        None => true,
        Some(pp) => {
            ||| pp.kind == TokenKind::LParen
            ||| pp.kind == TokenKind::LBracket
            ||| pp.kind == TokenKind::Comma
            ||| pp.kind == TokenKind::Semicolon
            ||| pp.kind == TokenKind::Colon
            ||| pp.kind == TokenKind::Assign
            ||| pp.kind == TokenKind::Plus
            ||| pp.kind == TokenKind::Minus
            ||| pp.kind == TokenKind::Star
            ||| pp.kind == TokenKind::Slash
            ||| pp.kind == TokenKind::Percent
            ||| (pp.kind == TokenKind::Ident && (pp.text == "return"@ || control_kw(pp.text)
                || space_after_kw(pp.text)))
        },
    }
}

/// Whether a space separates `prev` (preceded by `pprev`) from `cur` on one line.
pub open spec fn needs_space_spec(pprev: Option<SpecToken>, prev: SpecToken, cur: SpecToken) -> bool {
    let pk = prev.kind;
    let pv = prev.text;
    let ck = cur.kind;
    let cv = cur.text;
    if pk == TokenKind::Dot || pk == TokenKind::DoubleColon || pk == TokenKind::At {
        false
    } else if ck == TokenKind::Dot || ck == TokenKind::DoubleColon || ck == TokenKind::LBracket {
        pk.binary_op() || pk == TokenKind::Comma
    } else if ck == TokenKind::Comma || ck == TokenKind::Semicolon {
        false
    } else if ck == TokenKind::RParen {
        false
    } else if ck == TokenKind::LParen {
        pk.binary_op() || pk == TokenKind::Comma || (pk == TokenKind::Ident && control_kw(pv))
    } else if ck == TokenKind::PlusPlus || ck == TokenKind::MinusMinus || pk == TokenKind::PlusPlus
        || pk == TokenKind::MinusMinus {
        false
    } else if ck == TokenKind::Bang || ck == TokenKind::Tilde {
        pk.binary_op() || pk == TokenKind::Comma
    } else if (pk == TokenKind::Minus || pk == TokenKind::Plus) && sign_context(pprev) && (ck
        == TokenKind::Number || ck == TokenKind::Ident || ck == TokenKind::LParen) {
        false
    } else if pk.binary_op() || ck.binary_op() {
        true
    } else if pk == TokenKind::Comma {
        true
    } else if pk == TokenKind::Ident && keyword(pv) && !(cv == ";"@ || cv == ","@ || cv == ")"@
        || cv == "]"@ || cv == "("@ || cv == "{"@ || cv == "}"@) {
        true
    } else if ck == TokenKind::Ident && keyword(cv) && !(pv == "("@ || pv == ")"@ || pv == "["@
        || pv == "]"@ || pv == "{"@ || pv == "."@ || pv == "::"@) {
        true
    } else if pk == TokenKind::RBracket && ck == TokenKind::Ident {
        true
    } else if value_kind(pk) && value_kind(ck) {
        true
    } else {
        pk.preprocessor()
    }
}

/// The printer's state between two tokens.
pub struct EmitState {
    pub out: Seq<char>,
    pub depth: usize,
    pub paren_depth: usize,
    pub control_stack: Seq<usize>,
    pub awaiting_body: bool,
    pub braceless_saved_depth: Option<usize>,
    pub prev_real: Option<usize>,
    pub last_real: Option<usize>,
    pub prev_was_rbrace_toplevel: bool,
    pub prev_was_preprocessor: bool,
    pub in_case_label: bool,
    pub case_body_depth: Option<usize>,
    pub case_open_braces: usize,
}

pub open spec fn init_state() -> EmitState {
    EmitState {
        out: Seq::<char>::empty(),
        depth: 0,
        paren_depth: 0,
        control_stack: Seq::<usize>::empty(),
        awaiting_body: false,
        braceless_saved_depth: None,
        prev_real: None,
        last_real: None,
        prev_was_rbrace_toplevel: false,
        prev_was_preprocessor: false,
        in_case_label: false,
        case_body_depth: None,
        case_open_braces: 0,
    }
}

/// The first token after `j - 1` that is not a comment, unless the end of
/// file comes first.
pub open spec fn next_real_from(toks: Seq<SpecToken>, j: int) -> Option<int>
    decreases toks.len() - j,
{
    if j < 0 || j >= toks.len() {
        None
    } else if toks[j].kind.comment() {
        next_real_from(toks, j + 1)
    } else if toks[j].kind == TokenKind::Eof {
        None
    } else {
        Some(j)
    }
}

pub open spec fn next_real_is(toks: Seq<SpecToken>, i: int, k: TokenKind) -> bool {
    match next_real_from(toks, i + 1) {
        Some(j) => toks[j].kind == k,
        None => false,
    }
}

/// The line on which token `i - 1` ends, by the lexer's count (0 before the
/// first token): only block comments count the line breaks they hold.
pub open spec fn prev_end_line(toks: Seq<SpecToken>, i: int) -> int {
    if i <= 0 {
        0
    } else {
        toks[i - 1].line + (if toks[i - 1].kind == TokenKind::BlockComment {
            count_nl(toks[i - 1].text)
        } else {
            0
        })
    }
}

/// How many blank lines the source has before token `i`: none unless the
/// lexer saw a blank line, and then the lines between the previous token's
/// end and this token's line (at least one).
pub open spec fn author_blank_lines(toks: Seq<SpecToken>, i: int) -> nat {
    if !toks[i].preceded_by_blank {
        0
    } else {
        let g = toks[i].line - prev_end_line(toks, i);
        if g >= 2 {
            (g - 1) as nat
        } else {
            1
        }
    }
}

/// How many blank lines go before token `i`: the source's blank lines (up
/// to the tidying limit, applied later) at the top level or at the start
/// of a line in a block, or one before a top-level function after a `}`.
pub open spec fn need_blank(toks: Seq<SpecToken>, i: int, st: EmitState) -> nat {
    let tk = toks[i];
    let tl_fn = st.depth == 0 && st.prev_was_rbrace_toplevel && tk.kind == TokenKind::Ident
        && next_real_is(toks, i, TokenKind::LParen);
    let author_blank = tk.preceded_by_blank && st.depth == 0 && !st.prev_was_rbrace_toplevel
        && !st.prev_was_preprocessor;
    let inner_blank = tk.preceded_by_blank && st.depth > 0 && at_line_start(st.out)
        && !st.prev_was_preprocessor;
    if author_blank || inner_blank {
        author_blank_lines(toks, i)
    } else if tl_fn {
        1
    } else {
        0
    }
}

/// `k` line feeds.
pub open spec fn newlines(k: nat) -> Seq<char> {
    Seq::new(k, |j: int| '\n')
}

/// The text that starts a line at depth `d`, after `nb` blank lines.
pub open spec fn line_head(out: Seq<char>, nb: nat, indent: Seq<char>, d: usize) -> Seq<char> {
    out + newlines(nb) + repeat(indent, d as nat)
}

pub open spec fn ensure_line_start(out: Seq<char>) -> Seq<char> {
    if at_line_start(out) {
        out
    } else {
        newline(out)
    }
}

pub open spec fn step_comment(toks: Seq<SpecToken>, indent: Seq<char>, i: int, st: EmitState, nb: nat) -> EmitState {
    let out1 = if at_line_start(st.out) {
        line_head(st.out, nb, indent, st.depth)
    } else {
        strip_trailing(st.out) + seq![' ', ' ']
    };
    EmitState { out: newline(out1 + toks[i].text), ..st }
}

pub open spec fn step_rbrace(indent: Seq<char>, i: int, st: EmitState) -> EmitState {
    let closes_case = st.case_body_depth is Some && st.case_open_braces == 0;
    let depth1 = if closes_case {
        st.case_body_depth->0
    } else {
        st.depth
    };
    let cob = if st.case_body_depth is Some && st.case_open_braces > 0 {
        (st.case_open_braces - 1) as usize
    } else {
        st.case_open_braces
    };
    let depth2 = if depth1 > 0 {
        (depth1 - 1) as usize
    } else {
        depth1
    };
    let out = newline(ensure_line_start(st.out) + repeat(indent, depth2 as nat) + seq!['}']);
    EmitState {
        out,
        depth: depth2,
        case_body_depth: if closes_case {
            None
        } else {
            st.case_body_depth
        },
        case_open_braces: cob,
        in_case_label: if closes_case {
            false
        } else {
            st.in_case_label
        },
        prev_was_rbrace_toplevel: depth2 == 0,
        prev_was_preprocessor: false,
        prev_real: st.last_real,
        last_real: Some(i as usize),
        awaiting_body: false,
        ..st
    }
}

pub open spec fn step_lbrace(indent: Seq<char>, i: int, st: EmitState) -> EmitState {
    let out = newline(ensure_line_start(st.out) + repeat(indent, st.depth as nat) + seq!['{']);
    EmitState {
        out,
        awaiting_body: false,
        braceless_saved_depth: None,
        case_open_braces: if st.case_body_depth is Some {
            (st.case_open_braces + 1) as usize
        } else {
            st.case_open_braces
        },
        depth: (st.depth + 1) as usize,
        prev_was_rbrace_toplevel: false,
        prev_was_preprocessor: false,
        prev_real: st.last_real,
        last_real: Some(i as usize),
        ..st
    }
}

pub open spec fn step_preprocessor(toks: Seq<SpecToken>, indent: Seq<char>, i: int, st: EmitState, nb: nat) -> EmitState {
    let out = line_head(ensure_line_start(st.out), if nb == 0 && st.prev_was_rbrace_toplevel {
        1
    } else {
        nb
    }, indent, st.depth)
        + toks[i].text;
    EmitState {
        out,
        prev_real: st.last_real,
        last_real: Some(i as usize),
        prev_was_rbrace_toplevel: false,
        prev_was_preprocessor: true,
        ..st
    }
}

pub open spec fn step_semicolon(toks: Seq<SpecToken>, i: int, st: EmitState) -> EmitState {
    let out1 = strip_trailing(st.out).push(';');
    if st.paren_depth == 0 {
        EmitState {
            out: newline(out1),
            depth: match st.braceless_saved_depth {
                Some(d) => d,
                None => st.depth,
            },
            awaiting_body: match st.braceless_saved_depth {
                Some(d) => false,
                None => st.awaiting_body,
            },
            braceless_saved_depth: None,
            prev_real: st.last_real,
            last_real: Some(i as usize),
            prev_was_preprocessor: false,
            ..st
        }
    } else {
        let space = match next_real_from(toks, i + 1) {
            Some(j) => !(toks[j].kind == TokenKind::Semicolon || toks[j].kind == TokenKind::RParen),
            None => false,
        };
        EmitState {
            out: if space {
                out1.push(' ')
            } else {
                out1
            },
            prev_real: st.last_real,
            last_real: Some(i as usize),
            prev_was_preprocessor: false,
            ..st
        }
    }
}

pub open spec fn step_colon(i: int, st: EmitState) -> EmitState {
    EmitState {
        out: newline(st.out.push(':')),
        case_body_depth: if st.in_case_label {
            Some(st.depth)
        } else {
            st.case_body_depth
        },
        case_open_braces: if st.in_case_label {
            0
        } else {
            st.case_open_braces
        },
        depth: if st.in_case_label {
            (st.depth + 1) as usize
        } else {
            st.depth
        },
        in_case_label: false,
        prev_real: st.last_real,
        last_real: Some(i as usize),
        prev_was_preprocessor: false,
        ..st
    }
}

pub open spec fn step_rparen(toks: Seq<SpecToken>, i: int, st: EmitState) -> EmitState {
    let closes = st.control_stack.len() > 0 && st.control_stack.last() == (st.paren_depth
        - 1) as usize;
    let space = match st.last_real {
        Some(j) => !(toks[j as int].kind == TokenKind::LParen || toks[j as int].kind
            == TokenKind::Semicolon),
        None => false,
    };
    let out1 = strip_trailing(st.out);
    EmitState {
        out: (if space {
            out1.push(' ')
        } else {
            out1
        }).push(')'),
        paren_depth: (st.paren_depth - 1) as usize,
        control_stack: if closes {
            st.control_stack.drop_last()
        } else {
            st.control_stack
        },
        awaiting_body: if closes {
            true
        } else {
            st.awaiting_body
        },
        prev_was_rbrace_toplevel: false,
        prev_was_preprocessor: false,
        prev_real: st.last_real,
        last_real: Some(i as usize),
        ..st
    }
}

pub open spec fn next_real_is_ident(toks: Seq<SpecToken>, i: int, word: Seq<char>) -> bool {
    match next_real_from(toks, i + 1) {
        Some(j) => toks[j].kind == TokenKind::Ident && toks[j].text == word,
        None => false,
    }
}

pub open spec fn step_else(toks: Seq<SpecToken>, indent: Seq<char>, i: int, st: EmitState) -> EmitState {
    let out1 = ensure_line_start(st.out) + repeat(indent, st.depth as nat) + toks[i].text;
    let next_is_if = next_real_is_ident(toks, i, "if"@);
    let next_is_brace = next_real_is(toks, i, TokenKind::LBrace);
    EmitState {
        out: if next_is_if {
            out1
        } else {
            newline(out1)
        },
        awaiting_body: if !next_is_if && !next_is_brace {
            true
        } else {
            st.awaiting_body
        },
        prev_real: st.last_real,
        last_real: Some(i as usize),
        prev_was_rbrace_toplevel: false,
        prev_was_preprocessor: false,
        ..st
    }
}

/// Opens the pending body of a braceless control statement.
pub open spec fn open_body(st: EmitState) -> EmitState {
    if st.awaiting_body {
        EmitState {
            out: ensure_line_start(st.out),
            awaiting_body: false,
            braceless_saved_depth: Some(st.depth),
            depth: (st.depth + 1) as usize,
            ..st
        }
    } else {
        st
    }
}

pub open spec fn is_case_label(t: SpecToken) -> bool {
    t.kind == TokenKind::Ident && (t.text == "case"@ || t.text == "default"@)
}

/// A `case` or `default` label leaves the previous case body.
pub open spec fn enter_case_label(t: SpecToken, st: EmitState) -> EmitState {
    if is_case_label(t) {
        EmitState {
            depth: match st.case_body_depth {
                Some(d) => d,
                None => st.depth,
            },
            case_open_braces: match st.case_body_depth {
                Some(d) => 0,
                None => st.case_open_braces,
            },
            case_body_depth: None,
            in_case_label: true,
            ..st
        }
    } else {
        st
    }
}

pub open spec fn push_control(t: SpecToken, st: EmitState) -> EmitState {
    if t.kind == TokenKind::Ident && control_kw(t.text) {
        EmitState { control_stack: st.control_stack.push(st.paren_depth), ..st }
    } else {
        st
    }
}

pub open spec fn opt_token(toks: Seq<SpecToken>, j: Option<usize>) -> Option<SpecToken> {
    match j {
        Some(k) => Some(toks[k as int]),
        None => None,
    }
}

/// Whether a space goes between the previous real token and token `i`.
pub open spec fn space_before(toks: Seq<SpecToken>, i: int, st: EmitState) -> bool {
    match st.last_real {
        Some(j) => if toks[j as int].kind == TokenKind::LParen && !(toks[i].kind
            == TokenKind::RParen || toks[i].kind == TokenKind::Semicolon) {
            true
        } else {
            needs_space_spec(opt_token(toks, st.prev_real), toks[j as int], toks[i])
        },
        None => false,
    }
}

pub open spec fn step_general(toks: Seq<SpecToken>, indent: Seq<char>, i: int, st0: EmitState, nb: nat) -> EmitState {
    let tk = toks[i];
    let st = push_control(tk, enter_case_label(tk, open_body(st0)));
    let out = if at_line_start(st.out) {
        line_head(st.out, nb, indent, st.depth) + tk.text
    } else {
        (if space_before(toks, i, st) {
            st.out.push(' ')
        } else {
            st.out
        }) + tk.text
    };
    EmitState {
        out,
        prev_real: st.last_real,
        last_real: Some(i as usize),
        prev_was_rbrace_toplevel: false,
        prev_was_preprocessor: false,
        ..st
    }
}

pub open spec fn is_else(t: SpecToken) -> bool {
    t.kind == TokenKind::Ident && t.text == "else"@
}

/// How token `i` changes the printer's state.
pub open spec fn step(toks: Seq<SpecToken>, indent: Seq<char>, i: int, st: EmitState) -> EmitState {
    let tk = toks[i];
    let nb = need_blank(toks, i, st);
    if tk.kind.comment() {
        step_comment(toks, indent, i, st, nb)
    } else if tk.kind == TokenKind::RBrace {
        step_rbrace(indent, i, st)
    } else if tk.kind == TokenKind::LBrace {
        step_lbrace(indent, i, st)
    } else if tk.kind.preprocessor() {
        step_preprocessor(toks, indent, i, st, nb)
    } else if tk.kind == TokenKind::Semicolon {
        step_semicolon(toks, i, st)
    } else if tk.kind == TokenKind::Colon {
        step_colon(i, st)
    } else if tk.kind == TokenKind::RParen {
        step_rparen(toks, i, st)
    } else if is_else(tk) {
        step_else(toks, indent, i, st)
    } else if tk.kind == TokenKind::LParen {
        step_general(toks, indent, i, EmitState { paren_depth: (st.paren_depth + 1) as usize, ..st }, nb)
    } else {
        step_general(toks, indent, i, st, nb)
    }
}

/// The printer's state after the first `k` tokens.
pub open spec fn emit_upto(toks: Seq<SpecToken>, indent: Seq<char>, k: nat) -> EmitState
    decreases k,
{
    if k == 0 {
        init_state()
    } else {
        step(toks, indent, k - 1, emit_upto(toks, indent, (k - 1) as nat))
    }
}

/// The position of the first end-of-file token, or the number of tokens.
pub open spec fn stop_index(toks: Seq<SpecToken>) -> nat
    decreases toks.len(),
{
    if toks.len() == 0 {
        0
    } else if toks[0].kind == TokenKind::Eof {
        0
    } else {
        1 + stop_index(toks.drop_first())
    }
}

/// The text printed for the tokens before the end of file, before blank
/// lines and trailing white space are tidied.
pub open spec fn emit_text(toks: Seq<SpecToken>, indent: Seq<char>) -> Seq<char> {
    emit_upto(toks, indent, stop_index(toks)).out
}

/// Open minus closed parentheses among the first `k` tokens.
pub open spec fn paren_balance(toks: Seq<SpecToken>, k: int) -> int
    decreases k,
{
    if k <= 0 {
        0
    } else {
        paren_balance(toks, k - 1) + (if toks[k - 1].kind == TokenKind::LParen {
            1int
        } else if toks[k - 1].kind == TokenKind::RParen {
            -1int
        } else {
            0int
        })
    }
}

/// No `)` before the end of file closes more parentheses than were opened.
pub open spec fn parens_ok(toks: Seq<SpecToken>) -> bool {
    forall|k: int|
        0 <= k < stop_index(toks) && #[trigger] toks[k].kind == TokenKind::RParen
            ==> paren_balance(toks, k) > 0
}


/// Every counter and index in the state is at most the number of tokens read.
pub open spec fn bounded(st: EmitState, k: int) -> bool {
    &&& st.depth <= k
    &&& st.paren_depth <= k
    &&& st.case_open_braces <= k
    &&& st.control_stack.len() <= k
    &&& (forall|j: int| 0 <= j < st.control_stack.len() ==> #[trigger] st.control_stack[j] <= k)
    &&& (st.braceless_saved_depth matches Some(d) ==> d <= k)
    &&& (st.case_body_depth matches Some(d) ==> d <= k)
    &&& (st.prev_real matches Some(j) ==> j < k)
    &&& (st.last_real matches Some(j) ==> j < k)
}

pub proof fn lemma_step_bounded(toks: Seq<SpecToken>, indent: Seq<char>, i: int, st: EmitState)
    requires
        0 <= i < toks.len(),
        i < usize::MAX,
        bounded(st, i),
        st.paren_depth == paren_balance(toks, i),
        toks[i].kind == TokenKind::RParen ==> st.paren_depth > 0,
    ensures
        bounded(step(toks, indent, i, st), i + 1),
        step(toks, indent, i, st).paren_depth == paren_balance(toks, i + 1),
{
    let tk = toks[i];
    let nb = need_blank(toks, i, st);
    if tk.kind == TokenKind::LParen {
        let st0 = EmitState { paren_depth: (st.paren_depth + 1) as usize, ..st };
        let a = open_body(st0);
        let b = enter_case_label(tk, a);
        let c = push_control(tk, b);
        assert(bounded(c, i + 1));
    } else if !tk.kind.comment() && tk.kind != TokenKind::RBrace && tk.kind != TokenKind::LBrace
        && !tk.kind.preprocessor() && tk.kind != TokenKind::Semicolon && tk.kind != TokenKind::Colon
        && tk.kind != TokenKind::RParen && !is_else(tk) {
        let a = open_body(st);
        let b = enter_case_label(tk, a);
        let c = push_control(tk, b);
        assert(bounded(c, i + 1));
    } else if tk.kind == TokenKind::RParen {
        let r = step_rparen(toks, i, st);
        assert forall|j: int| 0 <= j < r.control_stack.len() implies #[trigger] r.control_stack[j]
            <= i + 1 by {
            assert(r.control_stack[j] == st.control_stack[j]);
        }
    }
}


pub proof fn lemma_stop_index(toks: Seq<SpecToken>)
    ensures
        stop_index(toks) <= toks.len(),
        forall|j: int| 0 <= j < stop_index(toks) ==> #[trigger] toks[j].kind != TokenKind::Eof,
        stop_index(toks) < toks.len() ==> toks[stop_index(toks) as int].kind == TokenKind::Eof,
    decreases toks.len(),
{
    if toks.len() > 0 && toks[0].kind != TokenKind::Eof {
        let t = toks.drop_first();
        lemma_stop_index(t);
        assert forall|j: int| 0 <= j < stop_index(toks) implies #[trigger] toks[j].kind
            != TokenKind::Eof by {
            if j > 0 {
                assert(toks[j] == t[j - 1]);
            }
        }
        if stop_index(toks) < toks.len() {
            assert(toks[stop_index(toks) as int] == t[stop_index(t) as int]);
        }
    }
}

/// `stop_index` is the first end of file, whatever follows it.
pub proof fn lemma_stop_index_at(toks: Seq<SpecToken>, k: int)
    requires
        0 <= k <= toks.len(),
        forall|j: int| 0 <= j < k ==> #[trigger] toks[j].kind != TokenKind::Eof,
        k == toks.len() || toks[k].kind == TokenKind::Eof,
    ensures
        stop_index(toks) == k,
    decreases k,
{
    if k > 0 {
        let t = toks.drop_first();
        assert(toks[0].kind != TokenKind::Eof);
        assert forall|j: int| 0 <= j < k - 1 implies #[trigger] t[j].kind != TokenKind::Eof by {
            assert(t[j] == toks[j + 1]);
        }
        if k < toks.len() {
            assert(t[k - 1] == toks[k]);
        }
        lemma_stop_index_at(t, k - 1);
    }
}

} // verus!
