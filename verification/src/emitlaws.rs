//! What the printer keeps: it only ever adds or removes white space.
use vstd::prelude::*;
use crate::text::{
    white_space, strip_space, all_white_space, lemma_strip_space_add, lemma_strip_space_push,
    lemma_strip_space_all_space,
};
use crate::lexer::{TokenKind, SpecToken};
use crate::lexlaws::{concat_texts, punct_texts};
use crate::emitspec::{
    EmitState, strip_trailing, newline, repeat, line_head, newlines, ensure_line_start, step, emit_upto,
    emit_text, stop_index, lemma_stop_index, lemma_stop_index_at, next_real_from,
    author_blank_lines, step_else, parens_ok, paren_balance, bounded, lemma_step_bounded, is_case_label, step_rbrace, step_rparen, step_general, open_body,
    enter_case_label, push_control, need_blank, is_else, space_before, at_line_start,
};

verus! {

proof fn lemma_strip_push_space(x: Seq<char>, c: char)
    requires
        white_space(c),
    ensures
        strip_space(x.push(c)) == strip_space(x),
{
    lemma_strip_space_push(x, c);
}

proof fn lemma_strip_trailing(x: Seq<char>)
    ensures
        strip_space(strip_trailing(x)) == strip_space(x),
    decreases x.len(),
{
    if x.len() > 0 && (x.last() == ' ' || x.last() == '\t') {
        lemma_strip_trailing(x.drop_last());
        assert(x.drop_last().push(x.last()) =~= x);
        lemma_strip_push_space(x.drop_last(), x.last());
    }
}

proof fn lemma_strip_newline(x: Seq<char>)
    ensures
        strip_space(newline(x)) == strip_space(x),
{
    lemma_strip_trailing(x);
    lemma_strip_push_space(strip_trailing(x), '\n');
}

proof fn lemma_strip_repeat(indent: Seq<char>, d: nat)
    requires
        all_white_space(indent),
    ensures
        strip_space(repeat(indent, d)) == Seq::<char>::empty(),
    decreases d,
{
    if d > 0 {
        lemma_strip_repeat(indent, (d - 1) as nat);
        lemma_strip_space_add(repeat(indent, (d - 1) as nat), indent);
        lemma_strip_space_all_space(indent);
        assert(Seq::<char>::empty() + Seq::<char>::empty() =~= Seq::<char>::empty());
    }
}

/// Appending white space keeps the other characters.
proof fn lemma_strip_add_space(x: Seq<char>, y: Seq<char>)
    requires
        strip_space(y) == Seq::<char>::empty(),
    ensures
        strip_space(x + y) == strip_space(x),
{
    lemma_strip_space_add(x, y);
    assert(strip_space(x) + Seq::<char>::empty() =~= strip_space(x));
}

proof fn lemma_strip_line_head(out: Seq<char>, nb: nat, indent: Seq<char>, d: usize)
    requires
        all_white_space(indent),
    ensures
        strip_space(line_head(out, nb, indent, d)) == strip_space(out),
{
    assert(all_white_space(newlines(nb)));
    lemma_strip_space_all_space(newlines(nb));
    lemma_strip_add_space(out, newlines(nb));
    lemma_strip_repeat(indent, d as nat);
    lemma_strip_add_space(out + newlines(nb), repeat(indent, d as nat));
}

proof fn lemma_strip_ensure_line_start(x: Seq<char>)
    ensures
        strip_space(ensure_line_start(x)) == strip_space(x),
{
    lemma_strip_newline(x);
}

proof fn lemma_strip_general(toks: Seq<SpecToken>, indent: Seq<char>, i: int, st0: EmitState, nb: nat)
    requires
        0 <= i < toks.len(),
        all_white_space(indent),
    ensures
        strip_space(step_general(toks, indent, i, st0, nb).out) == strip_space(st0.out)
            + strip_space(toks[i].text),
{
    let tk = toks[i];
    let st = push_control(tk, enter_case_label(tk, open_body(st0)));
    lemma_strip_ensure_line_start(st0.out);
    assert(strip_space(st.out) == strip_space(st0.out));
    if at_line_start(st.out) {
        lemma_strip_line_head(st.out, nb, indent, st.depth);
        lemma_strip_space_add(line_head(st.out, nb, indent, st.depth), tk.text);
    } else {
        let o = if space_before(toks, i, st) {
            st.out.push(' ')
        } else {
            st.out
        };
        if space_before(toks, i, st) {
            lemma_strip_push_space(st.out, ' ');
        }
        lemma_strip_space_add(o, tk.text);
    }
}

/// Each token adds exactly its own kept text to what is printed.
proof fn lemma_step_strip(toks: Seq<SpecToken>, indent: Seq<char>, i: int, st: EmitState)
    requires
        0 <= i < toks.len(),
        all_white_space(indent),
        punct_texts(toks),
    ensures
        strip_space(step(toks, indent, i, st).out) == strip_space(st.out) + strip_space(toks[i].text),
{
    let tk = toks[i];
    let nb = need_blank(toks, i, st);
    let t = tk.text;
    assert(tk == toks[i]);
    if tk.kind.comment() {
        let out1 = if at_line_start(st.out) {
            line_head(st.out, nb, indent, st.depth)
        } else {
            strip_trailing(st.out) + seq![' ', ' ']
        };
        if at_line_start(st.out) {
            lemma_strip_line_head(st.out, nb, indent, st.depth);
        } else {
            lemma_strip_trailing(st.out);
            assert(seq![' ', ' '] =~= Seq::<char>::empty().push(' ').push(' '));
            lemma_strip_push_space(Seq::<char>::empty(), ' ');
            lemma_strip_push_space(Seq::<char>::empty().push(' '), ' ');
            lemma_strip_add_space(strip_trailing(st.out), seq![' ', ' ']);
        }
        lemma_strip_space_add(out1, t);
        lemma_strip_newline(out1 + t);
    } else if tk.kind == TokenKind::RBrace || tk.kind == TokenKind::LBrace {
        let d = if tk.kind == TokenKind::RBrace {
            step_rbrace(indent, i, st).depth
        } else {
            st.depth
        };
        let o1 = ensure_line_start(st.out);
        lemma_strip_ensure_line_start(st.out);
        lemma_strip_repeat(indent, d as nat);
        lemma_strip_add_space(o1, repeat(indent, d as nat));
        lemma_strip_space_add(o1 + repeat(indent, d as nat), t);
        lemma_strip_newline(o1 + repeat(indent, d as nat) + t);
    } else if tk.kind.preprocessor() {
        let o1 = ensure_line_start(st.out);
        lemma_strip_ensure_line_start(st.out);
        lemma_strip_line_head(o1, (if nb == 0 && st.prev_was_rbrace_toplevel { 1 } else { nb }), indent, st.depth);
        lemma_strip_space_add(line_head(o1, (if nb == 0 && st.prev_was_rbrace_toplevel { 1 } else { nb }), indent, st.depth), t);
    } else if tk.kind == TokenKind::Semicolon {
        let o1 = strip_trailing(st.out);
        lemma_strip_trailing(st.out);
        assert(o1.push(';') =~= o1 + t);
        lemma_strip_space_add(o1, t);
        lemma_strip_newline(o1 + t);
        lemma_strip_push_space(o1 + t, ' ');
    } else if tk.kind == TokenKind::Colon {
        assert(st.out.push(':') =~= st.out + t);
        lemma_strip_space_add(st.out, t);
        lemma_strip_newline(st.out + t);
    } else if tk.kind == TokenKind::RParen {
        let o1 = strip_trailing(st.out);
        lemma_strip_trailing(st.out);
        lemma_strip_push_space(o1, ' ');
        let o2 = if space_before_rparen(toks, st) {
            o1.push(' ')
        } else {
            o1
        };
        assert(o2.push(')') =~= o2 + t);
        lemma_strip_space_add(o2, t);
        assert(step_rparen(toks, i, st).out == o2.push(')'));
    } else if is_else(tk) {
        let o1 = ensure_line_start(st.out);
        lemma_strip_ensure_line_start(st.out);
        lemma_strip_repeat(indent, st.depth as nat);
        lemma_strip_add_space(o1, repeat(indent, st.depth as nat));
        lemma_strip_space_add(o1 + repeat(indent, st.depth as nat), t);
        lemma_strip_newline(o1 + repeat(indent, st.depth as nat) + t);
    } else if tk.kind == TokenKind::LParen {
        lemma_strip_general(toks, indent, i, EmitState { paren_depth: (st.paren_depth + 1) as usize, ..st }, nb);
    } else {
        lemma_strip_general(toks, indent, i, st, nb);
    }
}

spec fn space_before_rparen(toks: Seq<SpecToken>, st: EmitState) -> bool {
    match st.last_real {
        Some(j) => !(toks[j as int].kind == TokenKind::LParen || toks[j as int].kind
            == TokenKind::Semicolon),
        None => false,
    }
}

proof fn lemma_emit_strip(toks: Seq<SpecToken>, indent: Seq<char>, k: nat)
    requires
        k <= toks.len(),
        all_white_space(indent),
        punct_texts(toks),
    ensures
        strip_space(emit_upto(toks, indent, k).out) == strip_space(concat_texts(toks.take(k as int))),
    decreases k,
{
    if k == 0 {
        assert(toks.take(0) =~= Seq::<SpecToken>::empty());
    } else {
        lemma_emit_strip(toks, indent, (k - 1) as nat);
        lemma_step_strip(toks, indent, k - 1, emit_upto(toks, indent, (k - 1) as nat));
        assert(toks.take(k as int).drop_last() =~= toks.take(k - 1));
        assert(toks.take(k as int).last() == toks[k - 1]);
        lemma_strip_space_add(concat_texts(toks.take(k - 1)), toks[k - 1].text);
    }
}

/// With an indentation made of white space, the printer changes only white
/// space: what it prints holds the same other characters, in the same
/// order, as the texts of the tokens before the end of file.
pub proof fn law_emit_keeps_text(toks: Seq<SpecToken>, indent: Seq<char>)
    requires
        all_white_space(indent),
        punct_texts(toks),
    ensures
        strip_space(emit_text(toks, indent)) == strip_space(
            concat_texts(toks.take(stop_index(toks) as int)),
        ),
{
    lemma_stop_index(toks);
    lemma_emit_strip(toks, indent, stop_index(toks));
}


pub open spec fn indices_below(st: EmitState, k: int) -> bool {
    &&& (st.prev_real matches Some(j) ==> j < k)
    &&& (st.last_real matches Some(j) ==> j < k)
}

proof fn lemma_next_real_prefix(toks: Seq<SpecToken>, m: int, j: int)
    requires
        stop_index(toks) <= m <= toks.len(),
        0 <= j <= stop_index(toks),
    ensures
        next_real_from(toks, j) == next_real_from(toks.take(m), j),
        next_real_from(toks, j) matches Some(r) ==> j <= r < stop_index(toks),
    decreases stop_index(toks) - j,
{
    lemma_stop_index(toks);
    let t2 = toks.take(m);
    if j < stop_index(toks) {
        assert(t2[j] == toks[j]);
        lemma_next_real_prefix(toks, m, j + 1);
    } else if j < m {
        assert(t2[j] == toks[j]);
        if j < toks.len() {
            assert(toks[j].kind == TokenKind::Eof);
        }
    }
}

proof fn lemma_step_prefix(toks: Seq<SpecToken>, m: int, indent: Seq<char>, i: int, st: EmitState)
    requires
        stop_index(toks) <= m <= toks.len(),
        0 <= i < stop_index(toks),
        indices_below(st, i),
    ensures
        step(toks, indent, i, st) == step(toks.take(m), indent, i, st),
        indices_below(step(toks, indent, i, st), i + 1),
{
    lemma_stop_index(toks);
    let t2 = toks.take(m);
    assert(t2[i] == toks[i]);
    if i > 0 {
        assert(t2[i - 1] == toks[i - 1]);
    }
    lemma_next_real_prefix(toks, m, i + 1);
    assert(author_blank_lines(toks, i) == author_blank_lines(t2, i));
    assert(need_blank(toks, i, st) == need_blank(t2, i, st));
    assert forall|j: int| 0 <= j < m implies #[trigger] t2[j] == toks[j] by {}
    match next_real_from(toks, i + 1) {
        Some(r) => {
            assert(t2[r] == toks[r]);
        },
        None => {},
    }
    match st.last_real {
        Some(j) => {
            assert(t2[j as int] == toks[j as int]);
        },
        None => {},
    }
    match st.prev_real {
        Some(j) => {
            assert(t2[j as int] == toks[j as int]);
        },
        None => {},
    }
    assert forall|s2: EmitState| #[trigger] indices_below(s2, i) implies space_before(toks, i, s2)
        == space_before(t2, i, s2) by {
        match s2.last_real {
            Some(j) => {
                assert(t2[j as int] == toks[j as int]);
            },
            None => {},
        }
        match s2.prev_real {
            Some(j) => {
                assert(t2[j as int] == toks[j as int]);
            },
            None => {},
        }
    }
    let nb = need_blank(toks, i, st);
    let tk = toks[i];
    if tk.kind == TokenKind::LParen {
        let st0 = EmitState { paren_depth: (st.paren_depth + 1) as usize, ..st };
        let a = push_control(tk, enter_case_label(tk, open_body(st0)));
        assert(indices_below(a, i));
        assert(step_general(toks, indent, i, st0, nb) == step_general(t2, indent, i, st0, nb));
    } else if !tk.kind.comment() && tk.kind != TokenKind::RBrace && tk.kind != TokenKind::LBrace
        && !tk.kind.preprocessor() && tk.kind != TokenKind::Semicolon && tk.kind != TokenKind::Colon
        && tk.kind != TokenKind::RParen && !is_else(tk) {
        let a = push_control(tk, enter_case_label(tk, open_body(st)));
        assert(indices_below(a, i));
        assert(step_general(toks, indent, i, st, nb) == step_general(t2, indent, i, st, nb));
    }
}

proof fn lemma_emit_prefix(toks: Seq<SpecToken>, m: int, indent: Seq<char>, k: nat)
    requires
        stop_index(toks) <= m <= toks.len(),
        k <= stop_index(toks),
    ensures
        emit_upto(toks, indent, k) == emit_upto(toks.take(m), indent, k),
        indices_below(emit_upto(toks, indent, k), k as int),
    decreases k,
{
    if k > 0 {
        lemma_emit_prefix(toks, m, indent, (k - 1) as nat);
        lemma_step_prefix(toks, m, indent, k - 1, emit_upto(toks, indent, (k - 1) as nat));
    }
}

/// The printer stops at the first end-of-file token: the tokens after it,
/// and the end-of-file token itself, make no difference.
pub proof fn law_emit_stops_at_eof(toks: Seq<SpecToken>, indent: Seq<char>, m: int)
    requires
        stop_index(toks) <= m <= toks.len(),
    ensures
        emit_text(toks, indent) == emit_text(toks.take(m), indent),
{
    lemma_stop_index(toks);
    let t2 = toks.take(m);
    assert forall|j: int| 0 <= j < stop_index(toks) implies #[trigger] t2[j].kind != TokenKind::Eof by {
        assert(t2[j] == toks[j]);
    }
    if stop_index(toks) < m {
        assert(t2[stop_index(toks) as int] == toks[stop_index(toks) as int]);
    }
    lemma_stop_index_at(t2, stop_index(toks) as int);
    lemma_emit_prefix(toks, m, indent, stop_index(toks));
}

/// No tokens print nothing.
pub proof fn law_emit_empty(indent: Seq<char>)
    ensures
        emit_text(Seq::<SpecToken>::empty(), indent) == Seq::<char>::empty(),
{
}


/// A token that starts an ordinary statement: not a comment, brace,
/// directive, `;`, `:`, `)`, `else`, `if`, case label or end of file.
pub open spec fn starts_statement(t: SpecToken) -> bool {
    &&& !t.kind.comment()
    &&& t.kind != TokenKind::RBrace
    &&& t.kind != TokenKind::LBrace
    &&& !t.kind.preprocessor()
    &&& t.kind != TokenKind::Semicolon
    &&& t.kind != TokenKind::Colon
    &&& t.kind != TokenKind::RParen
    &&& t.kind != TokenKind::Eof
    &&& !is_else(t)
    &&& !is_case_label(t)
    &&& !(t.kind == TokenKind::Ident && t.text == "if"@)
}

pub open spec fn ends_with(s: Seq<char>, suffix: Seq<char>) -> bool {
    s.len() >= suffix.len() && s.subrange(s.len() - suffix.len(), s.len() as int) == suffix
}

/// While no `)` closes more than was opened, the printer's counters stay
/// within the number of tokens read.
pub proof fn lemma_emit_bounded(toks: Seq<SpecToken>, indent: Seq<char>, k: nat)
    requires
        parens_ok(toks),
        k <= stop_index(toks),
        toks.len() < usize::MAX,
    ensures
        bounded(emit_upto(toks, indent, k), k as int),
        emit_upto(toks, indent, k).paren_depth == paren_balance(toks, k as int),
    decreases k,
{
    lemma_stop_index(toks);
    if k > 0 {
        lemma_emit_bounded(toks, indent, (k - 1) as nat);
        lemma_step_bounded(toks, indent, k - 1, emit_upto(toks, indent, (k - 1) as nat));
    }
}

proof fn lemma_else_step(toks: Seq<SpecToken>, indent: Seq<char>, i: int, st: EmitState)
    requires
        0 <= i,
        i + 1 < toks.len(),
        is_else(toks[i]),
        starts_statement(toks[i + 1]),
    ensures
        step(toks, indent, i, st).awaiting_body,
        step(toks, indent, i, st).depth == st.depth,
        step(toks, indent, i, st).out.len() > 0,
        step(toks, indent, i, st).out.last() == '\n',
{
    assert(next_real_from(toks, i + 1) == Some(i + 1));
    assert(step(toks, indent, i, st) == step_else(toks, indent, i, st));
}

proof fn lemma_body_step(toks: Seq<SpecToken>, indent: Seq<char>, i: int, st1: EmitState)
    requires
        0 <= i < toks.len(),
        starts_statement(toks[i]),
        st1.awaiting_body,
        st1.out.len() > 0,
        st1.out.last() == '\n',
        st1.depth < usize::MAX,
    ensures
        step(toks, indent, i, st1).depth == st1.depth + 1,
        ends_with(step(toks, indent, i, st1).out, seq!['\n'] + repeat(indent, (st1.depth + 1) as nat)
            + toks[i].text),
{
    let tk = toks[i];
    let d = st1.depth;
    let nb = need_blank(toks, i, st1);
    let st0 = if tk.kind == TokenKind::LParen {
        EmitState { paren_depth: (st1.paren_depth + 1) as usize, ..st1 }
    } else {
        st1
    };
    assert(step(toks, indent, i, st1) == step_general(toks, indent, i, st0, nb));
    let a = push_control(tk, enter_case_label(tk, open_body(st0)));
    assert(open_body(st0).out == st1.out);
    assert(a.depth == d + 1);
    assert(a.out == st1.out);
    let st2 = step_general(toks, indent, i, st0, nb);
    let suf = seq!['\n'] + repeat(indent, (d + 1) as nat) + tk.text;
    let head = st1.out + newlines(nb);
    assert(st2.out == head + repeat(indent, (d + 1) as nat) + tk.text);
    assert(head.len() >= 1 && head.last() == '\n') by {
        if nb > 0 {
            assert(head.last() == newlines(nb)[nb - 1]);
        } else {
            assert(head =~= st1.out);
        }
    }
    assert(st2.out =~= head.drop_last() + suf);
    assert(st2.out.subrange(st2.out.len() - suf.len(), st2.out.len() as int) =~= suf);
}

/// A braceless `else` body starts on a line of its own, one indentation
/// level deeper than the `else`, and the printer goes one level deeper.
pub proof fn law_braceless_else_body(toks: Seq<SpecToken>, indent: Seq<char>, i: int)
    requires
        parens_ok(toks),
        toks.len() < usize::MAX,
        0 <= i,
        i + 1 < stop_index(toks),
        is_else(toks[i]),
        starts_statement(toks[i + 1]),
    ensures
        ({
            let d = emit_upto(toks, indent, i as nat).depth;
            let after = emit_upto(toks, indent, (i + 2) as nat);
            &&& after.depth == d + 1
            &&& ends_with(after.out, seq!['\n'] + repeat(indent, (d + 1) as nat) + toks[i + 1].text)
        }),
{
    lemma_stop_index(toks);
    lemma_emit_bounded(toks, indent, i as nat);
    let st = emit_upto(toks, indent, i as nat);
    lemma_else_step(toks, indent, i, st);
    let st1 = emit_upto(toks, indent, (i + 1) as nat);
    assert(st1 == step(toks, indent, i, st));
    lemma_body_step(toks, indent, i + 1, st1);
}

} // verus!
