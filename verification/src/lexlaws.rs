//! What holds of every token list the lexer produces.
use vstd::prelude::*;
use crate::text::{strip_space, lemma_strip_space_add, lemma_strip_space_push};
use crate::lexer::{TokenKind, SpecToken};
use crate::lexspec::{hash_kind, two_kind};
use crate::lexspec::{
    lex, lex_at, normalize_newlines, run_end, in_class, CharClass, scan, lemma_run_end_ge, lemma_scan_advances,
};
use crate::emitspec::{stop_index, lemma_stop_index_at};

verus! {

/// The texts of the tokens, one after another.
pub open spec fn concat_texts(ts: Seq<SpecToken>) -> Seq<char>
    decreases ts.len(),
{
    if ts.len() == 0 {
        Seq::<char>::empty()
    } else {
        concat_texts(ts.drop_last()) + ts.last().text
    }
}

pub proof fn lemma_concat_texts_add(a: Seq<SpecToken>, b: Seq<SpecToken>)
    ensures
        concat_texts(a + b) == concat_texts(a) + concat_texts(b),
    decreases b.len(),
{
    if b.len() == 0 {
        assert(a + b =~= a);
        assert(concat_texts(a) + concat_texts(b) =~= concat_texts(a));
    } else {
        lemma_concat_texts_add(a, b.drop_last());
        assert((a + b).drop_last() =~= a + b.drop_last());
        assert(concat_texts(a) + (concat_texts(b.drop_last()) + b.last().text) =~= (concat_texts(a)
            + concat_texts(b.drop_last())) + b.last().text);
    }
}

proof fn lemma_concat_single(t: SpecToken)
    ensures
        concat_texts(seq![t]) == t.text,
{
    assert(seq![t].drop_last() =~= Seq::<SpecToken>::empty());
    assert(concat_texts(Seq::<SpecToken>::empty()) == Seq::<char>::empty());
    assert(Seq::<char>::empty() + t.text =~= t.text);
}

/// The five punctuation tokens that the printer writes itself carry exactly
/// their own character as text.
pub open spec fn punct_texts(ts: Seq<SpecToken>) -> bool {
    forall|k: int|
        0 <= k < ts.len() ==> {
            &&& (#[trigger] ts[k]).kind == TokenKind::LBrace ==> ts[k].text == seq!['{']
            &&& ts[k].kind == TokenKind::RBrace ==> ts[k].text == seq!['}']
            &&& ts[k].kind == TokenKind::Semicolon ==> ts[k].text == seq![';']
            &&& ts[k].kind == TokenKind::Colon ==> ts[k].text == seq![':']
            &&& ts[k].kind == TokenKind::RParen ==> ts[k].text == seq![')']
        }
}

/// Line numbers start at `line` or later and never go down.
pub open spec fn lines_from(ts: Seq<SpecToken>, line: int) -> bool {
    &&& forall|k: int| 0 <= k < ts.len() ==> line <= #[trigger] ts[k].line
    &&& forall|k: int, m: int| 0 <= k <= m < ts.len() ==> #[trigger] ts[k].line <= #[trigger] ts[m].line
}

/// A token is a directive exactly when its text starts with `#`, and its
/// directive kind is the one its text names.
pub open spec fn directive_texts(ts: Seq<SpecToken>) -> bool {
    forall|k: int|
        0 <= k < ts.len() ==> {
            &&& (#[trigger] ts[k]).kind.preprocessor() <==> (ts[k].text.len() > 0 && ts[k].text[0]
                == '#')
            &&& ts[k].kind.preprocessor() ==> ts[k].kind == hash_kind(ts[k].text)
        }
}

/// Every token ends the list exactly when it is the end of file.
pub open spec fn eof_last(ts: Seq<SpecToken>) -> bool {
    &&& ts.len() >= 1
    &&& ts.last().kind == TokenKind::Eof
    &&& ts.last().text == Seq::<char>::empty()
    &&& forall|k: int| 0 <= k < ts.len() - 1 ==> #[trigger] ts[k].kind != TokenKind::Eof
}

proof fn lemma_run_all_in_class(cs: Seq<char>, j: int, cls: CharClass)
    requires
        0 <= j <= cs.len(),
    ensures
        forall|k: int| j <= k < run_end(cs, j, cls) ==> in_class(#[trigger] cs[k], cls),
    decreases cs.len() - j,
{
    if j < cs.len() && in_class(cs[j], cls) {
        lemma_run_all_in_class(cs, j + 1, cls);
    }
}

proof fn lemma_strip_newlines(s: Seq<char>)
    requires
        forall|k: int| 0 <= k < s.len() ==> #[trigger] s[k] == '\n',
    ensures
        strip_space(s) == Seq::<char>::empty(),
    decreases s.len(),
{
    if s.len() > 0 {
        assert(s.last() == '\n');
        assert forall|k: int| 0 <= k < s.drop_last().len() implies #[trigger] s.drop_last()[k]
            == '\n' by {
            assert(s.drop_last()[k] == s[k]);
        }
        lemma_strip_newlines(s.drop_last());
    }
}

proof fn lemma_scan_punct(cs: Seq<char>, i: int)
    requires
        0 <= i < cs.len(),
        cs[i] != ' ' && cs[i] != '\t' && cs[i] != '\n',
    ensures
        ({
            let sc = scan(cs, i);
            let t = cs.subrange(i, sc.end);
            &&& sc.kind == TokenKind::LBrace ==> t == seq!['{']
            &&& sc.kind == TokenKind::RBrace ==> t == seq!['}']
            &&& sc.kind == TokenKind::Semicolon ==> t == seq![';']
            &&& sc.kind == TokenKind::Colon ==> t == seq![':']
            &&& sc.kind == TokenKind::RParen ==> t == seq![')']
            &&& sc.kind != TokenKind::Eof
        }),
{
    let sc = scan(cs, i);
    let ch = cs[i];
    let k = sc.kind;
    if sc.end == i + 1 && (k == TokenKind::LBrace || k == TokenKind::RBrace || k == TokenKind::Semicolon
        || k == TokenKind::Colon || k == TokenKind::RParen) {
        assert(cs.subrange(i, i + 1) =~= seq![ch]);
    }
}

proof fn lemma_lex_at_laws(cs: Seq<char>, i: int, line: int, pending: bool)
    requires
        0 <= i <= cs.len(),
        lex_at(cs, i, line, pending) is Some,
    ensures
        ({
            let ts = lex_at(cs, i, line, pending)->0;
            &&& strip_space(cs.subrange(i, cs.len() as int)) == strip_space(concat_texts(ts))
            &&& punct_texts(ts)
            &&& eof_last(ts)
            &&& lines_from(ts, line)
        }),
    decreases cs.len() - i,
{
    let ts = lex_at(cs, i, line, pending)->0;
    let n = cs.len() as int;
    if i >= n {
        assert(cs.subrange(i, n) =~= Seq::<char>::empty());
        lemma_concat_single(ts[0]);
        assert(ts =~= seq![ts[0]]);
    } else if cs[i] == ' ' || cs[i] == '\t' {
        lemma_lex_at_laws(cs, i + 1, line, pending);
        assert(cs.subrange(i, n) =~= seq![cs[i]] + cs.subrange(i + 1, n));
        lemma_strip_space_add(seq![cs[i]], cs.subrange(i + 1, n));
        lemma_strip_space_push(Seq::<char>::empty(), cs[i]);
        assert(seq![cs[i]] =~= Seq::<char>::empty().push(cs[i]));
    } else if cs[i] == '\n' {
        let j = run_end(cs, i + 1, CharClass::Newline);
        lemma_run_end_ge(cs, i + 1, CharClass::Newline);
        lemma_run_all_in_class(cs, i + 1, CharClass::Newline);
        lemma_lex_at_laws(cs, j, line + (j - i), pending || j - i > 1);
        assert(cs.subrange(i, n) =~= cs.subrange(i, j) + cs.subrange(j, n));
        lemma_strip_space_add(cs.subrange(i, j), cs.subrange(j, n));
        assert forall|k: int| 0 <= k < cs.subrange(i, j).len() implies #[trigger] cs.subrange(
            i,
            j,
        )[k] == '\n' by {
            assert(cs.subrange(i, j)[k] == cs[i + k]);
            if k > 0 {
                assert(in_class(cs[i + k], CharClass::Newline));
            }
        }
        lemma_strip_newlines(cs.subrange(i, j));
        assert(Seq::<char>::empty() + strip_space(cs.subrange(j, n)) =~= strip_space(cs.subrange(j, n)));
    } else {
        let sc = scan(cs, i);
        lemma_scan_advances(cs, i);
        let e = sc.end;
        let rest = lex_at(cs, e, line + sc.lines, false)->0;
        lemma_lex_at_laws(cs, e, line + sc.lines, false);
        let tok = SpecToken { kind: sc.kind, text: cs.subrange(i, e), line, preceded_by_blank: pending };
        assert(ts == seq![tok] + rest);
        lemma_concat_texts_add(seq![tok], rest);
        lemma_concat_single(tok);
        assert(cs.subrange(i, n) =~= cs.subrange(i, e) + cs.subrange(e, n));
        lemma_strip_space_add(cs.subrange(i, e), cs.subrange(e, n));
        lemma_strip_space_add(tok.text, concat_texts(rest));
        lemma_scan_punct(cs, i);
        assert forall|k: int| 0 <= k < ts.len() implies {
            &&& (#[trigger] ts[k]).kind == TokenKind::LBrace ==> ts[k].text == seq!['{']
            &&& ts[k].kind == TokenKind::RBrace ==> ts[k].text == seq!['}']
            &&& ts[k].kind == TokenKind::Semicolon ==> ts[k].text == seq![';']
            &&& ts[k].kind == TokenKind::Colon ==> ts[k].text == seq![':']
            &&& ts[k].kind == TokenKind::RParen ==> ts[k].text == seq![')']
        } by {
            if k > 0 {
                assert(ts[k] == rest[k - 1]);
            }
        }
        assert forall|k: int| 0 <= k < ts.len() - 1 implies #[trigger] ts[k].kind != TokenKind::Eof by {
            if k > 0 {
                assert(ts[k] == rest[k - 1]);
            }
        }
        assert(sc.lines >= 0) by {
            lemma_count_nl_nonneg(cs, i);
        }
        assert forall|k: int, m: int| 0 <= k <= m < ts.len() implies #[trigger] ts[k].line
            <= #[trigger] ts[m].line by {
            if k > 0 {
                assert(ts[k] == rest[k - 1]);
            }
            if m > 0 {
                assert(ts[m] == rest[m - 1]);
            }
        }
        assert forall|k: int| 0 <= k < ts.len() implies line <= #[trigger] ts[k].line by {
            if k > 0 {
                assert(ts[k] == rest[k - 1]);
            }
        }
    }
}

proof fn lemma_count_nl_ge0(s: Seq<char>)
    ensures
        crate::lexspec::count_nl(s) >= 0,
    decreases s.len(),
{
    if s.len() > 0 {
        lemma_count_nl_ge0(s.drop_last());
    }
}

proof fn lemma_count_nl_nonneg(cs: Seq<char>, i: int)
    requires
        0 <= i < cs.len(),
    ensures
        scan(cs, i).lines >= 0,
{
    let close = crate::lexspec::block_close(cs, i + 2);
    lemma_count_nl_ge0(cs.subrange(i + 2, close));
}

pub proof fn lemma_strip_normalize(s: Seq<char>)
    ensures
        strip_space(normalize_newlines(s)) == strip_space(s),
    decreases s.len(),
{
    if s.len() > 0 {
        let n = s.len() as int;
        assert(s =~= seq![s[0]] + s.subrange(1, n));
        lemma_strip_space_add(seq![s[0]], s.subrange(1, n));
        assert(seq![s[0]] =~= Seq::<char>::empty().push(s[0]));
        lemma_strip_space_push(Seq::<char>::empty(), s[0]);
        if s[0] == '\r' {
            assert(seq!['\n'] =~= Seq::<char>::empty().push('\n'));
            lemma_strip_space_push(Seq::<char>::empty(), '\n');
            if s.len() > 1 && s[1] == '\n' {
                let t = s.subrange(2, n);
                lemma_strip_normalize(t);
                lemma_strip_space_add(seq!['\n'], normalize_newlines(t));
                assert(s.subrange(1, n) =~= seq![s[1]] + t);
                lemma_strip_space_add(seq![s[1]], t);
                assert(seq![s[1]] =~= Seq::<char>::empty().push(s[1]));
            } else {
                let t = s.subrange(1, n);
                lemma_strip_normalize(t);
                lemma_strip_space_add(seq!['\n'], normalize_newlines(t));
            }
        } else {
            let t = s.subrange(1, n);
            lemma_strip_normalize(t);
            lemma_strip_space_add(seq![s[0]], normalize_newlines(t));
        }
    }
}

/// Splitting into tokens drops only white space: the tokens' texts, one after
/// another, hold every other character of the source in order.
pub proof fn law_tokens_keep_text(src: Seq<char>)
    requires
        lex(src) is Some,
    ensures
        strip_space(concat_texts(lex(src)->0)) == strip_space(src),
{
    let cs = normalize_newlines(src);
    lemma_lex_at_laws(cs, 0, 1, false);
    assert(cs.subrange(0, cs.len() as int) =~= cs);
    lemma_strip_normalize(src);
}

/// The token list ends with the end-of-file token and holds no other.
pub proof fn law_tokens_end_with_eof(src: Seq<char>)
    requires
        lex(src) is Some,
    ensures
        eof_last(lex(src)->0),
        stop_index(lex(src)->0) == (lex(src)->0).len() - 1,
{
    let cs = normalize_newlines(src);
    lemma_lex_at_laws(cs, 0, 1, false);
    let ts = lex(src)->0;
    lemma_stop_index_at(ts, ts.len() - 1);
}

/// Tokens are numbered from line 1 on, and their line numbers never go down.
pub proof fn law_token_lines(src: Seq<char>)
    requires
        lex(src) is Some,
    ensures
        lines_from(lex(src)->0, 1),
{
    lemma_lex_at_laws(normalize_newlines(src), 0, 1, false);
}

proof fn lemma_scan_directive(cs: Seq<char>, i: int)
    requires
        0 <= i < cs.len(),
    ensures
        scan(cs, i).kind.preprocessor() <==> cs[i] == '#',
        scan(cs, i).kind.preprocessor() ==> scan(cs, i).kind == hash_kind(
            cs.subrange(i, scan(cs, i).end),
        ),
{
}

proof fn lemma_lex_at_directives(cs: Seq<char>, i: int, line: int, pending: bool)
    requires
        0 <= i <= cs.len(),
        lex_at(cs, i, line, pending) is Some,
    ensures
        directive_texts(lex_at(cs, i, line, pending)->0),
    decreases cs.len() - i,
{
    let ts = lex_at(cs, i, line, pending)->0;
    let n = cs.len() as int;
    if i >= n {
    } else if cs[i] == ' ' || cs[i] == '\t' {
        lemma_lex_at_directives(cs, i + 1, line, pending);
    } else if cs[i] == '\n' {
        let j = run_end(cs, i + 1, CharClass::Newline);
        lemma_run_end_ge(cs, i + 1, CharClass::Newline);
        lemma_lex_at_directives(cs, j, line + (j - i), pending || j - i > 1);
    } else {
        let sc = scan(cs, i);
        lemma_scan_advances(cs, i);
        let e = sc.end;
        let rest = lex_at(cs, e, line + sc.lines, false)->0;
        lemma_lex_at_directives(cs, e, line + sc.lines, false);
        lemma_scan_directive(cs, i);
        let tok = SpecToken { kind: sc.kind, text: cs.subrange(i, e), line, preceded_by_blank: pending };
        assert(ts == seq![tok] + rest);
        assert(tok.text[0] == cs[i]);
        assert forall|k: int| 0 <= k < ts.len() implies {
            &&& (#[trigger] ts[k]).kind.preprocessor() <==> (ts[k].text.len() > 0 && ts[k].text[0]
                == '#')
            &&& ts[k].kind.preprocessor() ==> ts[k].kind == hash_kind(ts[k].text)
        } by {
            if k > 0 {
                assert(ts[k] == rest[k - 1]);
            }
        }
    }
}

/// A token is a directive exactly when its text starts with `#`; its kind is
/// the directive its text names (`HashOther` for any other word).
pub proof fn law_tokens_directive_kinds(src: Seq<char>)
    requires
        lex(src) is Some,
    ensures
        directive_texts(lex(src)->0),
{
    lemma_lex_at_directives(normalize_newlines(src), 0, 1, false);
}

proof fn lemma_normalize_no_cr(s: Seq<char>)
    ensures
        forall|k: int| 0 <= k < normalize_newlines(s).len() ==> #[trigger] normalize_newlines(s)[k]
            != '\r',
    decreases s.len(),
{
    if s.len() > 0 {
        let n = s.len() as int;
        lemma_normalize_no_cr(s.subrange(1, n));
        if s.len() > 1 {
            lemma_normalize_no_cr(s.subrange(2, n));
        }
        let t = if s[0] == '\r' && s.len() > 1 && s[1] == '\n' {
            s.subrange(2, n)
        } else {
            s.subrange(1, n)
        };
        let h = if s[0] == '\r' {
            '\n'
        } else {
            s[0]
        };
        assert(normalize_newlines(s) == seq![h] + normalize_newlines(t));
        assert forall|k: int| 0 <= k < normalize_newlines(s).len() implies #[trigger] normalize_newlines(
            s,
        )[k] != '\r' by {
            if k > 0 {
                assert(normalize_newlines(s)[k] == normalize_newlines(t)[k - 1]);
            }
        }
    }
}

proof fn lemma_normalize_identity(s: Seq<char>)
    requires
        forall|k: int| 0 <= k < s.len() ==> #[trigger] s[k] != '\r',
    ensures
        normalize_newlines(s) == s,
    decreases s.len(),
{
    if s.len() > 0 {
        let t = s.subrange(1, s.len() as int);
        assert forall|k: int| 0 <= k < t.len() implies #[trigger] t[k] != '\r' by {
            assert(t[k] == s[k + 1]);
        }
        lemma_normalize_identity(t);
        assert(s[0] != '\r');
        assert(seq![s[0]] + t =~= s);
    }
}

/// Carriage returns, alone or before a line feed, are lexed exactly like a
/// line feed: lexing a text gives the same tokens as lexing it with its line
/// endings normalised.
pub proof fn law_line_endings(src: Seq<char>)
    ensures
        lex(src) == lex(normalize_newlines(src)),
{
    lemma_normalize_no_cr(src);
    lemma_normalize_identity(normalize_newlines(src));
}

/// Braces, semicolons, colons and closing parentheses carry their own
/// character as text.
pub proof fn law_tokens_punct_texts(src: Seq<char>)
    requires
        lex(src) is Some,
    ensures
        punct_texts(lex(src)->0),
{
    lemma_lex_at_laws(normalize_newlines(src), 0, 1, false);
}

/// The text at position `i` starts with the characters `a`, `b`.
pub open spec fn starts_with_pair(cs: Seq<char>, i: int, a: char, b: char) -> bool {
    0 <= i && i + 1 < cs.len() && cs[i] == a && cs[i + 1] == b
}

/// Lexing from position `i` (when it succeeds) gives first a token of kind
/// `k` whose text is the two characters at `i`.
pub open spec fn first_token_is(cs: Seq<char>, i: int, line: int, pending: bool, k: TokenKind) -> bool {
    lex_at(cs, i, line, pending) is Some ==> (lex_at(cs, i, line, pending)->0)[0] == (SpecToken {
        kind: k,
        text: cs.subrange(i, i + 2),
        line,
        preceded_by_blank: pending,
    })
}

/// Each two-character operator is one token of its own kind wherever a
/// token starts with it: `==` is one `Eq` token, `+=` one `PlusEq`, and so on.
pub proof fn law_two_char_operators(cs: Seq<char>, i: int, line: int, pending: bool)
    ensures
        starts_with_pair(cs, i, ':', ':') ==> first_token_is(cs, i, line, pending, TokenKind::DoubleColon),
        starts_with_pair(cs, i, '=', '=') ==> first_token_is(cs, i, line, pending, TokenKind::Eq),
        starts_with_pair(cs, i, '!', '=') ==> first_token_is(cs, i, line, pending, TokenKind::NotEq),
        starts_with_pair(cs, i, '<', '=') ==> first_token_is(cs, i, line, pending, TokenKind::LtEq),
        starts_with_pair(cs, i, '>', '=') ==> first_token_is(cs, i, line, pending, TokenKind::GtEq),
        starts_with_pair(cs, i, '&', '&') ==> first_token_is(cs, i, line, pending, TokenKind::And),
        starts_with_pair(cs, i, '|', '|') ==> first_token_is(cs, i, line, pending, TokenKind::Or),
        starts_with_pair(cs, i, '+', '+') ==> first_token_is(cs, i, line, pending, TokenKind::PlusPlus),
        starts_with_pair(cs, i, '-', '-') ==> first_token_is(cs, i, line, pending, TokenKind::MinusMinus),
        starts_with_pair(cs, i, '+', '=') ==> first_token_is(cs, i, line, pending, TokenKind::PlusEq),
        starts_with_pair(cs, i, '-', '=') ==> first_token_is(cs, i, line, pending, TokenKind::MinusEq),
        starts_with_pair(cs, i, '*', '=') ==> first_token_is(cs, i, line, pending, TokenKind::StarEq),
        starts_with_pair(cs, i, '/', '=') ==> first_token_is(cs, i, line, pending, TokenKind::SlashEq),
        starts_with_pair(cs, i, '%', '=') ==> first_token_is(cs, i, line, pending, TokenKind::PercentEq),
        starts_with_pair(cs, i, '&', '=') ==> first_token_is(cs, i, line, pending, TokenKind::AmpEq),
        starts_with_pair(cs, i, '|', '=') ==> first_token_is(cs, i, line, pending, TokenKind::PipeEq),
        starts_with_pair(cs, i, '^', '=') ==> first_token_is(cs, i, line, pending, TokenKind::CaretEq),
        starts_with_pair(cs, i, '<', '<') ==> first_token_is(cs, i, line, pending, TokenKind::LShift),
        starts_with_pair(cs, i, '>', '>') ==> first_token_is(cs, i, line, pending, TokenKind::RShift),
{
    if 0 <= i && i + 1 < cs.len() {
        let ch = cs[i];
        if ch == ':' || ch == '=' || ch == '!' || ch == '<' || ch == '>' || ch == '&' || ch == '|'
            || ch == '+' || ch == '-' || ch == '*' || ch == '/' || ch == '%' || ch == '^' {
            let sc = scan(cs, i);
            if two_kind(ch, cs[i + 1]) is Some && !(ch == '/' && (cs[i + 1] == '/' || cs[i + 1] == '*'))
                && !(ch == '&' && cs[i + 1] == '"') {
                assert(sc.end == i + 2);
                assert(sc.kind == two_kind(ch, cs[i + 1])->0);
                if lex_at(cs, i, line, pending) is Some {
                    lemma_lex_at_first(cs, i, line, pending);
                }
            }
        }
    }
}

proof fn lemma_lex_at_first(cs: Seq<char>, i: int, line: int, pending: bool)
    requires
        0 <= i < cs.len(),
        cs[i] != ' ' && cs[i] != '\t' && cs[i] != '\n',
        scan(cs, i).end <= cs.len(),
        lex_at(cs, i, line, pending) is Some,
    ensures
        (lex_at(cs, i, line, pending)->0)[0] == (SpecToken {
            kind: scan(cs, i).kind,
            text: cs.subrange(i, scan(cs, i).end),
            line,
            preceded_by_blank: pending,
        }),
{
    lemma_scan_advances(cs, i);
}

} // verus!
