//! What formatting guarantees, end to end.
use vstd::prelude::*;
use crate::text::{strip_space, all_white_space};
use crate::lexspec::lex;
use crate::lexlaws::{
    concat_texts, law_tokens_keep_text, law_tokens_end_with_eof, law_tokens_punct_texts,
};
use crate::emitspec::{emit_text, stop_index, paren_balance, parens_ok};
use crate::lexer::{TokenKind, SpecToken};
use crate::emitlaws::law_emit_keeps_text;
use crate::tidy::{tidy_text_lines, join_lines, split_lines};
use crate::tidylaws::{
    law_tidy_keeps_text, law_tidy_layout, ends_without_space, has_no_newline, blank_run,
};
use crate::formatter::{format_text, formattable};

verus! {

/// Formatting changes only white space: with an indentation made of white space, the
/// formatted text holds exactly the characters of the source other than
/// white space, in the same order.
pub proof fn law_format_keeps_text(src: Seq<char>, indent: Seq<char>, max: int)
    requires
        formattable(src),
        all_white_space(indent),
        max >= 0,
    ensures
        strip_space(format_text(src, indent, max)) == strip_space(src),
{
    let ts = lex(src)->0;
    law_tokens_keep_text(src);
    law_tokens_end_with_eof(src);
    law_tokens_punct_texts(src);
    law_emit_keeps_text(ts, indent);
    law_tidy_keeps_text(emit_text(ts, indent), max);
    assert(ts.take(ts.len() - 1) =~= ts.drop_last());
    assert(concat_texts(ts) == concat_texts(ts.drop_last()) + ts.last().text);
    assert(concat_texts(ts.drop_last()) + ts.last().text =~= concat_texts(ts.drop_last()));
}

/// Formatted text ends with a line feed; no line ends in white space; no
/// more than `max` blank lines come in a row; the last line is not blank.
pub proof fn law_format_layout(src: Seq<char>, indent: Seq<char>, max: int)
    requires
        max >= 0,
    ensures
        ({
            let out = format_text(src, indent, max);
            let ls = tidy_text_lines(emit_text(lex(src)->0, indent), max);
            &&& out == join_lines(ls).push('\n')
            &&& out.len() > 0 && out.last() == '\n'
            &&& forall|k: int| 0 <= k < ls.len() ==> ends_without_space(#[trigger] ls[k])
            &&& forall|k: int| 0 <= k < ls.len() ==> has_no_newline(#[trigger] ls[k])
            &&& forall|k: int| 0 <= k < ls.len() ==> #[trigger] blank_run(ls, k) <= max
            &&& ls.len() > 0 ==> ls.last().len() > 0
            &&& ls.len() > 0 ==> split_lines(join_lines(ls)) == ls
            &&& ls.len() == 0 ==> out == seq!['\n']
        }),
{
    law_tidy_layout(emit_text(lex(src)->0, indent), max);
}

/// The indentations the command line offers, four spaces and a tab, are
/// made of white space.
pub proof fn law_cli_indents_are_white_space()
    ensures
        all_white_space("    "@),
        all_white_space("\t"@),
{
    reveal_strlit("    ");
    reveal_strlit("\t");
}


/// The number of tokens of kind `k` among the first `n`.
pub open spec fn count_kind(ts: Seq<SpecToken>, n: int, k: TokenKind) -> int
    decreases n,
{
    if n <= 0 {
        0
    } else {
        count_kind(ts, n - 1, k) + (if ts[n - 1].kind == k {
            1int
        } else {
            0int
        })
    }
}

proof fn lemma_balance_counts(ts: Seq<SpecToken>, n: int)
    requires
        n >= 0,
    ensures
        paren_balance(ts, n) == count_kind(ts, n, TokenKind::LParen) - count_kind(ts, n, TokenKind::RParen),
    decreases n,
{
    if n > 0 {
        lemma_balance_counts(ts, n - 1);
    }
}

proof fn lemma_parens_ok_prefixes(ts: Seq<SpecToken>, n: int)
    requires
        parens_ok(ts),
        0 <= n <= stop_index(ts),
    ensures
        paren_balance(ts, n) >= 0,
    decreases n,
{
    if n > 0 {
        lemma_parens_ok_prefixes(ts, n - 1);
        if ts[n - 1].kind == TokenKind::RParen {
            assert(paren_balance(ts, n - 1) > 0);
        }
    }
}

/// A source can be formatted exactly when it lexes and, before the end of
/// file, no prefix of its tokens has more `)` than `(`: balanced, nested
/// parentheses are accepted.
pub proof fn law_formattable_iff_balanced(src: Seq<char>)
    ensures
        formattable(src) <==> (lex(src) is Some && forall|n: int|
            0 <= n <= stop_index(lex(src)->0) ==> #[trigger] count_kind(lex(src)->0, n, TokenKind::RParen)
                <= count_kind(lex(src)->0, n, TokenKind::LParen)),
{
    if lex(src) is Some {
        let ts = lex(src)->0;
        if parens_ok(ts) {
            assert forall|n: int| 0 <= n <= stop_index(ts) implies #[trigger] count_kind(ts, n, TokenKind::RParen)
                <= count_kind(ts, n, TokenKind::LParen) by {
                lemma_parens_ok_prefixes(ts, n);
                lemma_balance_counts(ts, n);
            }
        }
        if forall|n: int|
            0 <= n <= stop_index(ts) ==> #[trigger] count_kind(ts, n, TokenKind::RParen) <= count_kind(
                ts,
                n,
                TokenKind::LParen,
            ) {
            assert forall|k: int|
                0 <= k < stop_index(ts) && #[trigger] ts[k].kind == TokenKind::RParen implies paren_balance(
                ts,
                k,
            ) > 0 by {
                assert(count_kind(ts, k + 1, TokenKind::RParen) <= count_kind(ts, k + 1, TokenKind::LParen));
                lemma_balance_counts(ts, k + 1);
                lemma_balance_counts(ts, k);
            }
        }
    }
}

} // verus!
