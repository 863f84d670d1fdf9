use gscfmt::lexer::{is_control_kw, is_keyword, is_space_after_kw, tokenize, try_tokenize, Token, TokenKind};

fn kinds(ts: &[Token]) -> Vec<TokenKind> {
    ts.iter().map(|t| t.kind.clone()).collect()
}

fn texts(ts: &[Token]) -> Vec<String> {
    ts.iter().map(|t| t.text.clone()).collect()
}

#[test]
fn tokenize_simple_statement() {
    let ts = tokenize("a = 1;");
    assert_eq!(
        kinds(&ts),
        vec![TokenKind::Ident, TokenKind::Assign, TokenKind::Number, TokenKind::Semicolon, TokenKind::Eof]
    );
    assert_eq!(texts(&ts), vec!["a", "=", "1", ";", ""]);
    assert!(ts.iter().all(|t| t.line == 1));
}

#[test]
fn tokenize_tracks_lines_and_blank_lines() {
    let ts = tokenize("a\r\n\r\nb\rc");
    assert_eq!(texts(&ts), vec!["a", "b", "c", ""]);
    assert_eq!(ts.iter().map(|t| t.line).collect::<Vec<_>>(), vec![1, 3, 4, 4]);
    assert_eq!(
        ts.iter().map(|t| t.preceded_by_blank).collect::<Vec<_>>(),
        vec![false, true, false, false]
    );
}

#[test]
fn tokenize_block_comment_counts_lines() {
    let ts = tokenize("/* a\nb */ x");
    assert_eq!(kinds(&ts), vec![TokenKind::BlockComment, TokenKind::Ident, TokenKind::Eof]);
    assert_eq!(ts[0].text, "/* a\nb */");
    assert_eq!(ts[1].line, 2);
}

#[test]
fn tokenize_literals_and_refs() {
    let ts = tokenize("\"a\\\"b\" &\"loc\" %anim 0x1F_a 1.5e3 .5 a::b $");
    assert_eq!(
        kinds(&ts),
        vec![
            TokenKind::StringLit,
            TokenKind::IString,
            TokenKind::AnimRef,
            TokenKind::Number,
            TokenKind::Number,
            TokenKind::Number,
            TokenKind::Ident,
            TokenKind::DoubleColon,
            TokenKind::Ident,
            TokenKind::Ident,
            TokenKind::Eof,
        ]
    );
    assert_eq!(
        texts(&ts),
        vec!["\"a\\\"b\"", "&\"loc\"", "%anim", "0x1F_a", "1.5e3", ".5", "a", "::", "b", "$", ""]
    );
}

#[test]
fn tokenize_preprocessor_directives() {
    let ts = tokenize("#include a; #using_animtree #animtree #define #pragma");
    assert_eq!(
        kinds(&ts),
        vec![
            TokenKind::HashInclude,
            TokenKind::Ident,
            TokenKind::Semicolon,
            TokenKind::HashUsingAnimtree,
            TokenKind::HashAnimtree,
            TokenKind::HashDefine,
            TokenKind::HashOther,
            TokenKind::Eof,
        ]
    );
}

#[test]
fn tokenize_operators() {
    let ts = tokenize("a += b << 2 != c && !d || e-- % f @ g \\");
    assert_eq!(
        kinds(&ts),
        vec![
            TokenKind::Ident,
            TokenKind::PlusEq,
            TokenKind::Ident,
            TokenKind::LShift,
            TokenKind::Number,
            TokenKind::NotEq,
            TokenKind::Ident,
            TokenKind::And,
            TokenKind::Bang,
            TokenKind::Ident,
            TokenKind::Or,
            TokenKind::Ident,
            TokenKind::MinusMinus,
            TokenKind::Percent,
            TokenKind::Ident,
            TokenKind::At,
            TokenKind::Ident,
            TokenKind::At,
            TokenKind::Eof,
        ]
    );
}

#[test]
fn tokenize_line_comment() {
    let ts = tokenize("x // note  \ny");
    assert_eq!(kinds(&ts), vec![TokenKind::Ident, TokenKind::LineComment, TokenKind::Ident, TokenKind::Eof]);
    assert_eq!(ts[1].text, "// note  ");
    assert_eq!(ts[2].line, 2);
}

#[test]
fn tokenize_empty_source() {
    let ts = tokenize("");
    assert_eq!(kinds(&ts), vec![TokenKind::Eof]);
    assert_eq!(ts[0].line, 1);
}

#[test]
fn try_tokenize_rejects_runaway_text() {
    assert!(try_tokenize("/* open").is_none());
    assert!(try_tokenize("a \"abc\\").is_none());
    assert!(try_tokenize("\"open string").is_some());
    assert!(try_tokenize("/* closed */").is_some());
}

#[test]
fn keyword_tables() {
    assert!(is_keyword("waittill"));
    assert!(is_keyword("breakpoint"));
    assert!(!is_keyword("foo"));
    assert!(is_control_kw("foreach"));
    assert!(!is_control_kw("else"));
    assert!(is_space_after_kw("return"));
    assert!(!is_space_after_kw("if"));
}

#[test]
fn token_kind_predicates() {
    assert!(TokenKind::PlusEq.is_binary_op());
    assert!(TokenKind::Question.is_binary_op());
    assert!(!TokenKind::Bang.is_binary_op());
    assert!(TokenKind::HashDefine.is_preprocessor());
    assert!(!TokenKind::Ident.is_preprocessor());
    assert!(TokenKind::Tilde.is_unary_prefix_only());
    assert!(!TokenKind::Minus.is_unary_prefix_only());
}

#[test]
fn token_is_ident() {
    let ts = tokenize("else \"else\"");
    assert!(ts[0].is_ident("else"));
    assert!(!ts[0].is_ident("if"));
    assert!(!ts[1].is_ident("else"));
}

#[test]
fn tokenize_unicode_identifiers() {
    let ts = tokenize("日本 a٣ ٣\u{3000}x");
    assert_eq!(texts(&ts), vec!["日本", "a٣", "٣", "\u{3000}", "x", ""]);
    assert!(ts[..5].iter().all(|t| t.kind == TokenKind::Ident));
}
