use gscfmt::diff::needs_formatting;
use gscfmt::formatter::{FormatConfig, Formatter};
use gscfmt::lexer::{tokenize, TokenKind};
use gscfmt::tidy::finalize;

fn non_layout(s: &str) -> String {
    s.chars().filter(|c| !c.is_whitespace()).collect()
}

const SAMPLE: &str = "#include a;\r\nf(x){\tif(x){y=\"a b\";}/* c\n d */\n\n\n  return x;}\n";

#[test]
fn tokens_keep_the_source_text() {
    let ts = tokenize(SAMPLE);
    let joined: String = ts.iter().map(|t| t.text.as_str()).collect();
    assert_eq!(non_layout(&joined), non_layout(SAMPLE));
}

#[test]
fn tokens_end_with_one_eof() {
    let ts = tokenize(SAMPLE);
    assert_eq!(ts.last().unwrap().kind, TokenKind::Eof);
    assert_eq!(ts.last().unwrap().text, "");
    assert!(ts[..ts.len() - 1].iter().all(|t| t.kind != TokenKind::Eof));
}

#[test]
fn token_lines_never_go_down() {
    let ts = tokenize(SAMPLE);
    assert!(ts[0].line >= 1);
    assert!(ts.windows(2).all(|w| w[0].line <= w[1].line));
    assert_eq!(ts.last().unwrap().line, 7);
}

#[test]
fn punctuation_tokens_carry_their_character() {
    let ts = tokenize(SAMPLE);
    for t in &ts {
        match t.kind {
            TokenKind::LBrace => assert_eq!(t.text, "{"),
            TokenKind::RBrace => assert_eq!(t.text, "}"),
            TokenKind::Semicolon => assert_eq!(t.text, ";"),
            TokenKind::Colon => assert_eq!(t.text, ":"),
            TokenKind::RParen => assert_eq!(t.text, ")"),
            _ => {}
        }
    }
}

#[test]
fn formatting_changes_only_layout() {
    for indent in ["    ", "\t", "  "] {
        let f = Formatter::new(FormatConfig { indent: indent.to_string(), max_blank_lines: 1 });
        let out = f.format(SAMPLE);
        assert_eq!(non_layout(&out), non_layout(SAMPLE));
    }
}

#[test]
fn formatted_layout_is_tidy() {
    for max in [0usize, 1, 2] {
        let f = Formatter::new(FormatConfig { indent: "    ".to_string(), max_blank_lines: max });
        let out = f.format(SAMPLE);
        assert!(out.ends_with('\n'));
        let lines: Vec<&str> = out[..out.len() - 1].split('\n').collect();
        assert!(lines.iter().all(|l| l.trim_end() == *l));
        assert!(!lines.last().unwrap().is_empty());
        let mut run = 0;
        for l in &lines {
            run = if l.is_empty() { run + 1 } else { 0 };
            assert!(run <= max);
        }
    }
}

#[test]
fn tidying_keeps_text_and_is_idempotent() {
    let s = "  a \t\n\n\n\n b\u{3000}\n\n\t\n".to_string();
    for max in [0usize, 1, 3] {
        let once = finalize(s.clone(), max);
        assert_eq!(non_layout(&once), non_layout(&s));
        assert_eq!(finalize(once.clone(), max), once);
    }
    assert_eq!(finalize("\n\n".to_string(), 2), "\n");
    assert_eq!(finalize(finalize("\n\n".to_string(), 2), 2), "\n");
}

#[test]
fn carriage_returns_lex_like_line_feeds() {
    let a = tokenize("a\r\n\r\nb\rc /* x\r\ny */ d");
    let b = tokenize("a\n\nb\nc /* x\ny */ d");
    assert_eq!(a.len(), b.len());
    for (x, y) in a.iter().zip(b.iter()) {
        assert_eq!(x.kind, y.kind);
        assert_eq!(x.text, y.text);
        assert_eq!(x.line, y.line);
        assert_eq!(x.preceded_by_blank, y.preceded_by_blank);
    }
}

#[test]
fn directive_kind_follows_its_text() {
    let ts = tokenize("#include x #define #animtree #using_animtree #if a#b");
    for t in &ts {
        assert_eq!(t.kind.is_preprocessor(), t.text.starts_with('#'));
    }
    assert_eq!(ts[0].kind, TokenKind::HashInclude);
    assert_eq!(ts[2].kind, TokenKind::HashDefine);
    assert_eq!(ts[3].kind, TokenKind::HashAnimtree);
    assert_eq!(ts[4].kind, TokenKind::HashUsingAnimtree);
    assert_eq!(ts[5].kind, TokenKind::HashOther);
    assert_eq!(ts[7].text, "#b");
}

#[test]
fn needs_formatting_ignores_crlf_only() {
    assert!(!needs_formatting("a();\r\n", "a();\n"));
    assert!(needs_formatting("a();\r", "a();\n"));
    assert!(needs_formatting("a( );\n", "a();\n"));
    assert!(!needs_formatting("", ""));
}
