use gscfmt::diff::unified_diff;
use gscfmt::formatter::{needs_space, FormatConfig, Formatter};
use gscfmt::lexer::tokenize;
use gscfmt::tidy::finalize;

fn fmt(src: &str) -> String {
    Formatter::new(FormatConfig::default()).format(src)
}

fn non_layout(s: &str) -> String {
    s.chars().filter(|c| !c.is_whitespace()).collect()
}

#[test]
fn default_config() {
    let c = FormatConfig::default();
    assert_eq!(c.indent, "    ");
    assert_eq!(c.max_blank_lines, 1);
}

#[test]
fn formats_function_body() {
    assert_eq!(fmt("foo(){a=1;}"), "foo()\n{\n    a = 1;\n}\n");
}

#[test]
fn formats_braceless_if() {
    assert_eq!(fmt("if(x)y();"), "if ( x )\n    y();\n");
}

#[test]
fn keeps_one_author_blank_line() {
    assert_eq!(fmt("a();\n\n\nb();"), "a();\n\nb();\n");
}

#[test]
fn separates_top_level_functions() {
    assert_eq!(fmt("f(){}\ng(){}"), "f()\n{\n}\n\ng()\n{\n}\n");
}

#[test]
fn indents_switch_cases() {
    assert_eq!(
        fmt("switch(x){case 1:a();break;default:b();}"),
        "switch ( x )\n{\n    case 1:\n        a();\n        break;\n    default:\n        b();\n}\n"
    );
}

#[test]
fn puts_else_on_its_own_line() {
    assert_eq!(
        fmt("if(a){b();}else{c();}"),
        "if ( a )\n{\n    b();\n}\nelse\n{\n    c();\n}\n"
    );
}

#[test]
fn keeps_else_if_together() {
    assert_eq!(
        fmt("if(a)x();else if(b)y();"),
        "if ( a )\n    x();\nelse if ( b )\n    y();\n"
    );
}

#[test]
fn comments_after_statements() {
    assert_eq!(fmt("a(); // c\n// d\nb();"), "a();\n// c\n// d\nb();\n");
    assert_eq!(fmt("a( // c\n);"), "a(  // c\n);\n");
}

#[test]
fn unary_minus_binds() {
    assert_eq!(fmt("x=-1;"), "x = -1;\n");
}

#[test]
fn member_access_and_indexing() {
    assert_eq!(fmt("a.b[0]=c::d;"), "a.b[0] = c::d;\n");
}

#[test]
fn preprocessor_include() {
    assert_eq!(
        fmt("#include maps\\mp\\_utility;\nf(){}"),
        "#include maps\\mp\\_utility;\nf()\n{\n}\n"
    );
}

#[test]
fn empty_source_gives_one_line_feed() {
    assert_eq!(fmt(""), "\n");
    assert_eq!(fmt("  \n\n  "), "\n");
}

#[test]
fn tabs_and_blank_limit() {
    let f = Formatter::new(FormatConfig { indent: "\t".to_string(), max_blank_lines: 2 });
    assert_eq!(f.format("f(){a();\n\n\n\nb();}"), "f()\n{\n\ta();\n\n\n\tb();\n}\n");
}

#[test]
fn try_format_refuses_what_format_cannot_handle() {
    let f = Formatter::new(FormatConfig::default());
    assert!(f.try_format(")").is_none());
    assert!(f.try_format("(a));").is_none());
    assert!(f.try_format("/* open").is_none());
    assert!(f.try_format("x = \"a\\").is_none());
    assert_eq!(f.try_format("a();").as_deref(), Some("a();\n"));
}

#[test]
fn formatting_keeps_non_layout_text() {
    let src = "#include a;\nf(x,y){if(x>y)return x;else{z=-y;// note\n}}\n/* block\n comment */";
    let out = fmt(src);
    assert_eq!(non_layout(&out), non_layout(src));
}

#[test]
fn formatted_lines_have_no_trailing_space() {
    let out = fmt("f(){a(); // c   \n\n\n\n   b();   }   \n\n\n");
    assert!(out.ends_with('\n'));
    assert!(!out.ends_with("\n\n"));
    for line in out.split('\n') {
        assert_eq!(line, line.trim_end());
    }
    assert!(!out.contains("\n\n\n"));
}

#[test]
fn finalize_tidies_lines() {
    assert_eq!(finalize("a  \n\n\n\nb\n\n".to_string(), 1), "a\n\nb\n");
    assert_eq!(finalize(String::new(), 1), "\n");
    assert_eq!(finalize("a\n\n\nb".to_string(), 0), "a\nb\n");
    assert_eq!(finalize("\n\na\t \u{a0}".to_string(), 5), "\n\na\n");
}

#[test]
fn needs_space_rules() {
    let ts = tokenize("return -1 , a.b");
    assert!(needs_space(None, &ts[0], &ts[1]));
    assert!(!needs_space(Some(&ts[0]), &ts[1], &ts[2]));
    assert!(!needs_space(Some(&ts[1]), &ts[2], &ts[3]));
    assert!(needs_space(Some(&ts[2]), &ts[3], &ts[4]));
    assert!(!needs_space(Some(&ts[3]), &ts[4], &ts[5]));
    assert!(!needs_space(Some(&ts[4]), &ts[5], &ts[6]));
}

#[test]
fn diff_of_changed_text() {
    assert_eq!(
        unified_diff("a\nb\n", "a\n", "f"),
        "--- f (original)\n+++ f (formatted)\n@@ -1,2 +1,1 @@\n-a\n-b\n+a\n"
    );
}

#[test]
fn diff_of_equal_text_is_empty() {
    assert_eq!(unified_diff("same\n", "same\n", "f"), "");
}

#[test]
fn diff_drops_carriage_returns() {
    assert_eq!(
        unified_diff("x\r\ny", "x\ny\n", "l"),
        "--- l (original)\n+++ l (formatted)\n@@ -1,2 +1,2 @@\n-x\n-y\n+x\n+y\n"
    );
}

#[test]
fn diff_counts_many_lines() {
    let original: String = (0..12).map(|k| format!("l{k}\n")).collect();
    let d = unified_diff(&original, "", "big");
    assert!(d.starts_with("--- big (original)\n+++ big (formatted)\n@@ -1,12 +1,0 @@\n-l0\n"));
    assert!(d.ends_with("-l11\n"));
}

#[test]
fn reformatting_common_code_is_stable() {
    for src in [
        "foo(){a=1;}",
        "switch(x){case 1:a();break;default:b();}",
        "if(a)x();else if(b)y();",
        "for(i=0;i<n;i++){wait 0.05;}",
        "foreach(p in level.players)p thread g();",
    ] {
        let once = fmt(src);
        assert_eq!(fmt(&once), once);
    }
}

#[test]
fn reformatting_can_change_a_dot_before_a_number() {
    assert_eq!(fmt("a. 5;"), "a.5;\n");
    assert_eq!(fmt("a.5;\n"), "a .5;\n");
}

#[test]
fn keeps_up_to_max_blank_lines_from_the_source() {
    let two = Formatter::new(FormatConfig { indent: "    ".to_string(), max_blank_lines: 2 });
    assert_eq!(two.format("a;\n\n\nb;"), "a;\n\n\nb;\n");
    assert_eq!(two.format("a;\n\n\n\n\nb;"), "a;\n\n\nb;\n");
    assert_eq!(fmt("a;\n\n\n\nb;"), "a;\n\nb;\n");
    let three = Formatter::new(FormatConfig { indent: "    ".to_string(), max_blank_lines: 3 });
    assert_eq!(three.format("/* x\ny */\n\n\nb();"), "/* x\ny */\n\n\nb();\n");
    assert_eq!(three.format("f(){}\ng(){}"), "f()\n{\n}\n\ng()\n{\n}\n");
}
