use glossary_compiler::chars::{Char, Display, span_eq};
use glossary_compiler::document::{CompileError, Document};
use glossary_compiler::parser::{Expr, ParseError, Source};
use glossary_compiler::render::RenderError;
use glossary_compiler::text::{Text, Token};

fn chars_of(s: &str) -> Vec<Char> {
    s.chars()
        .enumerate()
        .map(|(i, c)| Char { value: c, file: 1, line: 1, pos: i + 1 })
        .collect()
}

fn string_of(v: &[char]) -> String {
    v.iter().collect()
}

fn parse(s: &str) -> Result<Vec<Expr>, ParseError> {
    let mut src = Source::from(&chars_of(s));
    src.parse()
}

fn compile(s: &str) -> Result<Document, CompileError> {
    let exprs = parse(s).expect("parse failed");
    Document::from_source(&exprs)
}

fn render(s: &str, date: &str) -> Result<(String, Vec<String>), RenderError> {
    let doc = compile(s).expect("compile failed");
    let (out, warns) = doc.print_dated(date)?;
    Ok((string_of(&out), warns.iter().map(|w| string_of(w)).collect()))
}

fn text_literal(t: &Text) -> String {
    let mut out = String::new();
    for tok in &t.text {
        match tok {
            Token::Char(c) => out.push(c.value),
            Token::EscapedChar(c) => {
                out.push('\\');
                out.push(c.value);
            }
            Token::Block(inner) => {
                out.push('{');
                out.push_str(&text_literal(inner));
                out.push('}');
            }
            Token::Link(inner) => {
                out.push('[');
                out.push_str(&text_literal(inner));
                out.push(']');
            }
            Token::Paren(inner) => {
                out.push('(');
                out.push_str(&text_literal(inner));
                out.push(')');
            }
        }
    }
    out
}

fn span_string(sp: &[Char]) -> String {
    string_of(&Display::from(sp).chars())
}

#[test]
fn identity_then_name_parses() {
    let exprs = parse("glucose [Glucose]").expect("parse failed");
    assert_eq!(exprs.len(), 2);
    match &exprs[0] {
        Expr::Identity(sp) => assert_eq!(span_string(sp), "glucose"),
        _ => panic!("expected identity"),
    }
    match &exprs[1] {
        Expr::Name(t) => assert_eq!(text_literal(t), "Glucose"),
        _ => panic!("expected name"),
    }
}

#[test]
fn identity_run_includes_hyphen_and_comma() {
    let exprs = parse("a-b,c").expect("parse failed");
    assert_eq!(exprs.len(), 1);
    match &exprs[0] {
        Expr::Identity(sp) => assert_eq!(span_string(sp), "a-b,c"),
        _ => panic!("expected identity"),
    }
}

#[test]
fn whitespace_separates_identities() {
    let exprs = parse("one two").expect("parse failed");
    assert_eq!(exprs.len(), 2);
    match (&exprs[0], &exprs[1]) {
        (Expr::Identity(a), Expr::Identity(b)) => {
            assert_eq!(span_string(a), "one");
            assert_eq!(span_string(b), "two");
        }
        _ => panic!("expected two identities"),
    }
}

#[test]
fn unicode_identity_is_alphanumeric() {
    let exprs = parse("グルコース").expect("parse failed");
    assert_eq!(exprs.len(), 1);
    match &exprs[0] {
        Expr::Identity(sp) => assert_eq!(span_string(sp), "グルコース"),
        _ => panic!("expected identity"),
    }
}

#[test]
fn header_and_desc_parse() {
    let exprs = parse("\\p{intro} id +grp{ body }").expect("parse failed");
    assert_eq!(exprs.len(), 3);
    match &exprs[0] {
        Expr::Head(tag, t) => {
            assert_eq!(span_string(tag), "p");
            assert_eq!(text_literal(t), "intro");
        }
        _ => panic!("expected header"),
    }
    match &exprs[2] {
        Expr::Desc(group, t) => {
            assert_eq!(span_string(group), "grp");
            assert_eq!(text_literal(t), " body ");
        }
        _ => panic!("expected description"),
    }
}

#[test]
fn nested_blocks_reconstruct_literally() {
    // The bracket-interior content comes back exactly from the tree.
    let body = "a{b(c)}d\\]e [link] ";
    let source = format!("+g{{{}}}", body);
    let exprs = parse(&source).expect("parse failed");
    panic_unless_lone_desc(&exprs, body);
}

fn panic_unless_lone_desc(exprs: &[Expr], body: &str) {
    assert_eq!(exprs.len(), 1);
    match &exprs[0] {
        Expr::Desc(_, t) => assert_eq!(text_literal(t), body),
        _ => panic!("expected description"),
    }
}

#[test]
fn consecutive_chars_stay_separate_tokens() {
    let exprs = parse("+g{ab}").expect("parse failed");
    match &exprs[0] {
        Expr::Desc(_, t) => {
            assert_eq!(t.text.len(), 2);
            assert!(matches!(t.text[0], Token::Char(c) if c.value == 'a'));
            assert!(matches!(t.text[1], Token::Char(c) if c.value == 'b'));
        }
        _ => panic!("expected description"),
    }
}

#[test]
fn escape_takes_next_char_literally() {
    let exprs = parse("+g{\\}}").expect("parse failed");
    match &exprs[0] {
        Expr::Desc(_, t) => {
            assert_eq!(t.text.len(), 1);
            assert!(matches!(t.text[0], Token::EscapedChar(c) if c.value == '}'));
        }
        _ => panic!("expected description"),
    }
}

#[test]
fn mismatched_brackets_cite_both_positions() {
    // `id [Name}` must fail citing the `[` and the `}`.
    let err = parse("id [Name}").expect_err("parse should fail");
    match err {
        ParseError::BracketsDoNotMatch(open, close) => {
            assert_eq!(open.value, '[');
            assert_eq!(open.pos, 4);
            assert_eq!(close.value, '}');
            assert_eq!(close.pos, 9);
        }
        _ => panic!("expected a bracket mismatch"),
    }
}

#[test]
fn missing_closer_is_reported_at_the_opening() {
    let err = parse("id [Name").expect_err("parse should fail");
    match err {
        ParseError::NoClosingBracket(open) => {
            assert_eq!(open.value, '[');
            assert_eq!(open.pos, 4);
        }
        _ => panic!("expected a missing closing bracket"),
    }
}

#[test]
fn unexpected_character_is_rejected() {
    let err = parse("id }").expect_err("parse should fail");
    match err {
        ParseError::UnexpectedCharacter(c) => {
            assert_eq!(c.value, '}');
            assert_eq!(c.pos, 4);
        }
        _ => panic!("expected an unexpected-character error"),
    }
}

#[test]
fn open_prefix_at_end_of_input_fails() {
    let err = parse("id +grp").expect_err("parse should fail");
    assert!(matches!(err, ParseError::UnexpectedEndOfFile));
}

#[test]
fn same_identity_interns_to_same_item() {
    // Re-declaring an identity later resolves to the same item.
    let doc = compile("id [Name] other id +g{ body }").expect("compile failed");
    assert_eq!(doc.items.len(), 2);
    assert_eq!(span_string(&doc.items[0].identity), "id");
    assert_eq!(doc.items[0].descs.len(), 1, "the description belongs to the first item");
    assert_eq!(doc.items[1].descs.len(), 0);
}

#[test]
fn same_name_twice_succeeds() {
    let doc = compile("id [Name] [Name]").expect("compile failed");
    assert_eq!(doc.items.len(), 1);
    assert_eq!(doc.names.len(), 1);
}

#[test]
fn different_second_name_is_a_duplicate() {
    let err = compile("id [Name] [Other]").expect_err("compile should fail");
    assert_eq!(err, CompileError::DuplicateName);
}

#[test]
fn name_before_identity_fails() {
    let err = compile("[Name]").expect_err("compile should fail");
    assert_eq!(err, CompileError::NoIdentityBeforeName);
}

#[test]
fn desc_before_identity_fails() {
    // A leading description with no prior identity is rejected.
    let err = compile("+group{text}").expect_err("compile should fail");
    assert_eq!(err, CompileError::NoIdentityBeforeDesc);
}

#[test]
fn groups_intern_in_first_seen_order() {
    let doc = compile("a +x{1} +y{2} b +x{3}").expect("compile failed");
    assert_eq!(doc.groups.len(), 2);
    assert_eq!(span_string(&doc.groups[0]), "x");
    assert_eq!(span_string(&doc.groups[1]), "y");
    assert_eq!(doc.items[0].groups, vec![0, 1]);
    assert_eq!(doc.items[1].groups, vec![0]);
}

#[test]
fn empty_group_is_not_interned() {
    let doc = compile("a +{only text}").expect("compile failed");
    assert_eq!(doc.groups.len(), 0);
    assert_eq!(doc.items[0].groups.len(), 0);
    assert_eq!(doc.items[0].descs.len(), 1);
}

#[test]
fn texts_match_structurally_across_positions() {
    let a = parse("x [Name]").expect("parse failed");
    let b = parse("   y    [Name]").expect("parse failed");
    match (&a[1], &b[1]) {
        (Expr::Name(ta), Expr::Name(tb)) => assert!(ta.matches(tb)),
        _ => panic!("expected names"),
    }
    let c = parse("z [Other]").expect("parse failed");
    match (&a[1], &c[1]) {
        (Expr::Name(ta), Expr::Name(tc)) => assert!(!ta.matches(tc)),
        _ => panic!("expected names"),
    }
}

#[test]
fn span_eq_ignores_positions() {
    let a = chars_of("abc");
    let mut b = chars_of("abc");
    for c in &mut b {
        c.line = 7;
        c.pos += 100;
    }
    assert!(span_eq(&a, &b));
    let c = chars_of("abd");
    assert!(!span_eq(&a, &c));
}

#[test]
fn resolved_link_renders_as_anchor() {
    let (html, warns) = render("id [Name] +g{see [Name]}", "2024/01/01").expect("render failed");
    assert!(html.contains("<a href=\"#id\">Name</a>"));
    assert_eq!(warns.len(), 0);
}

#[test]
fn unresolved_link_renders_no_link_span_with_one_warning() {
    let (html, warns) = render("id [Name] +g{see [Missing]}", "2024/01/01").expect("render failed");
    assert!(html.contains("<span class=\"no_link\">Missing</span>"));
    assert_eq!(warns.len(), 1, "exactly one diagnostic line");
    assert_eq!(warns[0], "Warning: 'Missing' not found");
}

#[test]
fn sup_decorates_exactly_next_token() {
    let (html, _) = render("id [Name] +g{Na^+aq}", "2024/01/01").expect("render failed");
    assert!(html.contains("Na<sup>+</sup>aq"));
}

#[test]
fn sub_decorates_following_block() {
    let (html, _) = render("id [Name] +g{C_{6 a}x}", "2024/01/01").expect("render failed");
    assert!(html.contains("C<sub>6 a</sub>x"));
}

#[test]
fn trailing_marker_fails_with_its_position() {
    let doc = compile("id [Name] +g{bad^}").expect("compile failed");
    let err = doc.print_dated("2024/01/01").expect_err("render should fail");
    match err {
        RenderError::NoDecorationTarget(c) => {
            assert_eq!(c.value, '^');
            assert_eq!(c.pos, 17);
        }
        _ => panic!("expected a decoration-target error"),
    }
}

#[test]
fn item_without_name_fails_to_render() {
    let doc = compile("id +g{text}").expect("compile failed");
    let err = doc.print_dated("2024/01/01").expect_err("render should fail");
    assert!(matches!(err, RenderError::NoName));
}

#[test]
fn escaped_marker_renders_literally() {
    let (html, _) = render("id [Name] +g{a\\^b}", "2024/01/01").expect("render failed");
    assert!(html.contains("a^b"));
    assert!(!html.contains("<sup>"));
}

#[test]
fn paren_renders_with_parens_block_without_braces() {
    let (html, _) = render("id [Name] +g{a(b){c}}", "2024/01/01").expect("render failed");
    assert!(html.contains("a(b)c"));
}

#[test]
fn round_trip_scenario() {
    // `id [Name] +group{ text with [Name] ref }` compiles to one item
    // with a self-referencing link in its one description.
    let doc = compile("id [Name] +group{ text with [Name] ref }").expect("compile failed");
    assert_eq!(doc.items.len(), 1);
    assert_eq!(span_string(&doc.items[0].identity), "id");
    assert_eq!(text_literal(doc.items[0].name.as_ref().expect("name missing")), "Name");
    assert_eq!(doc.groups.len(), 1);
    assert_eq!(span_string(&doc.groups[0]), "group");
    assert_eq!(doc.items[0].descs.len(), 1);
    let (out, warns) = doc.print_dated("2024/06/30").expect("render failed");
    let html = string_of(&out);
    assert_eq!(warns.len(), 0);
    assert!(html.contains("<p class=\"name\" id=\"id\">Name</p>"));
    assert!(html.contains(" text with <a href=\"#id\">Name</a> ref "));
}

#[test]
fn whole_document_output_is_exact() {
    let html = render("\\h2{About} id [N] +g{d}", "2024/12/31").expect("render failed").0;
    let expected = "<!DOCTYPE html><html><head><meta charset=\"utf-8\"><title>化合物から見る代謝経路</title><link rel=\"stylesheet\" type=\"text/css\" href=\"style.css\"></head><body><header><h1>化合物から見る代謝経路</h1><p>最終更新日：2024/12/31</p></header><h2>About</h2><div class=\"item\"><div class=\"head\"><p class=\"name\" id=\"id\">N</p><p class=\"group\">g</p></div><div class=\"descs\"><p class=\"desc\">d</p></div></div></body>";
    assert_eq!(html, expected);
}

#[test]
fn group_paragraph_joins_with_separator() {
    let html = render("a [A] +x{1} +y{2}", "2024/01/01").expect("render failed").0;
    assert!(html.contains("<p class=\"group\">x・y</p>"));
}

#[test]
fn print_uses_todays_date() {
    let doc = compile("id [Name]").expect("compile failed");
    let (out, warns) = doc.print().expect("render failed");
    let html = string_of(&out);
    assert!(html.starts_with("<!DOCTYPE html>"));
    assert!(html.contains("<p>最終更新日："));
    assert!(html.contains("<p class=\"name\" id=\"id\">Name</p>"));
    assert_eq!(warns.len(), 0);
}

#[test]
fn later_name_declaration_shadows_earlier() {
    // Two items declaring the same name: the index keeps the later one.
    let (html, warns) = render("a [X] b [X] +g{see [X]}", "2024/01/01").expect("render failed");
    assert!(html.contains("<a href=\"#b\">X</a>"));
    assert_eq!(warns.len(), 0);
}

#[test]
fn tabs_and_newlines_separate_identities() {
    let exprs = parse("one\ntwo\tthree").expect("parse failed");
    assert_eq!(exprs.len(), 3);
    assert!(matches!(&exprs[2], Expr::Identity(sp) if span_string(sp) == "three"));
}

#[test]
fn parse_block_consumes_through_its_delimiter() {
    let mut src = Source::from(&chars_of("ab]c"));
    let start = Char { value: '[', file: 1, line: 1, pos: 0 };
    let text = src.parse_block(start, ']').expect("parse_block failed");
    assert_eq!(text_literal(&text), "ab");
    assert_eq!(src.index, 3, "the cursor stops just past the closing bracket");
}

#[test]
fn nested_mismatch_cites_inner_opener() {
    let err = parse("+g{(]}").expect_err("parse should fail");
    match err {
        ParseError::BracketsDoNotMatch(open, close) => {
            assert_eq!(open.value, '(');
            assert_eq!(open.pos, 4);
            assert_eq!(close.value, ']');
            assert_eq!(close.pos, 5);
        }
        _ => panic!("expected a bracket mismatch"),
    }
}

#[test]
fn unclosed_nested_block_cites_inner_opener() {
    let err = parse("+g{(a").expect_err("parse should fail");
    match err {
        ParseError::NoClosingBracket(open) => {
            assert_eq!(open.value, '(');
            assert_eq!(open.pos, 4);
        }
        _ => panic!("expected a missing closing bracket"),
    }
}

#[test]
fn escape_at_end_of_input_leaves_block_open() {
    let err = parse("+g{\\").expect_err("parse should fail");
    match err {
        ParseError::NoClosingBracket(open) => {
            assert_eq!(open.value, '{');
            assert_eq!(open.pos, 3);
        }
        _ => panic!("expected a missing closing bracket"),
    }
}

#[test]
fn display_exposes_span_values() {
    let sp = chars_of("water");
    assert_eq!(span_string(&sp), "water");
}
