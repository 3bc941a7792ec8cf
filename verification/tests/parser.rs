//! Tokenizer behaviour: text runs, tag classification, comments,
//! declarations, instructions, and positioned errors.

use svg::events::Event;
use svg::node::element::tag::Tag;
use svg::node::element::tag::Type;
use svg::Parser;

fn first_event(content: &str) -> Event {
    let mut parser = Parser::new(content);
    parser.next().unwrap().unwrap()
}

#[test]
fn next_tag() {
    match first_event("<foo>") {
        Event::Tag(value, _, _) => assert_eq!(value, "foo"),
        _ => unreachable!(),
    }
    match first_event("<foo/>") {
        Event::Tag(value, _, _) => assert_eq!(value, "foo"),
        _ => unreachable!(),
    }
    match first_event("  <foo/>") {
        Event::Tag(value, _, _) => assert_eq!(value, "foo"),
        _ => unreachable!(),
    }
}

#[test]
fn next_text() {
    match first_event("foo <bar>") {
        Event::Text(value) => assert_eq!(value, "foo"),
        _ => unreachable!(),
    }
    match first_event("  foo<bar>") {
        Event::Text(value) => assert_eq!(value, "foo"),
        _ => unreachable!(),
    }
    match first_event("foo> <bar>") {
        Event::Text(value) => assert_eq!(value, "foo>"),
        _ => unreachable!(),
    }
}

#[test]
fn mod_next_tag() {
    match first_event("<foo>") {
        Event::Tag(value, _, _) => assert_eq!(value, "foo"),
        _ => unreachable!(),
    }
    match first_event("<foo/>") {
        Event::Tag(value, _, _) => assert_eq!(value, "foo"),
        _ => unreachable!(),
    }
    match first_event("  <foo/>") {
        Event::Tag(value, _, _) => assert_eq!(value, "foo"),
        _ => unreachable!(),
    }
}

#[test]
fn mod_next_text() {
    match first_event("foo <bar>") {
        Event::Text(value) => assert_eq!(value, "foo"),
        _ => unreachable!(),
    }
    match first_event("  foo<bar>") {
        Event::Text(value) => assert_eq!(value, "foo"),
        _ => unreachable!(),
    }
    match first_event("foo> <bar>") {
        Event::Text(value) => assert_eq!(value, "foo>"),
        _ => unreachable!(),
    }
}

#[test]
fn tag_classification() {
    match first_event("<foo>") {
        Event::Tag(name, kind, _) => {
            assert_eq!(name, "foo");
            assert!(matches!(kind, Type::Start));
        },
        _ => unreachable!(),
    }
    match first_event("<foo/>") {
        Event::Tag(name, kind, _) => {
            assert_eq!(name, "foo");
            assert!(matches!(kind, Type::Empty));
        },
        _ => unreachable!(),
    }
    match first_event("</foo>") {
        Event::Tag(name, kind, _) => {
            assert_eq!(name, "foo");
            assert!(matches!(kind, Type::End));
        },
        _ => unreachable!(),
    }
    // leading whitespace yields no text event before the tag
    let mut parser = Parser::new("  <foo/>");
    assert!(matches!(parser.next().unwrap().unwrap(), Event::Tag(_, _, _)));
    assert!(parser.next().is_none());
}

#[test]
fn comment_padding() {
    match first_event("<!-- valid -->") {
        Event::Comment(content) => assert_eq!(content, "valid"),
        _ => unreachable!(),
    }
    match first_event("<!--invalid-->") {
        Event::UnpaddedComment(content) => assert_eq!(content, "invalid"),
        _ => unreachable!(),
    }
    // a single space is stripped from each side, nothing more
    match first_event("<!--  wide  -->") {
        Event::Comment(content) => assert_eq!(content, " wide "),
        _ => unreachable!(),
    }
}

#[test]
fn comment_stops_at_first_close() {
    // the comment ends at the first `-->`; the remainder is a text run
    let mut parser = Parser::new("<!--invalid -->-->");
    match parser.next().unwrap().unwrap() {
        Event::UnpaddedComment(content) => assert_eq!(content, "invalid "),
        _ => unreachable!(),
    }
    match parser.next().unwrap().unwrap() {
        Event::Text(content) => assert_eq!(content, "-->"),
        _ => unreachable!(),
    }
    assert!(parser.next().is_none());
}

#[test]
fn declaration_and_instruction() {
    match first_event("<!DOCTYPE svg>") {
        Event::Declaration(content) => assert_eq!(content, "DOCTYPE svg"),
        _ => unreachable!(),
    }
    match first_event(r#"<?xml version="1.0"?>"#) {
        Event::Instruction(content) => assert_eq!(content, r#"xml version="1.0""#),
        _ => unreachable!(),
    }
    // a quoted `>` does not close the declaration
    match first_event("<!DOCTYPE x 'a>b'>") {
        Event::Declaration(content) => assert_eq!(content, "DOCTYPE x 'a>b'"),
        _ => unreachable!(),
    }
}

#[test]
fn quoted_gt_inside_tag() {
    match first_event(r#"<foo d="a>b">"#) {
        Event::Tag(name, _, attributes) => {
            assert_eq!(name, "foo");
            assert_eq!(attributes.get("d").unwrap().as_str(), "a>b");
        },
        _ => unreachable!(),
    }
}

#[test]
fn duplicate_attribute_keeps_last() {
    match first_event("<foo a='1' a='2'>") {
        Event::Tag(_, _, attributes) => {
            assert_eq!(attributes.len(), 1);
            assert_eq!(attributes.get("a").unwrap().as_str(), "2");
        },
        _ => unreachable!(),
    }
}

#[test]
fn empty_input_ends() {
    let mut parser = Parser::new("");
    assert!(parser.next().is_none());
    let mut blank = Parser::new("   \n  ");
    assert!(blank.next().is_none());
}

#[test]
fn malformed_comment_error() {
    let mut parser = Parser::new("ab <!-- x");
    match parser.next().unwrap().unwrap() {
        Event::Text(content) => assert_eq!(content, "ab"),
        _ => unreachable!(),
    }
    let error = parser.next().unwrap().unwrap_err();
    assert_eq!(error.message(), "found a malformed comment");
    assert_eq!(error.position(), 3);
    assert_eq!(error.to_text(), "found a malformed comment (position 3)");
}

#[test]
fn malformed_constructs() {
    let mut declaration = Parser::new("<!DOCTYPE svg");
    let error = declaration.next().unwrap().unwrap_err();
    assert_eq!(error.message(), "found a malformed declaration");

    let mut instruction = Parser::new("<?php echo");
    let error = instruction.next().unwrap().unwrap_err();
    assert_eq!(error.message(), "found a malformed instruction");

    let mut tag = Parser::new("<foo");
    let error = tag.next().unwrap().unwrap_err();
    assert_eq!(error.message(), "found a malformed tag");

    let mut nameless = Parser::new("<>");
    let error = nameless.next().unwrap().unwrap_err();
    assert_eq!(error.message(), "expected a tag name");
}

#[test]
fn attribute_syntax_errors() {
    let error = Tag::parse("a b").unwrap_err();
    assert_eq!(error.message(), "expected an attribute value");
    assert_eq!(error.position(), 3);

    let error = Tag::parse("a b=").unwrap_err();
    assert_eq!(error.message(), "expected a quoted attribute value");

    let error = Tag::parse("a b=x").unwrap_err();
    assert_eq!(error.message(), "expected a quoted attribute value");

    let error = Tag::parse("a b='x").unwrap_err();
    assert_eq!(error.message(), "unterminated attribute value");

    let error = Tag::parse("a ='x'").unwrap_err();
    assert_eq!(error.message(), "malformed attribute");

    let error = Tag::parse("").unwrap_err();
    assert_eq!(error.message(), "expected a tag name");
}

#[test]
fn error_position_with_two_digits() {
    let mut parser = Parser::new("aaaaaaaaaa bb <?x");
    match parser.next().unwrap().unwrap() {
        Event::Text(content) => assert_eq!(content, "aaaaaaaaaa bb"),
        _ => unreachable!(),
    }
    let error = parser.next().unwrap().unwrap_err();
    assert_eq!(error.position(), 14);
    assert_eq!(error.to_text(), "found a malformed instruction (position 14)");
}

#[test]
fn read_gives_a_parser() {
    let mut parser = svg::read("<foo/>");
    assert!(matches!(parser.next().unwrap().unwrap(), Event::Tag(_, _, _)));
    assert!(parser.next().is_none());
}
