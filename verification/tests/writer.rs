//! Composer behaviour: separators, attribute ordering, quote selection and
//! the fixed per-event formats.

use svg::events::composer::Writer;
use svg::events::Event;
use svg::node::element::tag::Type;
use svg::node::Attributes;
use svg::node::Value;

fn events_to_string(events: &[Event]) -> String {
    let mut writer = Writer::new();
    for event in events {
        writer.write_event(event);
    }
    writer.into_string()
}

#[test]
fn event_display() {
    let mut foo_attributes = Attributes::new();
    foo_attributes.insert("x".to_string(), Value::new("-10"));
    foo_attributes.insert("y".to_string(), Value::new("10px"));
    foo_attributes.insert("s".to_string(), Value::new("12.5 13"));
    foo_attributes.insert("c".to_string(), Value::new("green"));
    let foo = Event::Tag("foo".to_string(), Type::Start, foo_attributes);

    let bar = Event::Tag("bar".to_string(), Type::Empty, Attributes::new());

    let foo_end = Event::Tag("foo".to_string(), Type::End, Attributes::new());

    assert_eq!(
        events_to_string(&[foo, bar, foo_end]),
        "<foo c=\"green\" s=\"12.5 13\" x=\"-10\" y=\"10px\">\n\
         <bar/>\n\
         </foo>\
         "
    );
}

#[test]
fn event_display_quotes() {
    let mut foo_attributes = Attributes::new();
    foo_attributes.insert("s".to_string(), Value::new("'single'"));
    foo_attributes.insert("d".to_string(), Value::new(r#""double""#));
    foo_attributes.insert("m".to_string(), Value::new(r#""mixed'"#));
    let foo = Event::Tag("foo".to_string(), Type::Empty, foo_attributes);

    assert_eq!(
        events_to_string(&[foo]),
        r#"<foo d='"double"' s="'single'"/>"#
    );
}

#[test]
fn writer_style_display() {
    let style = Event::Tag("style".to_string(), Type::Start, Attributes::new());

    let style_text = Event::Text("* { font-family: foo; }".to_string());

    let style_end = Event::Tag("style".to_string(), Type::End, Attributes::new());

    assert_eq!(
        events_to_string(&[style, style_text, style_end]),
        "<style>\n\
         * { font-family: foo; }\n\
         </style>\
         "
    );
}

#[test]
fn comment_display() {
    let comment = Event::Comment("valid".to_string());
    assert_eq!(events_to_string(&[comment]), "<!-- valid -->");

    let comment = Event::Comment("invalid -->".to_string());
    assert_eq!(events_to_string(&[comment]), "<!-- invalid --> -->");
}

#[test]
fn declaration_display() {
    let declaration = Event::Declaration(
        r#"DOCTYPE svg PUBLIC "-//W3C//DTD SVG 1.1//EN" "http://www.w3.org/Graphics/SVG/1.1/DTD/svg11.dtd""#.to_string(),
    );
    assert_eq!(
        events_to_string(&[declaration]),
        r#"<!DOCTYPE svg PUBLIC "-//W3C//DTD SVG 1.1//EN" "http://www.w3.org/Graphics/SVG/1.1/DTD/svg11.dtd">"#
    );
}

#[test]
fn instruction_display() {
    let instruction = Event::Instruction(r#"xml version="1.0" encoding="utf-8""#.to_string());
    assert_eq!(
        events_to_string(&[instruction]),
        r#"<?xml version="1.0" encoding="utf-8"?>"#
    );
}

#[test]
fn unpadded_comment_display() {
    let comment = Event::UnpaddedComment("bare".to_string());
    assert_eq!(events_to_string(&[comment]), "<!--bare-->");
}

#[test]
fn attribute_order_is_alphabetical() {
    // insertion order y, x, c, s; composed order is c, s, x, y
    let mut attributes = Attributes::new();
    attributes.insert("y".to_string(), Value::new("10px"));
    attributes.insert("x".to_string(), Value::new("-10"));
    attributes.insert("c".to_string(), Value::new("green"));
    attributes.insert("s".to_string(), Value::new("12.5 13"));
    let foo = Event::Tag("foo".to_string(), Type::Empty, attributes);
    assert_eq!(
        events_to_string(&[foo]),
        r#"<foo c="green" s="12.5 13" x="-10" y="10px"/>"#
    );
}

#[test]
fn quote_selection() {
    // a value with a single quote only goes in double quotes
    let mut a = Attributes::new();
    a.insert("q".to_string(), Value::new("it's"));
    assert_eq!(
        events_to_string(&[Event::Tag("t".to_string(), Type::Empty, a)]),
        r#"<t q="it's"/>"#
    );
    // a value with a double quote only goes in single quotes
    let mut b = Attributes::new();
    b.insert("q".to_string(), Value::new(r#"say "hi""#));
    assert_eq!(
        events_to_string(&[Event::Tag("t".to_string(), Type::Empty, b)]),
        r#"<t q='say "hi"'/>"#
    );
    // a value with neither goes in double quotes
    let mut c = Attributes::new();
    c.insert("q".to_string(), Value::new("plain"));
    assert_eq!(
        events_to_string(&[Event::Tag("t".to_string(), Type::Empty, c)]),
        r#"<t q="plain"/>"#
    );
    // a value with both cannot be quoted and is dropped
    let mut d = Attributes::new();
    d.insert("q".to_string(), Value::new(r#"'""#));
    assert_eq!(
        events_to_string(&[Event::Tag("t".to_string(), Type::Empty, d)]),
        "<t/>"
    );
}

#[test]
fn end_tag_attributes_are_discarded() {
    let mut attributes = Attributes::new();
    attributes.insert("x".to_string(), Value::new("1"));
    let end = Event::Tag("foo".to_string(), Type::End, attributes);
    assert_eq!(events_to_string(&[end]), "</foo>");
}

#[test]
fn compose_events_matches_writer() {
    let events = vec![
        Event::Comment("a".to_string()),
        Event::Text("b".to_string()),
    ];
    assert_eq!(svg::events::composer::compose_events(&events), "<!-- a -->\nb");
}
