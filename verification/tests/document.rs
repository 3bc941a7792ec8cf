//! Tree building, element rendering, and whole-document round trips.

use svg::events::Event;
use svg::node::element::tag::Type;
use svg::node::element::GenericElement;
use svg::node::Attributes;
use svg::node::Node;
use svg::node::Value;
use svg::Document;
use svg::Parser;

#[test]
fn parse_basic_document() {
    let events = vec![
        Event::Tag("svg".to_string(), Type::Start, Attributes::new()),
        Event::Tag("svg".to_string(), Type::End, Attributes::new()),
    ];

    let document = Document::from_events(events).unwrap();

    let root = document.get_svg();
    assert_eq!(root.get_name(), "svg");
    assert!(root.get_attributes().is_empty());
}

#[test]
fn parse_empty_tag_document() {
    let events = vec![Event::Tag("svg".to_string(), Type::Empty, Attributes::new())];

    let document = Document::from_events(events).unwrap();

    let root = document.get_svg();
    assert_eq!(root.get_name(), "svg");
    assert!(root.get_attributes().is_empty());
}

#[test]
fn reject_no_tags() {
    let events = vec![];
    assert!(Document::from_events(events).is_err());
}

#[test]
fn parse_larger_document() {
    let mut svg_attributes = Attributes::new();
    svg_attributes.insert("version".to_string(), Value::new("1.1"));
    svg_attributes.insert("id".to_string(), Value::new("Layer_1"));
    svg_attributes.insert("xmlns".to_string(), Value::new("http://www.w3.org/2000/svg"));
    svg_attributes.insert(
        "xmlns:xlink".to_string(),
        Value::new("http://www.w3.org/1999/xlink"),
    );
    svg_attributes.insert("x".to_string(), Value::new("0px"));
    svg_attributes.insert("y".to_string(), Value::new("0px"));
    svg_attributes.insert("viewBox".to_string(), Value::new("0 0 800 800"));
    svg_attributes.insert("enable-background".to_string(), Value::new("new 0 0 800 800"));
    svg_attributes.insert("xml:space".to_string(), Value::new("preserve"));

    let mut path1_attributes = Attributes::new();
    path1_attributes.insert("d".to_string(), Value::new(r#"M249,752c67,0,129-63,129-143c0-107-87-191-199-191c-81,0-149,60-149,125c0,42,29,73,62,73c22,0,44-17,44-40
	c0-25-19-43-41-43c-11,0-26,5-31,11c-17,16-26,3-27-5c-2-45,40-93,123-93c90,0,192,91,192,177c0,81-52,123-99,121c-11-2-21-9-5-24
	c7-4,12-20,12-30c0-22-20-40-45-40s-43,21-43,43C172,724,205,752,249,752z"#));

    let mut path2_attributes = Attributes::new();
    path2_attributes.insert("d".to_string(), Value::new(r#"M544,752c44,0,77-28,77-59c0-22-18-43-43-43s-45,18-45,40c0,10,5,26,12,30c16,15,7,22-5,24c-47,2-99-40-99-121
	c0-86,102-177,192-177c83,0,124,48,123,93c-1,8-11,21-27,5c-5-6-20-11-31-11c-22,0-41,18-41,43c0,23,22,40,44,40c33,0,62-31,62-73
	c0-65-68-125-149-125c-112,0-199,84-199,191C415,689,477,752,544,752z"#));

    let mut path3_attributes = Attributes::new();
    path3_attributes.insert("d".to_string(), Value::new(r#"M249,50c-44,0-77,28-77,59c0,22,18,43,43,43s45-18,45-40c0-10-5-26-12-30c-16-15-6-22,5-24c47-2,99,40,99,121
	c0,86-102,177-192,177c-83,0-125-48-123-93c1-8,10-21,27-5c5,6,20,11,31,11c22,0,41-18,41-43c0-23-22-40-44-40c-33,0-62,31-62,73
	c0,65,68,125,149,125c112,0,199-84,199-191C378,113,316,50,249,50z"#));

    let mut path4_attributes = Attributes::new();
    path4_attributes.insert("d".to_string(), Value::new(r#"M544,50c-67,0-129,63-129,143c0,107,87,191,199,191c81,0,149-60,149-125c0-42-29-73-62-73c-22,0-44,17-44,40
	c0,25,19,43,41,43c11,0,26-5,31-11c16-16,26-3,27,5c1,45-40,93-123,93c-90,0-192-91-192-177c0-81,52-123,99-121c11,2,21,9,5,24
	c-7,4-12,20-12,30c0,22,20,40,45,40s43-21,43-43C621,78,588,50,544,50z"#));

    let events = vec![
        Event::Instruction(r#"xml version="1.0" encoding="utf-8""#.to_string()),
        Event::Comment("Generator: Adobe Illustrator 18.0.0, SVG Export Plug-In . SVG Version: 6.00 Build 0) ".to_string()),
        Event::Declaration(r#"DOCTYPE svg PUBLIC "-//W3C//DTD SVG 1.1//EN" "http://www.w3.org/Graphics/SVG/1.1/DTD/svg11.dtd""#.to_string()),
        Event::Tag("svg".to_string(), Type::Start, svg_attributes.clone()),
        Event::Tag("path".to_string(), Type::Empty, path1_attributes.clone()),
        Event::Tag("path".to_string(), Type::Empty, path2_attributes.clone()),
        Event::Tag("path".to_string(), Type::Empty, path3_attributes.clone()),
        Event::Tag("path".to_string(), Type::Empty, path4_attributes.clone()),
        Event::Tag("svg".to_string(), Type::End, Attributes::new()),
    ];

    let document = Document::from_events(events).unwrap();

    let root = document.get_svg();
    assert_eq!(&svg_attributes, root.get_attributes());

    let children = root.get_children();
    assert_eq!(4, children.len());

    let expected = [
        &path1_attributes,
        &path2_attributes,
        &path3_attributes,
        &path4_attributes,
    ];
    for (child, attributes) in children.iter().zip(expected) {
        match child {
            Node::Element(element) => {
                assert_eq!(element.get_name(), "path");
                assert_eq!(attributes, element.get_attributes());
            },
            _ => unreachable!(),
        }
    }
}

#[test]
fn element_display() {
    let mut element = GenericElement::new("foo");
    element.assign("x", Value::new("-10"));
    element.assign("y", Value::new("10px"));
    element.assign("s", Value::new("12.5 13"));
    element.assign("c", Value::new("green"));
    element.append(Node::new_element("bar"));

    assert_eq!(
        element.to_text(),
        "<foo c=\"green\" s=\"12.5 13\" x=\"-10\" y=\"10px\">\n\
         <bar/>\n\
         </foo>\
         "
    );
}

#[test]
fn element_display_quotes() {
    let mut element = GenericElement::new("foo");
    element.assign("s", Value::new("'single'"));
    element.assign("d", Value::new(r#""double""#));
    element.assign("m", Value::new(r#""mixed'"#));

    assert_eq!(element.to_text(), r#"<foo d='"double"' s="'single'"/>"#);
}

#[test]
fn mod_style_display() {
    let mut element = GenericElement::new("style");
    element.append(Node::new_text("* { font-family: foo; }"));

    assert_eq!(
        element.to_text(),
        "<style>\n\
         * { font-family: foo; }\n\
         </style>\
         "
    );
}

#[test]
fn mismatched_close_fails() {
    let events = vec![
        Event::Tag("a".to_string(), Type::Start, Attributes::new()),
        Event::Tag("b".to_string(), Type::End, Attributes::new()),
    ];
    let error = Document::from_events(events).unwrap_err();
    assert_eq!(error.message(), "expected </a>, found </b>");
}

#[test]
fn second_top_level_tag_fails() {
    let events = vec![
        Event::Tag("a".to_string(), Type::Start, Attributes::new()),
        Event::Tag("a2".to_string(), Type::Start, Attributes::new()),
    ];
    let error = Document::from_events(events).unwrap_err();
    assert_eq!(error.message(), "missing </a2>");

    let events = vec![
        Event::Tag("a".to_string(), Type::Empty, Attributes::new()),
        Event::Tag("b".to_string(), Type::Empty, Attributes::new()),
    ];
    let error = Document::from_events(events).unwrap_err();
    assert_eq!(error.message(), "unexpected second top-level tag");
}

#[test]
fn close_before_open_fails() {
    let events = vec![Event::Tag("a".to_string(), Type::End, Attributes::new())];
    let error = Document::from_events(events).unwrap_err();
    assert_eq!(error.message(), "found </a> tag before <a> tag");
}

#[test]
fn missing_close_fails() {
    let events = vec![Event::Tag("a".to_string(), Type::Start, Attributes::new())];
    let error = Document::from_events(events).unwrap_err();
    assert_eq!(error.message(), "missing </a>");
}

#[test]
fn document_builder() {
    let mut circle = GenericElement::new("circle");
    circle.assign("r", Value::new("5"));
    let document = Document::new()
        .set("width", Value::new("70"))
        .add(Node::Element(circle));
    assert_eq!(
        document.to_text(),
        "<svg width=\"70\">\n<circle r=\"5\"/>\n</svg>"
    );
}

#[test]
fn end_to_end_scenario() {
    let content = "<?xml version=\"1.0\" encoding=\"utf-8\"?>\n\
                   <!-- banner -->\n\
                   <!DOCTYPE svg>\n\
                   <svg height=\"100\" width=\"200\">\n\
                   <circle cx=\"5\" cy=\"5\" r=\"2\"/>\n\
                   <rect width=\"9\"/>\n\
                   </svg>\n\
                   <!--trailer-->";

    let parser = Parser::new(content);
    let document = Document::from_event_parser(parser).unwrap();

    let root = document.get_svg();
    assert_eq!(root.get_name(), "svg");
    assert_eq!(root.get_attributes().len(), 2);
    assert_eq!(root.get_attributes().get("width").unwrap().as_str(), "200");
    assert_eq!(root.get_attributes().get("height").unwrap().as_str(), "100");

    let children = root.get_children();
    assert_eq!(children.len(), 2);
    match &children[0] {
        Node::Element(circle) => {
            assert_eq!(circle.get_name(), "circle");
            assert_eq!(circle.get_attributes().get("r").unwrap().as_str(), "2");
            assert!(circle.get_children().is_empty());
        },
        _ => unreachable!(),
    }

    assert_eq!(document.to_text(), content);
}

#[test]
fn roundtrip_document_text() {
    // text in the composer's own format survives a parse and a re-compose
    let content = "<!-- head -->\n\
                   <a b=\"1\">\n\
                   inner text\n\
                   <c/>\n\
                   </a>\n\
                   <?done?>";
    let mut parser = Parser::new(content);
    let mut events = Vec::new();
    while let Some(step) = parser.next() {
        events.push(step.unwrap());
    }
    assert_eq!(svg::events::composer::compose_events(&events), content);
}

#[test]
fn nested_elements_round_trip() {
    let events = vec![
        Event::Tag("a".to_string(), Type::Start, Attributes::new()),
        Event::Tag("b".to_string(), Type::Start, Attributes::new()),
        Event::Text("deep".to_string()),
        Event::Tag("b".to_string(), Type::End, Attributes::new()),
        Event::Tag("a".to_string(), Type::End, Attributes::new()),
    ];
    let document = Document::from_events(events).unwrap();
    assert_eq!(document.to_text(), "<a>\n<b>\ndeep\n</b>\n</a>");
}

#[test]
fn tokenizer_error_reaches_the_builder() {
    let parser = Parser::new("<svg></svg><!-");
    let error = Document::from_event_parser(parser).unwrap_err();
    assert_eq!(error.message(), "found a malformed declaration (position 11)");
}

#[test]
fn attributes_last_wins() {
    let mut attributes = Attributes::new();
    attributes.insert("k".to_string(), Value::new("1"));
    attributes.insert("k".to_string(), Value::new("2"));
    assert_eq!(attributes.len(), 1);
    assert_eq!(attributes.get("k").unwrap().as_str(), "2");
    assert!(attributes.get("missing").is_none());
}

#[test]
fn value_contains() {
    let value = Value::new("a'b");
    assert!(value.contains('\''));
    assert!(!value.contains('"'));
    assert_eq!(value.as_str(), "a'b");
}
