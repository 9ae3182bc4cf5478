use coaxial::attribute::{Attribute, AttributeValue, StateDescriptor};
use coaxial::attributes::Attributes;
use coaxial::content::Content;
use coaxial::element::Element;
use coaxial::funcs::{div, p};
use coaxial::random_id::{IdSource, RandomId};

fn text(s: &str) -> String {
    String::from(s)
}

#[test]
fn test_element_functions() {
    let el = div(
        Content::List(vec![Content::Element(Box::new(p(
            Content::Text(text("hello")),
            Attributes::new_empty(),
        )))]),
        Attributes::new_empty(),
    );

    let mut output = String::new();
    el.render(&mut output);

    assert_eq!(output, "<div><p>hello</p></div>");
}

#[test]
fn test_can_render_attributes() {
    let attrs = Attributes::new(vec![(
        text("onclick"),
        Attribute::Value(AttributeValue::Text(text("hey"))),
    )]);

    let mut output = String::new();
    attrs.render(&mut output);

    assert_eq!(output, "onclick=\"hey\"");
}

#[test]
fn test_build_content() {
    let mut content = Content::List(vec![]);
    content.optimize();
    assert_eq!(Content::Empty, content);

    let mut content = Content::List(vec![Content::Empty, Content::Empty, Content::Empty]);
    content.optimize();
    assert_eq!(Content::Empty, content);

    let mut content = Content::List(vec![Content::List(vec![Content::List(vec![])])]);
    content.optimize();
    assert_eq!(Content::Empty, content);

    let mut content = Content::List(vec![Content::Raw(text("hey"))]);
    content.optimize();
    assert_eq!(Content::Raw(text("hey")), content);

    let mut content = Content::List(vec![
        Content::List(vec![Content::Raw(text("hey"))]),
        Content::Empty,
        Content::Text(text("hi")),
    ]);
    content.optimize();
    assert_eq!(Content::Raw(text("heyhi")), content);
}

#[test]
fn content_test_build_content() {
    let mut content = Content::List(vec![]);
    content.optimize();
    assert_eq!(Content::Empty, content);

    let mut content = Content::List(vec![Content::Empty, Content::Empty, Content::Empty]);
    content.optimize();
    assert_eq!(Content::Empty, content);

    let mut content = Content::List(vec![Content::List(vec![Content::List(vec![])])]);
    content.optimize();
    assert_eq!(Content::Empty, content);

    let mut content = Content::List(vec![Content::Raw(text("hey"))]);
    content.optimize();
    assert_eq!(Content::Raw(text("hey")), content);

    let mut content = Content::List(vec![
        Content::List(vec![Content::Raw(text("hey"))]),
        Content::Empty,
        Content::Text(text("hi")),
    ]);
    content.optimize();
    assert_eq!(Content::Raw(text("heyhi")), content);

    // a list in a list should be flattened
    let mut content = Content::List(vec![
        Content::List(vec![
            Content::State(StateDescriptor {
                display: String::new(),
                state_id: String::new(),
            }),
            Content::Text(text("hey")),
        ]),
        Content::State(StateDescriptor {
            display: String::new(),
            state_id: String::new(),
        }),
    ]);
    content.optimize();
    assert_eq!(
        Content::List(vec![
            Content::State(StateDescriptor {
                display: String::new(),
                state_id: String::new(),
            }),
            Content::Text(text("hey")),
            Content::State(StateDescriptor {
                display: String::new(),
                state_id: String::new(),
            }),
        ]),
        content
    );
}

#[test]
fn element_test_basic() {
    let el = Element {
        id: Some(RandomId::from_str("aaaabbbb")),
        name: text("div"),
        content: Content::List(vec![
            Content::Element(Box::new(Element {
                id: Some(RandomId::from_str("ccccdddd")),
                name: text("p"),
                content: Content::Text(text("hello")),
                attributes: Attributes::new_empty(),
            })),
            Content::Element(Box::new(Element {
                id: None,
                name: text("p"),
                content: Content::Text(text("world")),
                attributes: Attributes::new_empty(),
            })),
        ]),
        attributes: Attributes::new_empty(),
    };

    let mut output = String::new();
    el.render(&mut output);

    assert_eq!(
        output,
        "<div coax-id=\"aaaabbbb\"><p coax-id=\"ccccdddd\">hello</p><p>world</p></div>"
    );
}

#[test]
fn element_test_element_functions() {
    let el = div(
        Content::List(vec![Content::Element(Box::new(p(
            Content::Text(text("hello")),
            Attributes::new_empty(),
        )))]),
        Attributes::new_empty(),
    );

    let mut output = String::new();
    el.render(&mut output);

    assert_eq!(output, "<div><p>hello</p></div>");
}

#[test]
fn test_reactive_elements_have_ids() {
    let mut el = Element {
        id: None,
        name: text("div"),
        content: Content::State(StateDescriptor {
            display: text("value"),
            state_id: text("my_state"),
        }),
        attributes: Attributes::new_empty(),
    };

    el.give_ids(&mut IdSource::from_seed(0));

    assert!(el.content.is_reactive());
    assert!(el.id.is_some());
}

#[test]
fn test_non_reactive_elements_dont_have_ids() {
    let mut el = Element {
        id: None,
        name: text("div"),
        content: Content::Text(text("value")),
        attributes: Attributes::new_empty(),
    };

    el.give_ids(&mut IdSource::from_seed(0));

    assert!(!el.content.is_reactive());
    assert!(el.id.is_none());
}

#[test]
fn element_test_reactive_elements_have_ids() {
    let mut el = Element {
        id: None,
        name: text("div"),
        content: Content::State(StateDescriptor {
            display: text("value"),
            state_id: text("my_state"),
        }),
        attributes: Attributes::new_empty(),
    };

    el.give_ids(&mut IdSource::from_seed(0));

    assert!(el.content.is_reactive());
    assert!(el.id.is_some());
}

#[test]
fn element_test_non_reactive_elements_dont_have_ids() {
    let mut el = Element {
        id: None,
        name: text("div"),
        content: Content::Raw(text("value")),
        attributes: Attributes::new_empty(),
    };

    el.give_ids(&mut IdSource::from_seed(0));

    assert!(!el.content.is_reactive());
    assert!(el.id.is_none());
}

#[test]
fn test_can_render_one_attribute() {
    let mut attrs = Attributes::new_empty();
    attrs.insert(text("hi"), Attribute::Value(AttributeValue::Text(text("hey"))));

    let mut output = String::new();
    attrs.render(&mut output);

    // doesn't have an extra space at the end
    assert_eq!(output, "hi=\"hey\"");
}

#[test]
fn test_can_render_list() {
    let mut attrs = Attributes::new_empty();
    attrs.insert(
        text("greeting"),
        Attribute::List(vec![
            AttributeValue::Text(text("hello")),
            AttributeValue::Text(text("world")),
        ]),
    );

    let mut output = String::new();
    attrs.render(&mut output);

    // doesn't have an extra space at the end
    assert_eq!(output, "greeting=\"helloworld\"");
}

#[test]
fn test_can_render_multiple_attributes() {
    let mut attrs = Attributes::new_empty();
    attrs.insert(text("onclick"), Attribute::Value(AttributeValue::Text(text("hey"))));
    attrs.insert(
        text("data-something"),
        Attribute::Value(AttributeValue::Text(text("wow"))),
    );

    let mut output = String::new();
    attrs.render(&mut output);

    // has a space between the two attributes, but not at the end
    assert_eq!("data-something=\"wow\" onclick=\"hey\"", output);
}

#[test]
fn merges_three_adjacent_literals() {
    let mut content = Content::List(vec![
        Content::Raw(text("a")),
        Content::Raw(text("b")),
        Content::Raw(text("c")),
    ]);
    content.optimize();
    assert_eq!(Content::Raw(text("abc")), content);
}

#[test]
fn escapes_text_content() {
    let el = p(Content::Text(text("a<b&c>d")), Attributes::new_empty());
    let mut output = String::new();
    el.render(&mut output);
    assert_eq!("<p>a&lt;b&amp;c&gt;d</p>", output);
}

#[test]
fn escapes_attribute_text() {
    let mut attrs = Attributes::new_empty();
    attrs.insert(text("title"), Attribute::Value(AttributeValue::Text(text("say \"hi\""))));
    let mut output = String::new();
    attrs.render(&mut output);
    assert_eq!("title=\"say &quot;hi&quot;\"", output);
}

#[test]
fn void_elements_render_without_closing_tag() {
    let el = coaxial::funcs::br(Attributes::new_empty());
    let mut output = String::new();
    el.render(&mut output);
    assert_eq!("<br />", output);
}

#[test]
fn generated_ids_are_eight_alphanumerics() {
    let mut src = IdSource::from_seed(7);
    let id = RandomId::from_rng(&mut src);
    let rendered = id.to_text();
    assert_eq!(8, rendered.len());
    assert!(rendered.chars().all(|c| c.is_ascii_alphanumeric()));
}

#[test]
fn short_strings_make_no_id() {
    assert!(RandomId::try_from_str("abc").is_err());
    assert!(RandomId::try_from_str("abcdefgh").is_ok());
}

#[test]
fn html_test_basic() {
    let el = Element {
        id: Some(RandomId::from_str("aaaabbbb")),
        name: text("div"),
        content: Content::List(vec![
            Content::Element(Box::new(Element {
                id: Some(RandomId::from_str("ccccdddd")),
                name: text("p"),
                content: Content::Text(text("hello")),
                attributes: Attributes::new_empty(),
            })),
            Content::Element(Box::new(Element {
                id: None,
                name: text("p"),
                content: Content::Text(text("world")),
                attributes: Attributes::new_empty(),
            })),
        ]),
        attributes: Attributes::new_empty(),
    };

    let mut output = String::new();
    el.render(&mut output);

    assert_eq!(
        output,
        "<div coax-id=\"aaaabbbb\"><p coax-id=\"ccccdddd\">hello</p><p>world</p></div>"
    );
}

#[test]
fn attribute_merging_preserves_rendering() {
    let build = || {
        Attribute::List(vec![
            AttributeValue::Text(text("\"")),
            AttributeValue::Raw(text("x")),
        ])
    };

    let mut before = String::new();
    build().render(&mut before);

    let mut merged = build();
    merged.optimize();
    let mut after = String::new();
    merged.render(&mut after);

    assert_eq!("&quot;x", before);
    assert_eq!(before, after);
    assert_eq!(Attribute::Value(AttributeValue::Raw(text("&quot;x"))), merged);
}
