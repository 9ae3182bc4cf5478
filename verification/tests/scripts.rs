use coaxial::attribute::StateDescriptor;
use coaxial::attributes::Attributes;
use coaxial::content::Content;
use coaxial::element::Element;
use coaxial::random_id::RandomId;
use coaxial::reactive_js::{Content as Slot, Reactivity, ReactivityDescriptor, Target};

fn text(s: &str) -> String {
    String::from(s)
}

#[test]
fn test_basic_script() {
    let state_desc = StateDescriptor {
        display: text("value"),
        state_id: text("state1"),
    };
    let desc = ReactivityDescriptor {
        element_id: RandomId::from_str("aaaabbbb"),
        child_node_idx: None,
        state_descriptors: vec![state_desc],
        content: vec![Slot::Var(0)],
        target: Target::TextContent,
    };

    let mut output = String::new();
    desc.script(&mut output);

    assert_eq!("window.Coaxial.onStateChange(['state1'], (v0) => { if (el = document.querySelector('[coax-id=\"aaaabbbb\"]')) el.textContent = v0; });\n", output);
}

#[test]
fn test_setting_attribute() {
    let state_desc = StateDescriptor {
        display: text("value"),
        state_id: text("state1"),
    };
    let desc = ReactivityDescriptor {
        element_id: RandomId::from_str("aaaabbbb"),
        child_node_idx: None,
        state_descriptors: vec![state_desc],
        content: vec![Slot::Var(0)],
        target: Target::Attribute(text("my-attr")),
    };

    let mut output = String::new();
    desc.script(&mut output);

    assert_eq!("window.Coaxial.onStateChange(['state1'], (v0) => { if (el = document.querySelector('[coax-id=\"aaaabbbb\"]')) el.setAttribute('my-attr', v0); });\n", output);
}

#[test]
fn test_child_node() {
    let state_desc = StateDescriptor {
        display: text("value"),
        state_id: text("state1"),
    };
    let desc = ReactivityDescriptor {
        element_id: RandomId::from_str("aaaabbbb"),
        child_node_idx: Some(22),
        state_descriptors: vec![state_desc],
        content: vec![Slot::Text(text("hey"))],
        target: Target::TextContent,
    };

    let mut output = String::new();
    desc.script(&mut output);

    assert_eq!("window.Coaxial.onStateChange(['state1'], (v0) => { if (el = document.querySelector('[coax-id=\"aaaabbbb\"]')) if (el = el.childNodes[22]) el.textContent = 'hey'; });\n", output);
}

#[test]
fn test_multiple_content() {
    let state_desc = StateDescriptor {
        display: text("value"),
        state_id: text("state1"),
    };
    let desc = ReactivityDescriptor {
        element_id: RandomId::from_str("aaaabbbb"),
        child_node_idx: None,
        state_descriptors: vec![state_desc],
        content: vec![
            Slot::Text(text("hey")),
            Slot::Var(0),
            Slot::Text(text("world")),
        ],
        target: Target::TextContent,
    };

    let mut output = String::new();
    desc.script(&mut output);

    assert_eq!("window.Coaxial.onStateChange(['state1'], (v0) => { if (el = document.querySelector('[coax-id=\"aaaabbbb\"]')) el.textContent = ['hey',v0,'world'].join(''); });\n", output);
}

#[test]
fn test_multiple_content_attribute() {
    let state_desc = StateDescriptor {
        display: text("value"),
        state_id: text("state1"),
    };
    let desc = ReactivityDescriptor {
        element_id: RandomId::from_str("aaaabbbb"),
        child_node_idx: None,
        state_descriptors: vec![state_desc],
        content: vec![
            Slot::Text(text("hey")),
            Slot::Var(0),
            Slot::Text(text("world")),
        ],
        target: Target::Attribute(text("my-attr")),
    };

    let mut output = String::new();
    desc.script(&mut output);

    assert_eq!("window.Coaxial.onStateChange(['state1'], (v0) => { if (el = document.querySelector('[coax-id=\"aaaabbbb\"]')) el.setAttribute('my-attr', ['hey',v0,'world'].join('')); });\n", output);
}

#[test]
fn test_multiple_states() {
    let state_desc_1 = StateDescriptor {
        display: text("value1"),
        state_id: text("state1"),
    };
    let state_desc_2 = StateDescriptor {
        display: text("value2"),
        state_id: text("state2"),
    };
    let desc = ReactivityDescriptor {
        element_id: RandomId::from_str("aaaabbbb"),
        child_node_idx: None,
        state_descriptors: vec![state_desc_1, state_desc_2],
        content: vec![
            Slot::Var(1),
            Slot::Text(text("um")),
            Slot::Var(0),
            Slot::Text(text("wow")),
            Slot::Var(1),
            Slot::Var(0),
            Slot::Var(1),
        ],
        target: Target::TextContent,
    };

    let mut output = String::new();
    desc.script(&mut output);

    assert_eq!("window.Coaxial.onStateChange(['state1','state2'], (v0,v1) => { if (el = document.querySelector('[coax-id=\"aaaabbbb\"]')) el.textContent = [v1,'um',v0,'wow',v1,v0,v1].join(''); });\n", output);
}

#[test]
fn compiling_empty_content_emits_no_script() {
    let mut el = Element {
        id: Some(RandomId::from_str("aaaabbbb")),
        name: text("div"),
        content: Content::List(vec![]),
        attributes: Attributes::new_empty(),
    };
    el.optimize();
    assert_eq!(Content::Empty, el.content);
    let mut reactivity = Reactivity::new();
    el.reactivity(&mut reactivity);
    assert_eq!("", reactivity.script());
}

#[test]
fn compiling_a_singleton_list_matches_its_member() {
    let make = |content: Content| Element {
        id: Some(RandomId::from_str("aaaabbbb")),
        name: text("div"),
        content,
        attributes: Attributes::new_empty(),
    };
    let state = || {
        Content::State(StateDescriptor {
            display: text("1"),
            state_id: text("state001"),
        })
    };

    let mut wrapped = make(Content::List(vec![state()]));
    wrapped.optimize();
    let mut r1 = Reactivity::new();
    wrapped.reactivity(&mut r1);

    let mut bare = make(state());
    bare.optimize();
    let mut r2 = Reactivity::new();
    bare.reactivity(&mut r2);

    assert_eq!(r1.script(), r2.script());
}

#[test]
fn repeated_state_ids_subscribe_once() {
    let state = |display: &str| {
        Content::State(StateDescriptor {
            display: text(display),
            state_id: text("state001"),
        })
    };
    let el = Element {
        id: Some(RandomId::from_str("aaaabbbb")),
        name: text("div"),
        content: Content::List(vec![state("1"), Content::Raw(text("x")), state("1")]),
        attributes: Attributes::new_empty(),
    };
    let mut reactivity = Reactivity::new();
    el.reactivity(&mut reactivity);
    let script = reactivity.script();
    let mut expected = String::new();
    expected.push_str("window.Coaxial.onStateChange(['state001'], (v0) => { ");
    expected.push_str("if (el = document.querySelector('[coax-id=\"aaaabbbb\"]')) ");
    expected.push_str("if (el = el.childNodes[0]) el.textContent = [v0,'x',v0].join(''); });\n");
    expected.push_str("window.Coaxial.state['state001'] = '1';");
    assert_eq!(expected, script);
}

#[test]
fn script_text_is_single_quote_escaped() {
    let el = Element {
        id: Some(RandomId::from_str("aaaabbbb")),
        name: text("div"),
        content: Content::List(vec![
            Content::State(StateDescriptor {
                display: text("1"),
                state_id: text("state001"),
            }),
            Content::Text(text("it's")),
        ]),
        attributes: Attributes::new_empty(),
    };
    let mut reactivity = Reactivity::new();
    el.reactivity(&mut reactivity);
    let script = reactivity.script();
    assert!(!script.contains("it's"));
    assert!(script.contains("it"));
}

#[test]
fn reactive_attribute_descriptor_targets_the_key() {
    let mut attrs = Attributes::new_empty();
    attrs.insert(
        text("value"),
        coaxial::attribute::Attribute::Value(coaxial::attribute::AttributeValue::State(
            StateDescriptor {
                display: text("7"),
                state_id: text("state007"),
            },
        )),
    );
    let el = Element {
        id: Some(RandomId::from_str("aaaabbbb")),
        name: text("input"),
        content: Content::Empty,
        attributes: attrs,
    };
    let mut reactivity = Reactivity::new();
    el.reactivity(&mut reactivity);
    let script = reactivity.script();
    let mut expected = String::new();
    expected.push_str("window.Coaxial.onStateChange(['state007'], (v0) => { ");
    expected.push_str("if (el = document.querySelector('[coax-id=\"aaaabbbb\"]')) ");
    expected.push_str("el.setAttribute('value', v0); });\n");
    expected.push_str("window.Coaxial.state['state007'] = '7';");
    assert_eq!(expected, script);
}
