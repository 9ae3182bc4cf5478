//! The mathematical model of the markup tree.
//!
//! Every executable tree type has a ghost mirror here, holding character
//! sequences instead of strings. Rendering, canonicalization, reactivity and
//! id assignment are defined as spec functions over these mirrors; the
//! executable functions promise to compute exactly them.

use vstd::prelude::*;

use crate::escape::{escape_attribute_seq, escape_text_seq};
use crate::random_id::{seeded_id_chars, RANDOM_ID_LENGTH};

verus! {

/// Ghost mirror of a state descriptor: the rendered value and the cell id it
/// came from.
pub struct StateDescV {
    pub display: Seq<char>,
    pub state_id: Seq<char>,
}

/// Ghost mirror of a closure descriptor.
pub struct ClosureDescV {
    pub closure_id: Seq<char>,
}

/// Ghost mirror of one attribute value.
pub enum AttrValueV {
    Raw(Seq<char>),
    Text(Seq<char>),
    State(StateDescV),
    Closure(ClosureDescV),
}

/// Ghost mirror of an attribute: nothing, one value, or a list of values.
pub enum AttrV {
    Empty,
    Value(AttrValueV),
    List(Seq<AttrValueV>),
}

/// Ghost mirror of element content.
pub enum ContentV {
    Empty,
    Raw(Seq<char>),
    Text(Seq<char>),
    Element(Box<ElementV>),
    State(StateDescV),
    List(Seq<ContentV>),
}

/// Ghost mirror of an element: optional reactive id, tag name, content, and
/// key-ordered attributes.
pub struct ElementV {
    pub id: Option<Seq<char>>,
    pub name: Seq<char>,
    pub content: ContentV,
    pub attrs: Seq<(Seq<char>, AttrV)>,
}

// ---------------------------------------------------------------------------
// Rendering

/// The names of the void elements, which cannot have child nodes and render
/// without a closing tag.
pub open spec fn is_void_name(name: Seq<char>) -> bool {
    ||| name == "area"@
    ||| name == "base"@
    ||| name == "br"@
    ||| name == "col"@
    ||| name == "embed"@
    ||| name == "hr"@
    ||| name == "img"@
    ||| name == "input"@
    ||| name == "link"@
    ||| name == "meta"@
    ||| name == "param"@
    ||| name == "source"@
    ||| name == "track"@
    ||| name == "wbr"@
}

/// The rendering of one attribute value: raw text stands as it is, plain
/// text is attribute-escaped, a state reference renders its current display
/// value, and a closure renders a client-side invocation of it.
pub open spec fn render_attr_value(v: AttrValueV) -> Seq<char> {
    match v {
        AttrValueV::Raw(t) => t,
        AttrValueV::Text(t) => escape_attribute_seq(t),
        AttrValueV::State(d) => d.display,
        AttrValueV::Closure(c) => "window.Coaxial.callClosure('"@ + c.closure_id + "')"@,
    }
}

/// The concatenated rendering of a list of attribute values.
pub open spec fn render_attr_values(l: Seq<AttrValueV>, i: int) -> Seq<char>
    decreases l.len() - i,
{
    if i < 0 || i >= l.len() {
        Seq::empty()
    } else {
        render_attr_value(l[i]) + render_attr_values(l, i + 1)
    }
}

/// The rendering of one attribute's value part.
pub open spec fn render_attr(a: AttrV) -> Seq<char> {
    match a {
        AttrV::Empty => Seq::empty(),
        AttrV::Value(v) => render_attr_value(v),
        AttrV::List(l) => render_attr_values(l, 0),
    }
}

/// The rendering of one `key="value"` entry; an empty attribute renders its
/// key alone.
pub open spec fn render_attr_entry(e: (Seq<char>, AttrV)) -> Seq<char> {
    if e.1 is Empty {
        e.0
    } else {
        e.0 + "=\""@ + render_attr(e.1) + "\""@
    }
}

/// The rendering of an attribute list: entries separated by single spaces.
pub open spec fn render_attrs(l: Seq<(Seq<char>, AttrV)>, i: int) -> Seq<char>
    decreases l.len() - i,
{
    if i < 0 || i >= l.len() {
        Seq::empty()
    } else if i == l.len() - 1 {
        render_attr_entry(l[i])
    } else {
        render_attr_entry(l[i]) + " "@ + render_attrs(l, i + 1)
    }
}

/// The id attribute of a reactive element: nothing when the element carries
/// no id.
pub open spec fn render_id_attr(id: Option<Seq<char>>) -> Seq<char> {
    match id {
        Option::None => Seq::empty(),
        Option::Some(chars) => " coax-id=\""@ + chars + "\""@,
    }
}

/// The rendering of content.
pub open spec fn render_content(c: ContentV) -> Seq<char>
    decreases c,
{
    match c {
        ContentV::Empty => Seq::empty(),
        ContentV::Raw(t) => t,
        ContentV::Text(t) => escape_text_seq(t),
        ContentV::Element(e) => render_element(*e),
        ContentV::State(d) => d.display,
        ContentV::List(l) => render_content_list(l, 0),
    }
}

/// The concatenated rendering of a content list.
pub open spec fn render_content_list(l: Seq<ContentV>, i: int) -> Seq<char>
    decreases l, l.len() - i,
{
    if i < 0 || i >= l.len() {
        Seq::empty()
    } else {
        render_content(l[i]) + render_content_list(l, i + 1)
    }
}

/// The rendering of an element: tag, attributes, and, unless the tag is a
/// void element, the reactive id attribute, the content, and a closing tag.
pub open spec fn render_element(e: ElementV) -> Seq<char>
    decreases e,
{
    let open_part = "<"@ + e.name + (if e.attrs.len() > 0 {
        " "@ + render_attrs(e.attrs, 0)
    } else {
        Seq::empty()
    });
    if is_void_name(e.name) {
        open_part + " />"@
    } else {
        open_part + render_id_attr(e.id) + ">"@ + render_content(e.content) + "</"@ + e.name
            + ">"@
    }
}

// ---------------------------------------------------------------------------
// Reactivity

/// True when the attribute value reads a state cell.
pub open spec fn attr_value_reactive(v: AttrValueV) -> bool {
    v is State
}

pub open spec fn attr_values_reactive(l: Seq<AttrValueV>) -> bool {
    exists|i: int| 0 <= i < l.len() && attr_value_reactive(#[trigger] l[i])
}

/// True when the attribute reads a state cell.
pub open spec fn attr_reactive(a: AttrV) -> bool {
    match a {
        AttrV::Empty => false,
        AttrV::Value(v) => attr_value_reactive(v),
        AttrV::List(l) => attr_values_reactive(l),
    }
}

/// True when some attribute of the list reads a state cell.
pub open spec fn attrs_reactive(l: Seq<(Seq<char>, AttrV)>) -> bool {
    exists|i: int| 0 <= i < l.len() && attr_reactive((#[trigger] l[i]).1)
}

/// True when the content itself reads a state cell. A child element's
/// reactivity does not make its parent's content reactive: the child gets its
/// own id.
pub open spec fn content_reactive(c: ContentV) -> bool
    decreases c,
{
    match c {
        ContentV::State(_) => true,
        ContentV::List(l) => content_list_reactive(l, 0),
        _ => false,
    }
}

pub open spec fn content_list_reactive(l: Seq<ContentV>, i: int) -> bool
    decreases l, l.len() - i,
{
    if i < 0 || i >= l.len() {
        false
    } else {
        content_reactive(l[i]) || content_list_reactive(l, i + 1)
    }
}

/// True when the element must carry an id: its content or one of its
/// attributes reads a state cell.
pub open spec fn element_reactive(e: ElementV) -> bool {
    content_reactive(e.content) || attrs_reactive(e.attrs)
}

// ---------------------------------------------------------------------------
// Canonicalization

/// True for the two literal content forms, raw and text.
pub open spec fn content_lit(c: ContentV) -> bool {
    c is Raw || c is Text
}

/// The rendered characters of a literal: what the merged raw segment holds.
pub open spec fn content_lit_chars(c: ContentV) -> Seq<char> {
    match c {
        ContentV::Raw(t) => t,
        ContentV::Text(t) => escape_text_seq(t),
        _ => Seq::empty(),
    }
}

/// Canonicalizes each item of a list.
pub open spec fn canon_each(l: Seq<ContentV>, i: int) -> Seq<ContentV>
    decreases l, l.len() - i,
{
    if i < 0 || i >= l.len() {
        Seq::empty()
    } else {
        seq![canon_content(l[i])] + canon_each(l, i + 1)
    }
}

/// Splices nested lists into their parent and drops empty items.
pub open spec fn flatten_drop(l: Seq<ContentV>) -> Seq<ContentV>
    decreases l.len(),
{
    if l.len() == 0 {
        Seq::empty()
    } else {
        match l.first() {
            ContentV::Empty => flatten_drop(l.drop_first()),
            ContentV::List(inner) => inner + flatten_drop(l.drop_first()),
            _ => seq![l.first()] + flatten_drop(l.drop_first()),
        }
    }
}

/// Merges every run of adjacent literal segments into one raw segment whose
/// characters are the concatenation of the run's rendered characters.
pub open spec fn merge_lits(l: Seq<ContentV>) -> Seq<ContentV>
    decreases l.len(),
{
    if l.len() < 2 {
        l
    } else if content_lit(l[0]) && content_lit(l[1]) {
        merge_lits(seq![ContentV::Raw(content_lit_chars(l[0]) + content_lit_chars(l[1]))] + l.skip(
            2,
        ))
    } else {
        seq![l[0]] + merge_lits(l.skip(1))
    }
}

/// The canonical form of content: empty lists collapse away, singleton lists
/// promote to their sole member, nested lists flatten, and adjacent literal
/// segments merge.
pub open spec fn canon_content(c: ContentV) -> ContentV
    decreases c,
{
    match c {
        ContentV::Element(e) => ContentV::Element(Box::new(canon_element(*e))),
        ContentV::List(l) => {
            let items = merge_lits(flatten_drop(canon_each(l, 0)));
            if items.len() == 0 {
                ContentV::Empty
            } else if items.len() == 1 {
                items[0]
            } else {
                ContentV::List(items)
            }
        },
        _ => c,
    }
}

/// The canonical form of an element: its content canonicalized.
pub open spec fn canon_element(e: ElementV) -> ElementV
    decreases e,
{
    ElementV { content: canon_content(e.content), ..e }
}

/// The canonical form of one attribute: an empty list collapses away, a
/// singleton list promotes to a single value, and adjacent literal values
/// merge.
pub open spec fn canon_attr(a: AttrV) -> AttrV {
    match a {
        AttrV::List(l) => {
            let items = merge_attr_lits(l);
            if items.len() == 0 {
                AttrV::Empty
            } else if items.len() == 1 {
                AttrV::Value(items[0])
            } else {
                AttrV::List(items)
            }
        },
        _ => a,
    }
}

/// True for the two literal attribute-value forms.
pub open spec fn attr_value_lit(v: AttrValueV) -> bool {
    v is Raw || v is Text
}

/// The rendered characters of a literal attribute value when merged: text is
/// attribute-escaped, exactly as it would have rendered unmerged, so merging
/// never changes what the attribute renders as.
pub open spec fn attr_value_lit_chars(v: AttrValueV) -> Seq<char> {
    match v {
        AttrValueV::Raw(t) => t,
        AttrValueV::Text(t) => escape_attribute_seq(t),
        _ => Seq::empty(),
    }
}

/// Merges every run of adjacent literal attribute values into one raw value.
pub open spec fn merge_attr_lits(l: Seq<AttrValueV>) -> Seq<AttrValueV>
    decreases l.len(),
{
    if l.len() < 2 {
        l
    } else if attr_value_lit(l[0]) && attr_value_lit(l[1]) {
        merge_attr_lits(
            seq![AttrValueV::Raw(attr_value_lit_chars(l[0]) + attr_value_lit_chars(l[1]))]
                + l.skip(2),
        )
    } else {
        seq![l[0]] + merge_attr_lits(l.skip(1))
    }
}

/// Canonical content: lists hold at least two items, none of them empty or a
/// list, with no two adjacent literals, and every child element's content is
/// canonical in turn.
pub open spec fn content_canonical(c: ContentV) -> bool
    decreases c,
{
    match c {
        ContentV::Element(e) => content_canonical(e.content),
        ContentV::List(l) => {
            &&& l.len() >= 2
            &&& forall|i: int| 0 <= i < l.len() ==> content_canonical(#[trigger] l[i])
            &&& forall|i: int| 0 <= i < l.len() ==> !((#[trigger] l[i]) is List) && !(l[i] is Empty)
            &&& forall|i: int|
                0 <= i < l.len() - 1 ==> !(content_lit(#[trigger] l[i]) && content_lit(l[i + 1]))
        },
        _ => true,
    }
}

// ---------------------------------------------------------------------------
// Id assignment

/// Id assignment for an element: a reactive element without an id receives
/// the next 8 characters of the seeded stream, then the content is walked.
/// Returns the new element and the stream position after it.
pub open spec fn give_ids_element(e: ElementV, seed: u64, start: nat) -> (ElementV, nat)
    decreases e,
{
    let (id, after_id) = if element_reactive(e) && e.id is None {
        (Some(seeded_id_chars(seed, start)), (start + RANDOM_ID_LENGTH) as nat)
    } else {
        (e.id, start)
    };
    let (content, after) = give_ids_content(e.content, seed, after_id);
    (ElementV { id, content, ..e }, after)
}

/// Id assignment for content: only child elements can receive ids.
pub open spec fn give_ids_content(c: ContentV, seed: u64, start: nat) -> (ContentV, nat)
    decreases c,
{
    match c {
        ContentV::Element(e) => {
            let (e2, after) = give_ids_element(*e, seed, start);
            (ContentV::Element(Box::new(e2)), after)
        },
        ContentV::List(l) => {
            let (l2, after) = give_ids_list(l, 0, seed, start);
            (ContentV::List(l2), after)
        },
        _ => (c, start),
    }
}

/// Id assignment for a content list, threading the stream position left to
/// right.
pub open spec fn give_ids_list(l: Seq<ContentV>, i: int, seed: u64, start: nat) -> (
    Seq<ContentV>,
    nat,
)
    decreases l, l.len() - i,
{
    if i < 0 || i >= l.len() {
        (Seq::empty(), start)
    } else {
        let (c2, after_first) = give_ids_content(l[i], seed, start);
        let (rest, after) = give_ids_list(l, i + 1, seed, after_first);
        (seq![c2] + rest, after)
    }
}

} // verus!
