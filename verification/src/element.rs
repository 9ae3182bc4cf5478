//! Markup elements: a tag name, attributes, content, and an optional
//! reactive id.

use vstd::prelude::*;

use crate::attributes::Attributes;
use crate::content::{view_content, Content};
use crate::model::{
    canon_element, element_reactive, give_ids_element, is_void_name, render_element, ElementV,
};
use crate::random_id::{IdSource, RandomId};
use crate::reactive_js::{
    add_descs, compile_attrs, compile_content, compile_element, compilable_element,
    lemma_add_descs_concat, Reactivity,
};
use crate::strutil::str_eq;

verus! {

/// One markup element.
#[derive(Debug, PartialEq)]
pub struct Element {
    /// The reactive id, present when the element is a patch target.
    pub id: Option<RandomId>,
    /// The tag name.
    pub name: String,
    /// The element's content.
    pub content: Content,
    /// The element's attributes.
    pub attributes: Attributes,
}

/// The ghost mirror of an element.
pub open spec fn view_element(e: Element) -> ElementV
    decreases e,
{
    ElementV {
        id: match e.id {
            Option::Some(id) => Option::Some(id@),
            Option::None => Option::None,
        },
        name: e.name@,
        content: view_content(e.content),
        attrs: e.attributes@,
    }
}

/// Whether `name` is one of the void element names.
pub fn is_void_element(name: &str) -> (r: bool)
    ensures
        r == is_void_name(name@),
{
    if str_eq(name, "area") {
        return true;
    }
    if str_eq(name, "base") {
        return true;
    }
    if str_eq(name, "br") {
        return true;
    }
    if str_eq(name, "col") {
        return true;
    }
    if str_eq(name, "embed") {
        return true;
    }
    if str_eq(name, "hr") {
        return true;
    }
    if str_eq(name, "img") {
        return true;
    }
    if str_eq(name, "input") {
        return true;
    }
    if str_eq(name, "link") {
        return true;
    }
    if str_eq(name, "meta") {
        return true;
    }
    if str_eq(name, "param") {
        return true;
    }
    if str_eq(name, "source") {
        return true;
    }
    if str_eq(name, "track") {
        return true;
    }
    if str_eq(name, "wbr") {
        return true;
    }
    false
}

impl Element {
    /// Canonicalizes the element's content in place.
    pub fn optimize(&mut self)
        ensures
            view_element(*final(self)) == canon_element(view_element(*old(self))),
    {
        self.content.optimize();
    }

    /// Canonicalization, consuming the element.
    pub fn into_optimized(self) -> (r: Element)
        ensures
            view_element(r) == canon_element(view_element(self)),
        decreases self,
    {
        let mut e = self;
        let mut tmp = Content::Empty;
        core::mem::swap(&mut tmp, &mut e.content);
        e.content = tmp.into_optimized();
        e
    }

    /// Whether the element's content or attributes read a state cell.
    pub fn is_reactive(&self) -> (r: bool)
        ensures
            r == element_reactive(view_element(*self)),
    {
        self.content.is_reactive() || self.attributes.is_reactive()
    }

    /// Gives this element an id if it is reactive and lacks one, then walks
    /// its content, drawing ids from `src`.
    pub fn give_ids(&mut self, src: &mut IdSource)
        ensures
            ({
                let (e2, after) = give_ids_element(
                    view_element(*old(self)),
                    old(src).seed(),
                    old(src).drawn(),
                );
                view_element(*final(self)) == e2 && final(src).drawn() == after && final(src).seed() == old(src).seed()
            }),
    {
        if self.is_reactive() && self.id.is_none() {
            self.id = Some(RandomId::from_rng(src));
        }
        self.content.give_ids(src);
        proof {
            assert(view_element(*self).id == give_ids_element(
                view_element(*old(self)),
                old(src).seed(),
                old(src).drawn(),
            ).0.id);
        }
    }

    /// Id assignment, consuming the element.
    pub fn with_ids(self, src: &mut IdSource) -> (r: Element)
        ensures
            ({
                let (e2, after) = give_ids_element(
                    view_element(self),
                    old(src).seed(),
                    old(src).drawn(),
                );
                view_element(r) == e2 && final(src).drawn() == after && final(src).seed() == old(
                    src,
                ).seed()
            }),
        decreases self,
    {
        let mut e = self;
        if e.is_reactive() && e.id.is_none() {
            e.id = Some(RandomId::from_rng(src));
        }
        let mut tmp = Content::Empty;
        core::mem::swap(&mut tmp, &mut e.content);
        e.content = tmp.with_ids(src);
        e
    }

    /// Appends the element's rendering to `output`.
    pub fn render(&self, output: &mut String)
        ensures
            final(output)@ == old(output)@ + render_element(view_element(*self)),
        decreases *self,
    {
        output.append("<");
        output.append(self.name.as_str());

        if !self.attributes.is_empty() {
            output.append(" ");
            self.attributes.render(output);
        }

        if is_void_element(self.name.as_str()) {
            output.append(" />");
            return ;
        }

        if let Some(id) = &self.id {
            output.append(" coax-id=\"");
            id.fmt(output);
            output.append("\"");
        }

        output.append(">");

        self.content.render(output);

        output.append("</");
        output.append(self.name.as_str());
        output.append(">");
    }

    /// Compiles this element's patch descriptors: its content's under the
    /// element's id, then its reactive attributes'.
    pub fn reactivity(&self, reactivity: &mut Reactivity)
        requires
            compilable_element(view_element(*self)),
        ensures
            final(reactivity)@ == add_descs(
                old(reactivity)@,
                compile_element(view_element(*self)),
                0,
            ),
        decreases *self,
    {
        let ghost ev = view_element(*self);
        let eid_ref = self.id.as_ref();
        proof {
            assert(crate::random_id::opt_id_view(eid_ref) == ev.id);
        }
        let ghost r0 = reactivity@;
        proof {
            assert(forall|i: int|
                0 <= i < ev.attrs.len() ==> crate::reactive_js::attr_closure_free(
                    (#[trigger] ev.attrs[i]).1,
                ));
        }
        self.content.reactivity(eid_ref, reactivity);
        self.attributes.reactivity(eid_ref, reactivity);
        proof {
            lemma_add_descs_concat(
                r0,
                compile_content(ev.content, ev.id),
                compile_attrs(ev.attrs, 0, ev.id),
            );
        }
    }

    /// The element's attributes.
    pub fn attributes(&self) -> (r: &Attributes)
        ensures
            r@ == view_element(*self).attrs,
    {
        &self.attributes
    }
}

} // verus!
