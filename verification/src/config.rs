//! Page configuration: the layout that wraps a handler's markup and the
//! generated scripts into a full document.

use vstd::prelude::*;

use crate::attributes::Attributes;
use crate::content::Content;
use crate::element::{view_element, Element};
use crate::funcs;
use crate::model::{ContentV, ElementV};

verus! {

/// A page layout: called with the handler's rendered element and the
/// generated script element, it returns the document to send.
pub trait Layout {
    /// Wraps content and scripts into one document element.
    fn call(&self, content: Element, scripts: Element) -> Element;
}

/// The ghost mirror of the default document: an `html` element holding an
/// empty `head` and a `body` with the content and the scripts.
pub open spec fn default_layout_v(content: ElementV, scripts: ElementV) -> ElementV {
    ElementV {
        id: Option::None,
        name: "html"@,
        content: ContentV::List(
            seq![
                ContentV::Element(
                    Box::new(
                        ElementV {
                            id: Option::None,
                            name: "head"@,
                            content: ContentV::Empty,
                            attrs: Seq::empty(),
                        },
                    ),
                ),
                ContentV::Element(
                    Box::new(
                        ElementV {
                            id: Option::None,
                            name: "body"@,
                            content: ContentV::List(
                                seq![
                                    ContentV::Element(Box::new(content)),
                                    ContentV::Element(Box::new(scripts)),
                                ],
                            ),
                            attrs: Seq::empty(),
                        },
                    ),
                ),
            ],
        ),
        attrs: Seq::empty(),
    }
}

/// Builds the default document around content and scripts.
pub fn default_layout(content: Element, scripts: Element) -> (r: Element)
    ensures
        view_element(r) == default_layout_v(view_element(content), view_element(scripts)),
{
    let ghost content_v = view_element(content);
    let ghost scripts_v = view_element(scripts);
    let mut body_items: Vec<Content> = Vec::new();
    body_items.push(Content::Element(Box::new(content)));
    body_items.push(Content::Element(Box::new(scripts)));
    proof {
        crate::content::lemma_content_views_len(body_items@, 0);
        crate::content::lemma_content_views_index(body_items@, 0, 0);
        crate::content::lemma_content_views_index(body_items@, 0, 1);
        assert(crate::content::content_views(body_items@, 0) =~= seq![
            ContentV::Element(Box::new(content_v)),
            ContentV::Element(Box::new(scripts_v)),
        ]);
    }
    let body_el = funcs::body(Content::List(body_items), Attributes::new_empty());
    let head_el = funcs::head(Content::Empty, Attributes::new_empty());
    let mut html_items: Vec<Content> = Vec::new();
    let ghost head_v = view_element(head_el);
    let ghost body_v = view_element(body_el);
    html_items.push(Content::Element(Box::new(head_el)));
    html_items.push(Content::Element(Box::new(body_el)));
    proof {
        crate::content::lemma_content_views_len(html_items@, 0);
        crate::content::lemma_content_views_index(html_items@, 0, 0);
        crate::content::lemma_content_views_index(html_items@, 0, 1);
        assert(crate::content::content_views(html_items@, 0) =~= seq![
            ContentV::Element(Box::new(head_v)),
            ContentV::Element(Box::new(body_v)),
        ]);
    }
    let r = funcs::html(Content::List(html_items), Attributes::new_empty());
    proof {
        assert(view_element(r) == default_layout_v(content_v, scripts_v));
    }
    r
}

/// The layout used when none is configured.
pub struct DefaultLayout;

impl Layout for DefaultLayout {
    fn call(&self, content: Element, scripts: Element) -> Element {
        default_layout(content, scripts)
    }
}

/// Configuration: the layout to wrap every page with. Added as a layer on
/// the routes by the surrounding application.
pub struct Config<L> {
    /// The layout.
    pub layout: L,
}

impl<L: Layout> Config<L> {
    /// A configuration using the given layout.
    pub fn with_layout(layout: L) -> (r: Config<L>)
        ensures
            r == (Config { layout }),
    {
        Config { layout }
    }
}

impl Default for Config<DefaultLayout> {
    /// The configuration with the default document layout.
    fn default() -> (r: Self)
        ensures
            r == (Config { layout: DefaultLayout }),
    {
        Config { layout: DefaultLayout }
    }
}

} // verus!
