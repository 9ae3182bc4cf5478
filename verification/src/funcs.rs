//! Element constructors, one per supported tag name.

use vstd::prelude::*;

use crate::attributes::Attributes;
use crate::content::{view_content, Content};
use crate::element::{view_element, Element};
use crate::model::ElementV;

verus! {

/// An element with the given tag name and no id yet.
pub fn element_of(name: &str, content: Content, attributes: Attributes) -> (r: Element)
    ensures
        view_element(r) == (ElementV {
            id: Option::None,
            name: name@,
            content: view_content(content),
            attrs: attributes@,
        }),
{
    Element { id: None, name: String::from_str(name), content, attributes }
}

/// A `<div>` element.
pub fn div(content: Content, attributes: Attributes) -> (r: Element)
    ensures
        view_element(r) == (ElementV {
            id: Option::None,
            name: "div"@,
            content: view_content(content),
            attrs: attributes@,
        }),
{
    element_of("div", content, attributes)
}

/// A `<html>` element.
pub fn html(content: Content, attributes: Attributes) -> (r: Element)
    ensures
        view_element(r) == (ElementV {
            id: Option::None,
            name: "html"@,
            content: view_content(content),
            attrs: attributes@,
        }),
{
    element_of("html", content, attributes)
}

/// A `<head>` element.
pub fn head(content: Content, attributes: Attributes) -> (r: Element)
    ensures
        view_element(r) == (ElementV {
            id: Option::None,
            name: "head"@,
            content: view_content(content),
            attrs: attributes@,
        }),
{
    element_of("head", content, attributes)
}

/// A `<body>` element.
pub fn body(content: Content, attributes: Attributes) -> (r: Element)
    ensures
        view_element(r) == (ElementV {
            id: Option::None,
            name: "body"@,
            content: view_content(content),
            attrs: attributes@,
        }),
{
    element_of("body", content, attributes)
}

/// A `<p>` element.
pub fn p(content: Content, attributes: Attributes) -> (r: Element)
    ensures
        view_element(r) == (ElementV {
            id: Option::None,
            name: "p"@,
            content: view_content(content),
            attrs: attributes@,
        }),
{
    element_of("p", content, attributes)
}

/// A `<a>` element.
pub fn a(content: Content, attributes: Attributes) -> (r: Element)
    ensures
        view_element(r) == (ElementV {
            id: Option::None,
            name: "a"@,
            content: view_content(content),
            attrs: attributes@,
        }),
{
    element_of("a", content, attributes)
}

/// A `<button>` element.
pub fn button(content: Content, attributes: Attributes) -> (r: Element)
    ensures
        view_element(r) == (ElementV {
            id: Option::None,
            name: "button"@,
            content: view_content(content),
            attrs: attributes@,
        }),
{
    element_of("button", content, attributes)
}

/// A `<section>` element.
pub fn section(content: Content, attributes: Attributes) -> (r: Element)
    ensures
        view_element(r) == (ElementV {
            id: Option::None,
            name: "section"@,
            content: view_content(content),
            attrs: attributes@,
        }),
{
    element_of("section", content, attributes)
}

/// A `<aside>` element.
pub fn aside(content: Content, attributes: Attributes) -> (r: Element)
    ensures
        view_element(r) == (ElementV {
            id: Option::None,
            name: "aside"@,
            content: view_content(content),
            attrs: attributes@,
        }),
{
    element_of("aside", content, attributes)
}

/// A `<main>` element.
pub fn main(content: Content, attributes: Attributes) -> (r: Element)
    ensures
        view_element(r) == (ElementV {
            id: Option::None,
            name: "main"@,
            content: view_content(content),
            attrs: attributes@,
        }),
{
    element_of("main", content, attributes)
}

/// A `<script>` element.
pub fn script(content: Content, attributes: Attributes) -> (r: Element)
    ensures
        view_element(r) == (ElementV {
            id: Option::None,
            name: "script"@,
            content: view_content(content),
            attrs: attributes@,
        }),
{
    element_of("script", content, attributes)
}

/// A `<strong>` element.
pub fn strong(content: Content, attributes: Attributes) -> (r: Element)
    ensures
        view_element(r) == (ElementV {
            id: Option::None,
            name: "strong"@,
            content: view_content(content),
            attrs: attributes@,
        }),
{
    element_of("strong", content, attributes)
}

/// A `<b>` element.
pub fn b(content: Content, attributes: Attributes) -> (r: Element)
    ensures
        view_element(r) == (ElementV {
            id: Option::None,
            name: "b"@,
            content: view_content(content),
            attrs: attributes@,
        }),
{
    element_of("b", content, attributes)
}

/// A `<i>` element.
pub fn i(content: Content, attributes: Attributes) -> (r: Element)
    ensures
        view_element(r) == (ElementV {
            id: Option::None,
            name: "i"@,
            content: view_content(content),
            attrs: attributes@,
        }),
{
    element_of("i", content, attributes)
}

/// A `<em>` element.
pub fn em(content: Content, attributes: Attributes) -> (r: Element)
    ensures
        view_element(r) == (ElementV {
            id: Option::None,
            name: "em"@,
            content: view_content(content),
            attrs: attributes@,
        }),
{
    element_of("em", content, attributes)
}

/// A `<style>` element.
pub fn style(content: Content, attributes: Attributes) -> (r: Element)
    ensures
        view_element(r) == (ElementV {
            id: Option::None,
            name: "style"@,
            content: view_content(content),
            attrs: attributes@,
        }),
{
    element_of("style", content, attributes)
}

/// A `<area>` void element, with no content.
pub fn area(attributes: Attributes) -> (r: Element)
    ensures
        view_element(r) == (ElementV {
            id: Option::None,
            name: "area"@,
            content: crate::model::ContentV::Empty,
            attrs: attributes@,
        }),
{
    element_of("area", Content::Empty, attributes)
}

/// A `<base>` void element, with no content.
pub fn base(attributes: Attributes) -> (r: Element)
    ensures
        view_element(r) == (ElementV {
            id: Option::None,
            name: "base"@,
            content: crate::model::ContentV::Empty,
            attrs: attributes@,
        }),
{
    element_of("base", Content::Empty, attributes)
}

/// A `<br>` void element, with no content.
pub fn br(attributes: Attributes) -> (r: Element)
    ensures
        view_element(r) == (ElementV {
            id: Option::None,
            name: "br"@,
            content: crate::model::ContentV::Empty,
            attrs: attributes@,
        }),
{
    element_of("br", Content::Empty, attributes)
}

/// A `<col>` void element, with no content.
pub fn col(attributes: Attributes) -> (r: Element)
    ensures
        view_element(r) == (ElementV {
            id: Option::None,
            name: "col"@,
            content: crate::model::ContentV::Empty,
            attrs: attributes@,
        }),
{
    element_of("col", Content::Empty, attributes)
}

/// A `<embed>` void element, with no content.
pub fn embed(attributes: Attributes) -> (r: Element)
    ensures
        view_element(r) == (ElementV {
            id: Option::None,
            name: "embed"@,
            content: crate::model::ContentV::Empty,
            attrs: attributes@,
        }),
{
    element_of("embed", Content::Empty, attributes)
}

/// A `<hr>` void element, with no content.
pub fn hr(attributes: Attributes) -> (r: Element)
    ensures
        view_element(r) == (ElementV {
            id: Option::None,
            name: "hr"@,
            content: crate::model::ContentV::Empty,
            attrs: attributes@,
        }),
{
    element_of("hr", Content::Empty, attributes)
}

/// A `<img>` void element, with no content.
pub fn img(attributes: Attributes) -> (r: Element)
    ensures
        view_element(r) == (ElementV {
            id: Option::None,
            name: "img"@,
            content: crate::model::ContentV::Empty,
            attrs: attributes@,
        }),
{
    element_of("img", Content::Empty, attributes)
}

/// A `<input>` void element, with no content.
pub fn input(attributes: Attributes) -> (r: Element)
    ensures
        view_element(r) == (ElementV {
            id: Option::None,
            name: "input"@,
            content: crate::model::ContentV::Empty,
            attrs: attributes@,
        }),
{
    element_of("input", Content::Empty, attributes)
}

/// A `<link>` void element, with no content.
pub fn link(attributes: Attributes) -> (r: Element)
    ensures
        view_element(r) == (ElementV {
            id: Option::None,
            name: "link"@,
            content: crate::model::ContentV::Empty,
            attrs: attributes@,
        }),
{
    element_of("link", Content::Empty, attributes)
}

/// A `<meta>` void element, with no content.
pub fn meta(attributes: Attributes) -> (r: Element)
    ensures
        view_element(r) == (ElementV {
            id: Option::None,
            name: "meta"@,
            content: crate::model::ContentV::Empty,
            attrs: attributes@,
        }),
{
    element_of("meta", Content::Empty, attributes)
}

/// A `<param>` void element, with no content.
pub fn param(attributes: Attributes) -> (r: Element)
    ensures
        view_element(r) == (ElementV {
            id: Option::None,
            name: "param"@,
            content: crate::model::ContentV::Empty,
            attrs: attributes@,
        }),
{
    element_of("param", Content::Empty, attributes)
}

/// A `<source>` void element, with no content.
pub fn source(attributes: Attributes) -> (r: Element)
    ensures
        view_element(r) == (ElementV {
            id: Option::None,
            name: "source"@,
            content: crate::model::ContentV::Empty,
            attrs: attributes@,
        }),
{
    element_of("source", Content::Empty, attributes)
}

/// A `<track>` void element, with no content.
pub fn track(attributes: Attributes) -> (r: Element)
    ensures
        view_element(r) == (ElementV {
            id: Option::None,
            name: "track"@,
            content: crate::model::ContentV::Empty,
            attrs: attributes@,
        }),
{
    element_of("track", Content::Empty, attributes)
}

/// A `<wbr>` void element, with no content.
pub fn wbr(attributes: Attributes) -> (r: Element)
    ensures
        view_element(r) == (ElementV {
            id: Option::None,
            name: "wbr"@,
            content: crate::model::ContentV::Empty,
            attrs: attributes@,
        }),
{
    element_of("wbr", Content::Empty, attributes)
}

} // verus!
