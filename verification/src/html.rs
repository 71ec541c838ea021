//! HTML documents, parsed and searched by the `scraper` crate.
//!
//! A document, its elements and a parsed selector are opaque here.  In
//! specifications a document stands for the tree that was parsed and an
//! element for a place in that tree.  What the extractors read of them (the
//! elements that a selector matches, an element's texts, attributes and
//! classes) is named by the specification functions of this module, and the
//! contracts of the HTML extractors are stated over those names.

use vstd::prelude::*;

verus! {

/// `scraper::Html`, a parsed document.
#[verifier::external_type_specification]
#[verifier::external_body]
pub struct ExHtml(scraper::Html);

/// `scraper::ElementRef`, an element of a parsed document.
#[verifier::external_type_specification]
#[verifier::external_body]
pub struct ExElementRef<'a>(scraper::ElementRef<'a>);

/// `scraper::Selector`, a parsed CSS selector group.
#[verifier::external_type_specification]
#[verifier::external_body]
pub struct ExSelector(scraper::Selector);

/// The document that `scraper` parses from `input`.
pub uninterp spec fn parsed(input: Seq<char>) -> scraper::Html;

/// The selector that `css` writes, if it writes one.
pub uninterp spec fn selector_of(css: Seq<char>) -> Option<scraper::Selector>;

/// The elements of `document` that `selector` matches, in the order in
/// which `scraper` hands them out.
pub uninterp spec fn selected(document: scraper::Html, selector: scraper::Selector) -> Seq<
    scraper::ElementRef<'static>,
>;

/// The elements below `element` that `selector` matches, in the order in
/// which `scraper` hands them out.
pub uninterp spec fn selected_below(
    element: scraper::ElementRef<'static>,
    selector: scraper::Selector,
) -> Seq<scraper::ElementRef<'static>>;

/// The text nodes below `element`, in the order in which `scraper` hands
/// them out.
pub uninterp spec fn texts_of(element: scraper::ElementRef<'static>) -> Seq<Seq<char>>;

/// The value of the attribute `name` of `element`, if it has that attribute.
pub uninterp spec fn attribute_of(element: scraper::ElementRef<'static>, name: Seq<char>) -> Option<
    Seq<char>,
>;

/// Whether `element` has the class `class`, letter case in ASCII set aside.
pub uninterp spec fn has_class_of(element: scraper::ElementRef<'static>, class: Seq<char>) -> bool;

/// `scraper::Html::parse_document`, which parses any text as an HTML
/// document, mending what is malformed as a browser would.
#[verifier::external_body]
pub(crate) fn parse_document(input: &str) -> (document: scraper::Html)
    ensures
        document == parsed(input@),
{
    scraper::Html::parse_document(input)
}

/// `scraper::Selector::parse`, which reads a CSS selector group.
#[verifier::external_body]
pub(crate) fn selector(css: &str) -> (selector: Option<scraper::Selector>)
    ensures
        selector == selector_of(css@),
{
    scraper::Selector::parse(css).ok()
}

/// `scraper::Html::select`: the elements of the document that the selector
/// matches, as the iterator yields them.
#[verifier::external_body]
pub(crate) fn select<'a>(document: &'a scraper::Html, selector: &scraper::Selector) -> (found: Vec<
    scraper::ElementRef<'a>,
>)
    ensures
        found@ == selected(*document, *selector),
{
    document.select(selector).collect()
}

/// `scraper::ElementRef::select`: the elements below the element that the
/// selector matches, as the iterator yields them.
#[verifier::external_body]
pub(crate) fn select_below<'a>(element: scraper::ElementRef<'a>, selector: &scraper::Selector) -> (found:
    Vec<scraper::ElementRef<'a>>)
    ensures
        found@ == selected_below(element, *selector),
{
    element.select(selector).collect()
}

/// `scraper::ElementRef::text`: the text nodes below the element, as the
/// iterator yields them.
#[verifier::external_body]
pub(crate) fn texts(element: scraper::ElementRef) -> (found: Vec<String>)
    ensures
        found.deep_view() == texts_of(element),
{
    element.text().map(String::from).collect()
}

/// `scraper::ElementRef::attr`: the value of an attribute.
#[verifier::external_body]
pub(crate) fn attribute(element: scraper::ElementRef, name: &str) -> (value: Option<String>)
    ensures
        value.deep_view() == attribute_of(element, name@),
{
    element.attr(name).map(String::from)
}

/// `scraper::node::Element::has_class`, asked without regard to letter case
/// in ASCII.
#[verifier::external_body]
pub(crate) fn has_class(element: scraper::ElementRef, class: &str) -> (r: bool)
    ensures
        r == has_class_of(element, class@),
{
    element.value().has_class(class, scraper::CaseSensitivity::AsciiCaseInsensitive)
}

/// The first text node below `element`, if there is one.
pub open spec fn first_text_of(element: scraper::ElementRef<'static>) -> Option<Seq<char>> {
    if texts_of(element).len() > 0 {
        Some(texts_of(element)[0])
    } else {
        None
    }
}

/// The first text node below `element`.
pub fn first_text(element: scraper::ElementRef) -> (text: Option<String>)
    ensures
        text.deep_view() == first_text_of(element),
{
    let mut found = texts(element);
    if found.len() > 0 {
        Some(found.swap_remove(0))
    } else {
        None
    }
}

} // verus!
