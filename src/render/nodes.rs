//! SVG elements, built with the svg crate. An element is opaque here; the
//! contracts speak of it through its tag, its attributes, its element
//! children, its text content and its markup.
use vstd::prelude::*;

use svg::node::element::Element;
use svg::Node;

verus! {

#[verifier::external_type_specification]
#[verifier::external_body]
pub struct ExElement(svg::node::element::Element);

/// The tag name of an element.
pub uninterp spec fn element_tag(e: Element) -> Seq<char>;

/// The attributes of an element, by name.
pub uninterp spec fn element_attrs(e: Element) -> Map<Seq<char>, Seq<char>>;

/// The element children of an element, in order.
pub uninterp spec fn element_children(e: Element) -> Seq<Element>;

/// The text content of a `text` element; `None` for an element made without
/// text.
pub uninterp spec fn element_text(e: Element) -> Option<Seq<char>>;

/// The SVG markup of an element.
pub uninterp spec fn element_markup(e: Element) -> Seq<char>;

/// Relies on svg::node::element::Element::new: an element with tag `name`,
/// no attributes and no children.
#[verifier::external_body]
pub(crate) fn new_element(name: &str) -> (e: Element)
    ensures
        element_tag(e) == name@,
        element_attrs(e).dom() == Set::<Seq<char>>::empty(),
        element_children(e) == Seq::<Element>::empty(),
        element_text(e) is None,
{
    Element::new(name)
}

/// Relies on svg::node::element::SVG::new (svg::Document): the root `svg`
/// element whose one attribute is its namespace, as a plain element.
#[verifier::external_body]
pub(crate) fn document() -> (e: Element)
    ensures
        element_tag(e) == "svg"@,
        element_attrs(e).dom() == set!["xmlns"@],
        element_attrs(e)["xmlns"@] == "http://www.w3.org/2000/svg"@,
        element_children(e) == Seq::<Element>::empty(),
        element_text(e) is None,
{
    svg::Document::new().into()
}

/// Relies on svg::node::element::Text::new: a `text` element with no
/// attributes whose one child is the text node `content`, as a plain
/// element. As a plain element it prints its content inline, without the
/// line breaks that svg's own `Text` element puts around it.
#[verifier::external_body]
pub(crate) fn text_element(content: &str) -> (e: Element)
    ensures
        element_tag(e) == "text"@,
        element_attrs(e).dom() == Set::<Seq<char>>::empty(),
        element_children(e) == Seq::<Element>::empty(),
        element_text(e) == Some(content@),
{
    svg::node::element::Text::new(content).into()
}

/// Relies on svg::Node::assign for Element: sets attribute `name` to `value`.
#[verifier::external_body]
pub(crate) fn with_attr(e: Element, name: &str, value: &str) -> (r: Element)
    ensures
        element_tag(r) == element_tag(e),
        element_attrs(r) == element_attrs(e).insert(name@, value@),
        element_children(r) == element_children(e),
        element_text(r) == element_text(e),
{
    let mut e = e;
    e.assign(name, value);
    e
}

/// Relies on svg::Node::append for Element: adds `child` after the existing
/// children.
#[verifier::external_body]
pub(crate) fn with_child(parent: Element, child: Element) -> (r: Element)
    ensures
        element_tag(r) == element_tag(parent),
        element_attrs(r) == element_attrs(parent),
        element_children(r) == element_children(parent).push(child),
        element_text(r) == element_text(parent),
{
    let mut parent = parent;
    parent.append(child);
    parent
}

/// Relies on Element's Display impl: the element as SVG markup.
#[verifier::external_body]
pub(crate) fn markup(e: &Element) -> (r: String)
    ensures
        r@ == element_markup(*e),
{
    e.to_string()
}

/// `e` has tag `tag`, exactly the attributes `attrs`, the element children
/// `children` and the text `text`.
pub open spec fn is_element(
    e: Element,
    tag: Seq<char>,
    attrs: Map<Seq<char>, Seq<char>>,
    children: Seq<Element>,
    text: Option<Seq<char>>,
) -> bool {
    &&& element_tag(e) == tag
    &&& element_attrs(e) == attrs
    &&& element_children(e) == children
    &&& element_text(e) == text
}

} // verus!
