//! The boundary to the outside HTML parser. The library sees a parsed
//! document only as the stream of traversal events named here; everything
//! built on those events is verified in `dom`.

use vstd::prelude::*;

use crate::dom::{flatten, flatten_spec, DomEvent, EventView, FlatNode, NodeView};

verus! {

#[verifier::external_type_specification]
#[verifier::external_body]
pub struct ExHtml(scraper::Html);

/// The traversal events of a parsed document, in document order.
pub uninterp spec fn doc_events(d: scraper::Html) -> Seq<EventView>;

/// The traversal events of the document that parsing the given text yields.
pub uninterp spec fn parse_events(s: Seq<char>) -> Seq<EventView>;

/// Relies on `scraper::Html::parse_document`: it parses HTML text into a
/// document tree, a function of the text alone; malformed markup yields a
/// best-effort tree rather than an error.
#[verifier::external_body]
fn parse_document(html: &str) -> (doc: scraper::Html)
    ensures
        doc_events(doc) == parse_events(html@),
{
    scraper::Html::parse_document(html)
}

/// Relies on ego_tree's `NodeRef::traverse`, which visits every node of the
/// document tree in document order, opening and closing each node in turn.
/// Element names, attributes and text are carried over one for one; other
/// node kinds (the roots, doctypes, comments, processing instructions) come
/// out as blank events.
#[verifier::external_body]
fn traversal_events(doc: &scraper::Html) -> (r: Vec<DomEvent>)
    ensures
        r.deep_view() == doc_events(*doc),
{
    doc.tree.root().traverse().map(|edge| match edge {
        ego_tree::iter::Edge::Open(n) => match n.value() {
            scraper::Node::Element(el) => DomEvent::Open {
                tag: el.name().to_string(),
                attrs: el.attrs().map(|(k, v)| (k.to_string(), v.to_string())).collect(),
            },
            scraper::Node::Text(t) => DomEvent::Text { text: t.to_string() },
            _ => DomEvent::Blank,
        },
        ego_tree::iter::Edge::Close(n) => match n.value() {
            scraper::Node::Element(_) => DomEvent::Close,
            _ => DomEvent::Blank,
        },
    }).collect()
}

/// The flat document that the given markup text parses to.
pub open spec fn doc_spec(html: Seq<char>) -> Seq<NodeView> {
    flatten_spec(parse_events(html))
}

/// Parses markup text into the library's flat document model.
pub fn parse_markup(html: &str) -> (r: Vec<FlatNode>)
    ensures
        r.deep_view() == doc_spec(html@),
{
    let doc = parse_document(html);
    let events = traversal_events(&doc);
    flatten(&events)
}

} // verus!
