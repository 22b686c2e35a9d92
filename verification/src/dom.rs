//! The markup document: an arena of nodes built by the `select` crate, which this
//! library queries and never looks into.
//!
//! Nothing in this file is proved. Each function hands one question to `select`
//! and each spec function below names the answer, which depends on the document
//! and the arguments alone. Nodes are known by their index in the document.
use crate::text::option_text;
use select::document::Document;
use select::predicate::{Class, Name, Predicate};
use vstd::prelude::*;

verus! {

/// `select::document::Document`, a parsed page. It is carried from the parser
/// to the queries; nothing is said of what is inside.
#[verifier::external_type_specification]
#[verifier::external_body]
pub struct ExDocument(select::document::Document);

/// The largest markup, in bytes, that is handed to the parser: 512 MiB. The
/// parser keeps each text that it builds in a buffer of 32 bits, which grows by
/// doubling and so holds 2^31 bytes at most, and it writes up to three bytes for
/// one byte that it reads. A markup within this bound keeps every such text
/// within its buffer.
pub const MAX_MARKUP: usize = 536_870_912;

/// The document that `Document::from` builds from a markup text.
pub uninterp spec fn parsed_document(markup: Seq<char>) -> Document;

/// The nodes that `Document::find` yields for the predicate `Class(class)`: those
/// of the whole document that carry the class, in document order.
pub uninterp spec fn nodes_with_class(doc: Document, class: Seq<char>) -> Seq<usize>;

/// The nodes that `Node::find` yields below `node` for the predicate `Class(class)`,
/// in document order; none where the document has no such node.
pub uninterp spec fn descendants_with_class(doc: Document, node: usize, class: Seq<char>) -> Seq<
    usize,
>;

/// The nodes that `Node::find` yields below `node` for the predicate
/// `Class(class).child(Name(name))`: the elements called `name` whose parent carries
/// the class, in document order; none where the document has no such node.
pub uninterp spec fn descendants_named_in_class(
    doc: Document,
    node: usize,
    class: Seq<char>,
    name: Seq<char>,
) -> Seq<usize>;

/// What `Node::text` returns for a node: its text and that of everything below it.
/// `None` where the document has no such node.
pub uninterp spec fn text_of(doc: Document, node: usize) -> Option<Seq<char>>;

/// What `Node::attr` returns for a node and an attribute's name. `None` where the
/// node has no such attribute or the document no such node.
pub uninterp spec fn attribute_of(doc: Document, node: usize, name: Seq<char>) -> Option<
    Seq<char>,
>;

/// Calls `Document::from` on a markup text of `MAX_MARKUP` bytes at most, which
/// keeps the parser's texts within their buffers. The document is built by
/// descending into the page, so what can be taken is also bounded by the
/// stack: a page nested too deep ends the process. The contract only names the
/// document that is built.
#[verifier::external_body]
pub(crate) fn parse_document(markup: &str) -> (doc: Document)
    requires
        markup.len() <= MAX_MARKUP,
    ensures
        doc == parsed_document(markup@),
{
    Document::from(markup)
}

/// Calls `Document::find` with `Class(class)` and hands out the index of each node
/// found, in the order found.
#[verifier::external_body]
pub(crate) fn find_class(doc: &Document, class: &str) -> (found: Vec<usize>)
    ensures
        found@ == nodes_with_class(*doc, class@),
{
    doc.find(Class(class)).map(|hit| hit.index()).collect()
}

/// Calls `Node::find` with `Class(class)` on the node at an index and hands out the
/// index of each node found, in the order found.
#[verifier::external_body]
pub(crate) fn find_class_below(doc: &Document, node: usize, class: &str) -> (found: Vec<usize>)
    ensures
        found@ == descendants_with_class(*doc, node, class@),
{
    doc.nth(node).into_iter().flat_map(|scope| scope.find(Class(class))).map(|hit| hit.index()).collect()
}

/// Calls `Node::find` with `Class(class).child(Name(name))` on the node at an index
/// and hands out the index of each node found, in the order found.
#[verifier::external_body]
pub(crate) fn find_named_in_class_below(doc: &Document, node: usize, class: &str, name: &str) -> (found:
    Vec<usize>)
    ensures
        found@ == descendants_named_in_class(*doc, node, class@, name@),
{
    doc.nth(node).into_iter().flat_map(|scope| scope.find(Class(class).child(Name(name)))).map(
        |hit| hit.index(),
    ).collect()
}

/// Calls `Node::text` on the node at an index.
#[verifier::external_body]
pub(crate) fn node_text(doc: &Document, node: usize) -> (text: Option<String>)
    ensures
        option_text(text) == text_of(*doc, node),
{
    doc.nth(node).map(|found| found.text())
}

/// Calls `Node::attr` on the node at an index and copies the value found.
#[verifier::external_body]
pub(crate) fn node_attr(doc: &Document, node: usize, name: &str) -> (value: Option<String>)
    ensures
        option_text(value) == attribute_of(*doc, node, name@),
{
    doc.nth(node).and_then(|found| found.attr(name)).map(|text| text.to_owned())
}

} // verus!
