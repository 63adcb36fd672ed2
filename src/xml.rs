//! XML documents as a flat list of nodes, read by roxmltree.
use vstd::prelude::*;
use crate::text::str_eq;

verus! {

/// One node of an XML document. The document's nodes are listed in document
/// order, which is pre-order; `parent` is the position of the parent node in
/// that list, and position 0 holds the document node itself.
pub struct XmlItem {
    /// An element, as opposed to text, a comment, a processing instruction or
    /// the document node.
    pub element: bool,
    /// The element's local name; empty for other nodes.
    pub tag: String,
    /// The element's attributes, by local name, in document order.
    pub attributes: Vec<(String, String)>,
    /// An element's first child where that is text, or the node's own text.
    pub text: Option<String>,
    pub parent: Option<usize>,
}

#[verifier::external_type_specification]
#[verifier::external_body]
pub struct ExXmlError(roxmltree::Error);

/// The node list that roxmltree makes of a text; `None` where it does not
/// take the text as XML.
pub uninterp spec fn xml_items_of(text: Seq<char>) -> Option<Seq<XmlItem>>;

/// Relies on `roxmltree::Document::parse`, whose result depends on the text
/// alone, and on `Document::descendants`, which walks the document's node
/// arena in order, so that a node's position in the list is its `NodeId`.
#[verifier::external_body]
pub(crate) fn parse_xml(text: &str) -> (r: Result<Vec<XmlItem>, roxmltree::Error>)
    ensures
        r is Ok <==> xml_items_of(text@) is Some,
        r matches Ok(items) ==> xml_items_of(text@) == Some(items@),
{
    let doc = roxmltree::Document::parse(text)?;
    Ok(doc.descendants().map(|n| XmlItem {
        element: n.is_element(),
        tag: n.tag_name().name().to_string(),
        attributes: n.attributes().map(|a| (a.name().to_string(), a.value().to_string())).collect(),
        text: n.text().map(|t| t.to_string()),
        parent: n.parent().map(|p| p.id().get_usize()),
    }).collect())
}

/// The value of the first attribute named `name`.
pub open spec fn attr_value(attrs: Seq<(String, String)>, name: Seq<char>) -> Option<Seq<char>>
    decreases attrs.len(),
{
    if attrs.len() == 0 {
        None
    } else if attrs[0].0@ == name {
        Some(attrs[0].1@)
    } else {
        attr_value(attrs.drop_first(), name)
    }
}

pub fn attribute<'a>(item: &'a XmlItem, name: &str) -> (r: Option<&'a String>)
    ensures
        match attr_value(item.attributes@, name@) {
            Some(v) => r matches Some(s) && s@ == v,
            None => r is None,
        },
{
    let attrs = &item.attributes;
    let mut i: usize = 0;
    assert(attrs@.skip(0) == attrs@);
    while i < attrs.len()
        invariant
            i <= attrs@.len(),
            attrs@ == item.attributes@,
            attr_value(attrs@, name@) == attr_value(attrs@.skip(i as int), name@),
        decreases attrs@.len() - i,
    {
        assert(attrs@.skip(i as int).drop_first() == attrs@.skip(i + 1));
        assert(attrs@.skip(i as int)[0] == attrs@[i as int]);
        let pair = &attrs[i];
        if str_eq(pair.0.as_str(), name) {
            assert(attr_value(attrs@.skip(i as int), name@) == Some(pair.1@));
            return Some(&pair.1);
        }
        i = i + 1;
    }
    assert(attrs@.skip(i as int).len() == 0);
    None
}

} // verus!
