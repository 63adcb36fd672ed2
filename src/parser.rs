//! Building a document from its markup.
//!
//! A document is a `capsule` element holding a `meta` section (a `title` and
//! `script`s) and a `view` section: the tree of `obj`, `br`, `text` and
//! `script` elements. An attribute value that cannot be read is left out with
//! a warning; an element of an unknown kind is left out, with its subtree and
//! a warning.
use vstd::prelude::*;
use crate::color::{color_of, css_color_of, try_parse_color};
use crate::event::CapsuleObjectEvent;
use crate::scene::{CapsuleObjectKind, CapsuleObjectCreationContext};
use crate::style::{
    COAlignItems, CODimension, COFlexDirection, COJustifyContent, Styling, dimension_of,
    try_parse_dimension,
};
use crate::text::str_eq;
use crate::xml::{XmlItem, attr_value, attribute};

verus! {

/// A problem that loading went past.
#[derive(Debug)]
pub enum ParseWarning {
    /// An attribute whose value could not be read; it was left out.
    BadProperty { name: String, value: String },
    /// An element of a kind that has no node; it was left out with its subtree.
    UnknownNodeKind { tag: String },
}

/// What a warning says, as character sequences.
pub enum WarningView {
    BadProperty(Seq<char>, Seq<char>),
    UnknownNodeKind(Seq<char>),
}

impl View for ParseWarning {
    type V = WarningView;

    open spec fn view(&self) -> WarningView {
        match self {
            ParseWarning::BadProperty { name, value } => WarningView::BadProperty(name@, value@),
            ParseWarning::UnknownNodeKind { tag } => WarningView::UnknownNodeKind(tag@),
        }
    }
}

pub open spec fn warnings_view(w: Seq<ParseWarning>) -> Seq<WarningView> {
    w.map_values(|x: ParseWarning| x@)
}

/// The height of a line break, in thousandths of a pixel.
pub const BR_LINE_HEIGHT: i64 = 20_000;

pub open spec fn bad_if(name: Seq<char>, v: Option<Seq<char>>, ok: bool) -> Seq<WarningView> {
    match v {
        Some(t) => if ok {
            Seq::empty()
        } else {
            seq![WarningView::BadProperty(name, t)]
        },
        None => Seq::empty(),
    }
}

/// The style after reading the `align` attribute; a value that cannot be
/// read leaves the style as it is.
pub open spec fn step_align(s: Styling, at: Seq<(String, String)>) -> Styling {
    match attr_value(at, "align"@) {
        Some(t) => match COAlignItems::marked(t) {
            Some(a) => Styling { align: a, ..s },
            None => s,
        },
        None => s,
    }
}

/// The warning for a `align` attribute that cannot be read.
pub open spec fn warn_align(at: Seq<(String, String)>) -> Seq<WarningView> {
    bad_if("align"@, attr_value(at, "align"@), attr_value(at, "align"@) matches Some(t) && COAlignItems::marked(t) is Some)
}

/// The style after reading the `justify` attribute; a value that cannot be
/// read leaves the style as it is.
pub open spec fn step_justify(s: Styling, at: Seq<(String, String)>) -> Styling {
    match attr_value(at, "justify"@) {
        Some(t) => match COJustifyContent::marked(t) {
            Some(a) => Styling { justify: a, ..s },
            None => s,
        },
        None => s,
    }
}

/// The warning for a `justify` attribute that cannot be read.
pub open spec fn warn_justify(at: Seq<(String, String)>) -> Seq<WarningView> {
    bad_if("justify"@, attr_value(at, "justify"@), attr_value(at, "justify"@) matches Some(t) && COJustifyContent::marked(t) is Some)
}

/// The style after reading the `flexdir` attribute; a value that cannot be
/// read leaves the style as it is.
pub open spec fn step_flexdir(s: Styling, at: Seq<(String, String)>) -> Styling {
    match attr_value(at, "flexdir"@) {
        Some(t) => match COFlexDirection::marked(t) {
            Some(a) => Styling { flexdir: a, ..s },
            None => s,
        },
        None => s,
    }
}

/// The warning for a `flexdir` attribute that cannot be read.
pub open spec fn warn_flexdir(at: Seq<(String, String)>) -> Seq<WarningView> {
    bad_if("flexdir"@, attr_value(at, "flexdir"@), attr_value(at, "flexdir"@) matches Some(t) && COFlexDirection::marked(t) is Some)
}

/// The style after reading the `color` attribute; a value that cannot be
/// read leaves the style as it is.
pub open spec fn step_color(s: Styling, at: Seq<(String, String)>) -> Styling {
    match attr_value(at, "color"@) {
        Some(t) => match color_of(css_color_of(t), t) {
            Some(a) => Styling { color: Some(a), ..s },
            None => s,
        },
        None => s,
    }
}

/// The warning for a `color` attribute that cannot be read.
pub open spec fn warn_color(at: Seq<(String, String)>) -> Seq<WarningView> {
    bad_if("color"@, attr_value(at, "color"@), attr_value(at, "color"@) matches Some(t) && color_of(css_color_of(t), t) is Some)
}

/// The style after reading the `width` attribute; a value that cannot be
/// read leaves the style as it is.
pub open spec fn step_width(s: Styling, at: Seq<(String, String)>) -> Styling {
    match attr_value(at, "width"@) {
        Some(t) => match dimension_of(t) {
            Some(a) => Styling { width: Some(a), ..s },
            None => s,
        },
        None => s,
    }
}

/// The warning for a `width` attribute that cannot be read.
pub open spec fn warn_width(at: Seq<(String, String)>) -> Seq<WarningView> {
    bad_if("width"@, attr_value(at, "width"@), attr_value(at, "width"@) matches Some(t) && dimension_of(t) is Some)
}

/// The style after reading the `height` attribute; a value that cannot be
/// read leaves the style as it is.
pub open spec fn step_height(s: Styling, at: Seq<(String, String)>) -> Styling {
    match attr_value(at, "height"@) {
        Some(t) => match dimension_of(t) {
            Some(a) => Styling { height: Some(a), ..s },
            None => s,
        },
        None => s,
    }
}

/// The warning for a `height` attribute that cannot be read.
pub open spec fn warn_height(at: Seq<(String, String)>) -> Seq<WarningView> {
    bad_if("height"@, attr_value(at, "height"@), attr_value(at, "height"@) matches Some(t) && dimension_of(t) is Some)
}

/// The style that an element's attributes give it, starting from the default
/// style; a line break has no width and one line's height whatever it says.
pub open spec fn element_style(item: XmlItem) -> Styling {
    let at = item.attributes@;
    let s = step_height(
        step_width(
            step_color(step_flexdir(step_justify(step_align(Styling::spec_default(), at), at), at), at),
            at,
        ),
        at,
    );
    if item.tag@ == "br"@ {
        Styling {
            width: Some(CODimension::Points(0)),
            height: Some(CODimension::Points(BR_LINE_HEIGHT)),
            ..s
        }
    } else {
        s
    }
}

/// The warnings for an element's attributes that cannot be read, in the
/// order the attributes are read.
pub open spec fn attribute_warnings(item: XmlItem) -> Seq<WarningView> {
    let at = item.attributes@;
    warn_align(at) + warn_justify(at) + warn_flexdir(at) + warn_color(at) + warn_width(at)
        + warn_height(at)
}

/// The element kinds that make nodes.
pub open spec fn known_tag(tag: Seq<char>) -> bool {
    tag == "obj"@ || tag == "br"@ || tag == "text"@ || tag == "script"@
}

/// An element's text; empty where it has none.
pub open spec fn item_text(item: XmlItem) -> Seq<char> {
    match item.text {
        Some(t) => t@,
        None => Seq::empty(),
    }
}

/// `kind` is the node kind of an element of a known kind.
pub open spec fn kind_of_element(kind: CapsuleObjectKind, item: XmlItem) -> bool {
    if item.tag@ == "text"@ {
        kind matches CapsuleObjectKind::Text(t) && t@ == item_text(item)
    } else if item.tag@ == "script"@ {
        kind matches CapsuleObjectKind::Script(t) && t@ == item_text(item)
    } else {
        kind is Obj
    }
}

/// The events that an element registers: its `onclick` handler, if any.
pub open spec fn element_events(item: XmlItem) -> Seq<(Seq<char>, Seq<char>)> {
    match attr_value(item.attributes@, "onclick"@) {
        Some(cb) => seq![("onclick"@, cb)],
        None => Seq::empty(),
    }
}

pub open spec fn events_view(e: Seq<CapsuleObjectEvent>) -> Seq<(Seq<char>, Seq<char>)> {
    e.map_values(|x: CapsuleObjectEvent| (x.name@, x.callback@))
}

pub open spec fn id_view(id: Option<String>) -> Option<Seq<char>> {
    match id {
        Some(s) => Some(s@),
        None => None,
    }
}

/// The node that an element makes, as `element_style`, `kind_of_element` and
/// `element_events` describe it.
pub open spec fn node_of_element(ns: CapsuleObjectCreationContext, item: XmlItem) -> bool {
    &&& kind_of_element(ns.kind, item)
    &&& ns.style == element_style(item)
    &&& events_view(ns.events@) == element_events(item)
    &&& id_view(ns.id) == attr_value(item.attributes@, "id"@)
}

fn warn_bad(warnings: &mut Vec<ParseWarning>, name: &str, value: &String)
    ensures
        warnings_view(final(warnings)@) == warnings_view(old(warnings)@).push(
            WarningView::BadProperty(name@, value@),
        ),
{
    let ghost before = warnings@;
    warnings.push(ParseWarning::BadProperty { name: String::from_str(name), value: value.clone() });
    assert(warnings_view(warnings@) =~= warnings_view(before).push(
        WarningView::BadProperty(name@, value@),
    ));
}

fn read_align(item: &XmlItem, style: &mut Styling, warnings: &mut Vec<ParseWarning>)
    ensures
        *final(style) == step_align(*old(style), item.attributes@),
        warnings_view(final(warnings)@) == warnings_view(old(warnings)@) + warn_align(item.attributes@),
{
    if let Some(v) = attribute(item, "align") {
        match COAlignItems::from_markup(v.as_str()) {
            Some(a) => {
                style.align = a;
                assert(warnings_view(warnings@) =~= warnings_view(old(warnings)@) + warn_align(item.attributes@));
            },
            None => warn_bad(warnings, "align", v),
        }
    } else {
        assert(warnings_view(warnings@) =~= warnings_view(old(warnings)@) + warn_align(item.attributes@));
    }
}

fn read_justify(item: &XmlItem, style: &mut Styling, warnings: &mut Vec<ParseWarning>)
    ensures
        *final(style) == step_justify(*old(style), item.attributes@),
        warnings_view(final(warnings)@) == warnings_view(old(warnings)@) + warn_justify(item.attributes@),
{
    if let Some(v) = attribute(item, "justify") {
        match COJustifyContent::from_markup(v.as_str()) {
            Some(a) => {
                style.justify = a;
                assert(warnings_view(warnings@) =~= warnings_view(old(warnings)@) + warn_justify(item.attributes@));
            },
            None => warn_bad(warnings, "justify", v),
        }
    } else {
        assert(warnings_view(warnings@) =~= warnings_view(old(warnings)@) + warn_justify(item.attributes@));
    }
}

fn read_flexdir(item: &XmlItem, style: &mut Styling, warnings: &mut Vec<ParseWarning>)
    ensures
        *final(style) == step_flexdir(*old(style), item.attributes@),
        warnings_view(final(warnings)@) == warnings_view(old(warnings)@) + warn_flexdir(item.attributes@),
{
    if let Some(v) = attribute(item, "flexdir") {
        match COFlexDirection::from_markup(v.as_str()) {
            Some(a) => {
                style.flexdir = a;
                assert(warnings_view(warnings@) =~= warnings_view(old(warnings)@) + warn_flexdir(item.attributes@));
            },
            None => warn_bad(warnings, "flexdir", v),
        }
    } else {
        assert(warnings_view(warnings@) =~= warnings_view(old(warnings)@) + warn_flexdir(item.attributes@));
    }
}

fn read_color(item: &XmlItem, style: &mut Styling, warnings: &mut Vec<ParseWarning>)
    ensures
        *final(style) == step_color(*old(style), item.attributes@),
        warnings_view(final(warnings)@) == warnings_view(old(warnings)@) + warn_color(item.attributes@),
{
    if let Some(v) = attribute(item, "color") {
        match try_parse_color(v.as_str()) {
            Some(a) => {
                style.color = Some(a);
                assert(warnings_view(warnings@) =~= warnings_view(old(warnings)@) + warn_color(item.attributes@));
            },
            None => warn_bad(warnings, "color", v),
        }
    } else {
        assert(warnings_view(warnings@) =~= warnings_view(old(warnings)@) + warn_color(item.attributes@));
    }
}

fn read_width(item: &XmlItem, style: &mut Styling, warnings: &mut Vec<ParseWarning>)
    ensures
        *final(style) == step_width(*old(style), item.attributes@),
        warnings_view(final(warnings)@) == warnings_view(old(warnings)@) + warn_width(item.attributes@),
{
    if let Some(v) = attribute(item, "width") {
        match try_parse_dimension(v.as_str()) {
            Some(a) => {
                style.width = Some(a);
                assert(warnings_view(warnings@) =~= warnings_view(old(warnings)@) + warn_width(item.attributes@));
            },
            None => warn_bad(warnings, "width", v),
        }
    } else {
        assert(warnings_view(warnings@) =~= warnings_view(old(warnings)@) + warn_width(item.attributes@));
    }
}

fn read_height(item: &XmlItem, style: &mut Styling, warnings: &mut Vec<ParseWarning>)
    ensures
        *final(style) == step_height(*old(style), item.attributes@),
        warnings_view(final(warnings)@) == warnings_view(old(warnings)@) + warn_height(item.attributes@),
{
    if let Some(v) = attribute(item, "height") {
        match try_parse_dimension(v.as_str()) {
            Some(a) => {
                style.height = Some(a);
                assert(warnings_view(warnings@) =~= warnings_view(old(warnings)@) + warn_height(item.attributes@));
            },
            None => warn_bad(warnings, "height", v),
        }
    } else {
        assert(warnings_view(warnings@) =~= warnings_view(old(warnings)@) + warn_height(item.attributes@));
    }
}

/// Reads an element's style attributes, appending a warning for each value
/// that cannot be read.
pub fn element_style_of(item: &XmlItem, warnings: &mut Vec<ParseWarning>) -> (r: Styling)
    ensures
        r == element_style(*item),
        warnings_view(final(warnings)@) == warnings_view(old(warnings)@) + attribute_warnings(*item),
{
    let mut style = Styling::default();
    read_align(item, &mut style, warnings);
    read_justify(item, &mut style, warnings);
    read_flexdir(item, &mut style, warnings);
    read_color(item, &mut style, warnings);
    read_width(item, &mut style, warnings);
    read_height(item, &mut style, warnings);
    if str_eq(item.tag.as_str(), "br") {
        style.width = Some(CODimension::Points(0));
        style.height = Some(CODimension::Points(BR_LINE_HEIGHT));
    }
    assert(warnings_view(warnings@) =~= warnings_view(old(warnings)@) + attribute_warnings(*item));
    style
}

/// The warnings that reading an element gives: its attributes' and, where
/// its kind is unknown, that.
pub open spec fn element_warnings(item: XmlItem) -> Seq<WarningView> {
    attribute_warnings(item) + if known_tag(item.tag@) {
        Seq::empty()
    } else {
        seq![WarningView::UnknownNodeKind(item.tag@)]
    }
}

/// The node that an element makes, with its warnings; `None`, with a warning,
/// for an element of an unknown kind.
pub fn element_node(item: &XmlItem, warnings: &mut Vec<ParseWarning>) -> (r: Option<CapsuleObjectCreationContext>)
    ensures
        r is Some <==> known_tag(item.tag@),
        r matches Some(ns) ==> node_of_element(ns, *item),
        warnings_view(final(warnings)@) == warnings_view(old(warnings)@) + element_warnings(*item),
{
    let style = element_style_of(item, warnings);
    let ghost w1 = warnings_view(warnings@);
    let text = match &item.text {
        Some(t) => t.clone(),
        None => String::new(),
    };
    let tag = item.tag.as_str();
    proof {
        reveal_strlit("obj");
        reveal_strlit("br");
        reveal_strlit("text");
        reveal_strlit("script");
        assert("text"@.len() == 4);
        assert("obj"@.len() == 3);
        assert("br"@.len() == 2);
        assert("script"@.len() == 6);
    }
    let kind = if str_eq(tag, "obj") || str_eq(tag, "br") {
        CapsuleObjectKind::Obj
    } else if str_eq(tag, "text") {
        CapsuleObjectKind::Text(text)
    } else if str_eq(tag, "script") {
        CapsuleObjectKind::Script(text)
    } else {
        warnings.push(ParseWarning::UnknownNodeKind { tag: item.tag.clone() });
        assert(warnings_view(warnings@) =~= w1 + seq![WarningView::UnknownNodeKind(item.tag@)]);
        return None;
    };
    assert(warnings_view(warnings@) =~= w1 + Seq::<WarningView>::empty());
    let mut events: Vec<CapsuleObjectEvent> = Vec::new();
    if let Some(cb) = attribute(item, "onclick") {
        events.push(CapsuleObjectEvent::new("onclick", cb.as_str()));
        assert(events_view(events@) =~= seq![("onclick"@, cb@)]);
    } else {
        assert(events_view(events@) =~= Seq::<(Seq<char>, Seq<char>)>::empty());
    }
    let id = match attribute(item, "id") {
        Some(v) => Some(v.clone()),
        None => None,
    };
    assert(text@ == item_text(*item));
    assert(kind_of_element(kind, *item)) by {
        if item.tag@ == "text"@ {
            assert(kind matches CapsuleObjectKind::Text(t) && t@ == text@);
        } else if item.tag@ == "script"@ {
            assert(kind matches CapsuleObjectKind::Script(t) && t@ == text@);
        } else {
            assert(kind is Obj);
        }
    }
    let ns = CapsuleObjectCreationContext { kind, id, events, style };
    assert(ns.style == element_style(*item));
    assert(events_view(ns.events@) == element_events(*item));
    assert(id_view(ns.id) == attr_value(item.attributes@, "id"@));
    Some(ns)
}

} // verus!
