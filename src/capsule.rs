//! A loaded document: its metadata and its scene tree.
use vstd::prelude::*;
use crate::parser::{
    ParseWarning, WarningView, element_warnings, element_events, element_node, element_style, events_view, id_view,
    kind_of_element, known_tag, item_text, warnings_view,
};
use crate::scene::{CapsuleObjectBase, SceneTree};
use crate::text::{str_eq, texts_of};
use crate::xml::{XmlItem, attr_value, parse_xml, xml_items_of};

verus! {

/// A document's title and the sources of its scripts, in order.
pub struct CapsuleMeta {
    pub title: String,
    pub scripts: Vec<String>,
}

/// A loaded document.
pub struct Capsule {
    pub meta: CapsuleMeta,
    pub view: SceneTree,
}

/// Why a document could not be loaded.
#[derive(Debug)]
pub enum ParseError {
    /// The text is not well-formed XML.
    Xml(roxmltree::Error),
    /// The document holds no element.
    NoRoot,
    /// The root element is not `capsule`.
    UnexpectedRoot,
    /// An element directly under the root is neither `meta` nor `view`.
    UnexpectedSection,
    /// The document has more nodes than an index can count.
    TooLarge,
}

pub open spec fn has_element(items: Seq<XmlItem>) -> bool {
    exists|j: int| 0 <= j < items.len() && (#[trigger] items[j]).element
}

/// `r` is the first element: the document's root element.
pub open spec fn is_root_element(items: Seq<XmlItem>, r: int) -> bool {
    &&& 0 <= r < items.len()
    &&& items[r].element
    &&& forall|j: int| 0 <= j < r ==> !(#[trigger] items[j]).element
}

/// Item `j` is an element directly under item `parent`.
pub open spec fn is_child_element(items: Seq<XmlItem>, parent: int, j: int) -> bool {
    &&& 0 <= j < items.len()
    &&& items[j].element
    &&& items[j].parent == Some(parent as usize)
}

pub open spec fn sections_ok(items: Seq<XmlItem>, root: int) -> bool {
    forall|j: int|
        #[trigger] is_child_element(items, root, j) ==> (items[j].tag@ == "meta"@ || items[j].tag@
            == "view"@)
}

/// The last element named `tag` directly under `parent`, among the first
/// `upto` items.
pub open spec fn last_child_tagged(items: Seq<XmlItem>, parent: int, tag: Seq<char>, upto: int) -> Option<int>
    decreases upto,
{
    if upto <= 0 {
        None
    } else if is_child_element(items, parent, upto - 1) && items[upto - 1].tag@ == tag {
        Some(upto - 1)
    } else {
        last_child_tagged(items, parent, tag, upto - 1)
    }
}

/// The text of the last `title` under `meta`, among the first `upto` items.
pub open spec fn meta_title(items: Seq<XmlItem>, meta: int, upto: int) -> Seq<char> {
    match last_child_tagged(items, meta, "title"@, upto) {
        Some(j) => item_text(items[j]),
        None => Seq::empty(),
    }
}

/// The texts of the `script`s under `meta`, in order, among the first `upto`
/// items.
pub open spec fn meta_scripts(items: Seq<XmlItem>, meta: int, upto: int) -> Seq<Seq<char>>
    decreases upto,
{
    if upto <= 0 {
        Seq::empty()
    } else {
        meta_scripts(items, meta, upto - 1) + if is_child_element(items, meta, upto - 1)
            && items[upto - 1].tag@ == "script"@ {
            seq![item_text(items[upto - 1])]
        } else {
            Seq::empty()
        }
    }
}

/// Item `j` makes a node of the view at item `view`: it is an element of a
/// known kind whose parent is the view, or a node of the view other than a
/// script.
pub open spec fn accepted(items: Seq<XmlItem>, view: int, j: int) -> bool
    decreases j,
{
    if view < j < items.len() && items[j].element && known_tag(items[j].tag@) {
        match items[j].parent {
            Some(p) => p == view || (view < p < j && accepted(items, view, p as int) && items[p as int].tag@
                != "script"@),
            None => false,
        }
    } else {
        false
    }
}

/// A node made from `item`, as `element_node` makes it.
#[verifier::opaque]
pub open spec fn node_matches(node: CapsuleObjectBase, item: XmlItem) -> bool {
    &&& kind_of_element(node.kind, item)
    &&& node.style == element_style(item)
    &&& events_view(node.events@) == element_events(item)
    &&& id_view(node.id) == attr_value(item.attributes@, "id"@)
}

/// `nodes` is the tree made from the view at item `view`, where `origin`
/// gives the item of each node: the root stands for the view, every other node
/// is made from an accepted item, under the node of that item's parent, in
/// document order, and every accepted item has its node.
pub open spec fn view_origin(items: Seq<XmlItem>, view: int, nodes: Seq<CapsuleObjectBase>, origin: Seq<int>) -> bool {
    &&& origin.len() == nodes.len()
    &&& origin[0] == view
    &&& forall|k: int|
        1 <= k < nodes.len() ==> {
            &&& view < #[trigger] origin[k] < items.len()
            &&& accepted(items, view, origin[k])
            &&& node_matches(nodes[k], items[origin[k]])
            &&& nodes[k].parent matches Some(p) && (p as int) < k && items[origin[k]].parent == Some(
                origin[p as int] as usize,
            )
        }
    &&& forall|k1: int, k2: int| 0 <= k1 < k2 < nodes.len() ==> #[trigger] origin[k1] < #[trigger] origin[k2]
    &&& forall|j: int| #[trigger] accepted(items, view, j) ==> exists|k: int| 1 <= k < nodes.len() && #[trigger] origin[k] == j
}

/// `view_origin` as far as item `upto`, without its last clause.
pub open spec fn view_origin_upto(
    items: Seq<XmlItem>,
    view: int,
    nodes: Seq<CapsuleObjectBase>,
    origin: Seq<int>,
    upto: int,
) -> bool {
    &&& origin.len() == nodes.len()
    &&& origin.len() >= 1
    &&& origin[0] == view
    &&& forall|k: int|
        1 <= k < nodes.len() ==> {
            &&& view < #[trigger] origin[k] < upto
            &&& accepted(items, view, origin[k])
            &&& node_matches(nodes[k], items[origin[k]])
            &&& nodes[k].parent matches Some(p) && (p as int) < k && items[origin[k]].parent == Some(
                origin[p as int] as usize,
            )
        }
    &&& forall|k1: int, k2: int| 0 <= k1 < k2 < nodes.len() ==> #[trigger] origin[k1] < #[trigger] origin[k2]
}

proof fn lemma_origin_extend(
    items: Seq<XmlItem>,
    view: int,
    before: Seq<CapsuleObjectBase>,
    after: Seq<CapsuleObjectBase>,
    origin: Seq<int>,
    j: int,
    pk: int,
)
    requires
        view_origin_upto(items, view, before, origin, j),
        view < j < items.len(),
        accepted(items, view, j),
        after.len() == before.len() + 1,
        after.len() < usize::MAX,
        forall|k: int| 0 <= k < before.len() ==> {
            &&& (#[trigger] after[k]).kind == before[k].kind
            &&& after[k].style == before[k].style
            &&& after[k].events == before[k].events
            &&& after[k].id == before[k].id
            &&& after[k].parent == before[k].parent
        },
        node_matches(after[before.len() as int], items[j]),
        0 <= pk < before.len(),
        after[before.len() as int].parent == Some(pk as usize),
        items[j].parent == Some(origin[pk] as usize),
    ensures
        view_origin_upto(items, view, after, origin.push(j), j + 1),
{
    let o2 = origin.push(j);
    assert forall|k: int| 1 <= k < after.len() implies {
        &&& view < #[trigger] o2[k] < j + 1
        &&& accepted(items, view, o2[k])
        &&& node_matches(after[k], items[o2[k]])
        &&& after[k].parent matches Some(p) && (p as int) < k && items[o2[k]].parent == Some(
            o2[p as int] as usize,
        )
    } by {
        if k < before.len() {
            assert(o2[k] == origin[k]);
            lemma_node_matches_fields(before[k], after[k], items[origin[k]]);
            let p = before[k].parent->Some_0;
            assert(o2[p as int] == origin[p as int]);
            assert(after[k].parent == before[k].parent);
        } else {
            assert(o2[k] == j);
            assert(o2[pk] == origin[pk]);
        }
    }
    assert forall|k1: int, k2: int| 0 <= k1 < k2 < after.len() implies #[trigger] o2[k1] < #[trigger] o2[k2] by {
        if k2 < before.len() {
            assert(o2[k1] == origin[k1] && o2[k2] == origin[k2]);
        } else {
            assert(o2[k1] == origin[k1]);
            if k1 > 0 {
                assert(origin[k1] < j);
            }
        }
    }
}

proof fn lemma_node_matches_fields(a: CapsuleObjectBase, b: CapsuleObjectBase, item: XmlItem)
    requires
        node_matches(a, item),
        b.kind == a.kind,
        b.style == a.style,
        b.events == a.events,
        b.id == a.id,
    ensures
        node_matches(b, item),
{
    reveal(node_matches);
}


proof fn lemma_origin_advance(
    items: Seq<XmlItem>,
    view: int,
    nodes: Seq<CapsuleObjectBase>,
    origin: Seq<int>,
    j: int,
)
    requires
        view_origin_upto(items, view, nodes, origin, j),
    ensures
        view_origin_upto(items, view, nodes, origin, j + 1),
{
}

/// `nodes` is the tree made from the view at item `view`.
pub open spec fn view_built_at(items: Seq<XmlItem>, view: int, nodes: Seq<CapsuleObjectBase>) -> bool {
    exists|origin: Seq<int>| #[trigger] view_origin(items, view, nodes, origin)
}

/// The tree made from the view at item `view`; the root alone where there is
/// no view.
pub open spec fn view_built(items: Seq<XmlItem>, view: Option<int>, nodes: Seq<CapsuleObjectBase>) -> bool {
    match view {
        Some(v) => view_built_at(items, v, nodes),
        None => nodes.len() == 1,
    }
}

/// What loading the node list `items` gives.
pub open spec fn loaded(items: Seq<XmlItem>, r: &Result<Capsule, ParseError>) -> bool {
    if !has_element(items) {
        r matches Err(ParseError::NoRoot)
    } else {
        let root = choose|x: int| is_root_element(items, x);
        if items[root].tag@ != "capsule"@ {
            r matches Err(ParseError::UnexpectedRoot)
        } else if !sections_ok(items, root) {
            r matches Err(ParseError::UnexpectedSection)
        } else if items.len() + 2 >= usize::MAX {
            r matches Err(ParseError::TooLarge)
        } else {
            r matches Ok(c) && c.view.wf() && view_built(
                items,
                last_child_tagged(items, root, "view"@, items.len() as int),
                c.view@,
            ) && match last_child_tagged(items, root, "meta"@, items.len() as int) {
                Some(m) => c.meta.title@ == meta_title(items, m, items.len() as int) && texts_of(
                    c.meta.scripts@,
                ) == meta_scripts(items, m, items.len() as int),
                None => c.meta.title@ == Seq::<char>::empty() && c.meta.scripts@.len() == 0,
            }
        }
    }
}


/// Item `j` is an element placed where a node of the view at item `view`
/// can stand: under the view itself, or under an accepted node that is not a
/// script.
pub open spec fn under_view(items: Seq<XmlItem>, view: int, j: int) -> bool {
    &&& view < j < items.len()
    &&& items[j].element
    &&& match items[j].parent {
        Some(p) => p == view || (view < p < j && accepted(items, view, p as int) && items[p as int].tag@
            != "script"@),
        None => false,
    }
}

/// The warnings of the elements of the view at item `view`, in document
/// order, among the first `upto` items.
pub open spec fn view_warnings(items: Seq<XmlItem>, view: int, upto: int) -> Seq<WarningView>
    decreases upto - view,
{
    if upto <= view + 1 {
        Seq::empty()
    } else {
        view_warnings(items, view, upto - 1) + if under_view(items, view, upto - 1) {
            element_warnings(items[upto - 1])
        } else {
            Seq::empty()
        }
    }
}

/// The warnings for the elements under `meta` that are neither a title nor a
/// script, among the first `upto` items.
pub open spec fn meta_warnings(items: Seq<XmlItem>, meta: int, upto: int) -> Seq<WarningView>
    decreases upto,
{
    if upto <= 0 {
        Seq::empty()
    } else {
        meta_warnings(items, meta, upto - 1) + if is_child_element(items, meta, upto - 1)
            && items[upto - 1].tag@ != "title"@ && items[upto - 1].tag@ != "script"@ {
            seq![WarningView::UnknownNodeKind(items[upto - 1].tag@)]
        } else {
            Seq::empty()
        }
    }
}

/// The warnings of a successful load: the meta section's, then the view's.
pub open spec fn load_warnings(items: Seq<XmlItem>) -> Seq<WarningView> {
    let root = choose|x: int| is_root_element(items, x);
    let n = items.len() as int;
    (match last_child_tagged(items, root, "meta"@, n) {
        Some(m) => meta_warnings(items, m, n),
        None => Seq::empty(),
    }) + match last_child_tagged(items, root, "view"@, n) {
        Some(v) => view_warnings(items, v, n),
        None => Seq::empty(),
    }
}

/// Builds the scene tree of the view at item `view`: one node for each
/// accepted item, under the node of its parent, in document order.
fn build_view(items: &Vec<XmlItem>, view: usize, warnings: &mut Vec<ParseWarning>) -> (r: SceneTree)
    requires
        view < items@.len(),
        items@.len() + 2 < usize::MAX,
    ensures
        r.wf(),
        view_built(items@, Some(view as int), r@),
        warnings_view(final(warnings)@) == warnings_view(old(warnings)@) + view_warnings(
            items@,
            view as int,
            items@.len() as int,
        ),
{
    let n = items.len();
    let mut tree = SceneTree::new();
    let mut map: Vec<Option<usize>> = Vec::new();
    let mut i: usize = 0;
    while i < n
        invariant
            i <= n,
            n == items@.len(),
            map@.len() == i,
            forall|x: int| 0 <= x < i ==> (#[trigger] map@[x]) == if x == view { Some(0usize) } else { None },
        decreases n - i,
    {
        map.push(if i == view { Some(0) } else { None });
        i = i + 1;
    }
    let ghost mut origin: Seq<int> = seq![view as int];
    assert(warnings_view(warnings@) =~= warnings_view(old(warnings)@) + view_warnings(items@, view as int, view + 1));
    let mut j: usize = view + 1;
    while j < n
        invariant
            view < j <= n,
            n == items@.len(),
            n + 2 < usize::MAX,
            tree.wf(),
            tree@.len() <= j - view,
            map@.len() == n,
            view_origin_upto(items@, view as int, tree@, origin, j as int),
            forall|x: int| 0 <= x < n ==> match #[trigger] map@[x] {
                Some(k) => (k as int) < tree@.len() && origin[k as int] == x && (x == view || (view < x < j
                    && accepted(items@, view as int, x))),
                None => !(x == view || (view < x < j && accepted(items@, view as int, x))),
            },
            warnings_view(warnings@) == warnings_view(old(warnings)@) + view_warnings(items@, view as int, j as int),
        decreases n - j,
    {
        let item = &items[j];
        let ghost w_before = warnings@;
        let parent_node: Option<usize> = if item.element {
            match item.parent {
                Some(p) => if p < j {
                    match map[p] {
                        Some(pk) => if p == view || !str_eq(items[p].tag.as_str(), "script") {
                            Some(pk)
                        } else {
                            None
                        },
                        None => None,
                    }
                } else {
                    None
                },
                None => None,
            }
        } else {
            None
        };
        let ghost parent_ok = parent_node is Some;
        assert(parent_ok <==> under_view(items@, view as int, j as int)) by {
            reveal_strlit("script");
            if let Some(p) = items@[j as int].parent {
                if p < j {
                    assert(map@[p as int] is Some <==> (p == view || (view < p < j && accepted(
                        items@,
                        view as int,
                        p as int,
                    ))));
                }
            }
        }
        if let Some(pk) = parent_node {
            let made = element_node(item, warnings);
            proof {
                assert(warnings_view(warnings@) =~= warnings_view(old(warnings)@) + view_warnings(items@, view as int, j + 1));
            }
            if let Some(ns) = made {
                let ghost before = tree@;
                let added = tree.append_child(pk, ns);
                assert(added is Some);
                if let Some(c) = added {
                    map.set(j, Some(c));
                    proof {
                        reveal(node_matches);
                        lemma_origin_extend(items@, view as int, before, tree@, origin, j as int, pk as int);
                        origin = origin.push(j as int);
                    }
                }
            } else {
                assert(!accepted(items@, view as int, j as int));
                proof {
                    lemma_origin_advance(items@, view as int, tree@, origin, j as int);
                }
            }
        } else {
            assert(!accepted(items@, view as int, j as int));
            proof {
                lemma_origin_advance(items@, view as int, tree@, origin, j as int);
                assert(warnings_view(warnings@) =~= warnings_view(old(warnings)@) + view_warnings(items@, view as int, j + 1));
            }
        }
        j = j + 1;
    }
    proof {
        assert forall|x: int| #[trigger] accepted(items@, view as int, x) implies exists|k: int| 1 <= k < tree@.len() && #[trigger] origin[k] == x by {
            match map@[x] {
                Some(k) => {
                    assert(origin[k as int] == x);
                },
                None => {},
            }
        }
        assert(view_origin(items@, view as int, tree@, origin));
        assert(view_built_at(items@, view as int, tree@));
    }
    tree
}


proof fn lemma_last_child_bounds(items: Seq<XmlItem>, parent: int, tag: Seq<char>, upto: int)
    ensures
        last_child_tagged(items, parent, tag, upto) matches Some(x) ==> 0 <= x < upto && is_child_element(
            items,
            parent,
            x,
        ) && items[x].tag@ == tag,
    decreases upto,
{
    if upto > 0 {
        lemma_last_child_bounds(items, parent, tag, upto - 1);
    }
}

fn is_child_of(item: &XmlItem, parent: usize) -> (r: bool)
    ensures
        r == (item.element && item.parent == Some(parent)),
{
    item.element && match item.parent {
        Some(p) => p == parent,
        None => false,
    }
}

/// Reads the `meta` section at item `meta`: the last `title`'s text, and
/// each `script`'s source in order; other elements are warned of.
fn read_meta(items: &Vec<XmlItem>, meta: usize, warnings: &mut Vec<ParseWarning>) -> (r: CapsuleMeta)
    requires
        meta < items@.len(),
    ensures
        r.title@ == meta_title(items@, meta as int, items@.len() as int),
        texts_of(r.scripts@) == meta_scripts(items@, meta as int, items@.len() as int),
        warnings_view(final(warnings)@) == warnings_view(old(warnings)@) + meta_warnings(
            items@,
            meta as int,
            items@.len() as int,
        ),
{
    let n = items.len();
    let mut title = String::new();
    let mut scripts: Vec<String> = Vec::new();
    let mut j: usize = 0;
    assert(warnings_view(warnings@) =~= warnings_view(old(warnings)@) + meta_warnings(items@, meta as int, 0));
    proof {
        reveal_strlit("title");
        reveal_strlit("script");
    }
    while j < n
        invariant
            j <= n,
            n == items@.len(),
            meta < n,
            title@ == meta_title(items@, meta as int, j as int),
            texts_of(scripts@) == meta_scripts(items@, meta as int, j as int),
            warnings_view(warnings@) == warnings_view(old(warnings)@) + meta_warnings(items@, meta as int, j as int),
            "title"@.len() == 5,
            "script"@.len() == 6,
        decreases n - j,
    {
        let item = &items[j];
        let ghost w0 = warnings@;
        if is_child_of(item, meta) {
            let text = match &item.text {
                Some(t) => t.clone(),
                None => String::new(),
            };
            if str_eq(item.tag.as_str(), "title") {
                title = text;
                assert(texts_of(scripts@) =~= meta_scripts(items@, meta as int, j + 1));
                assert(warnings_view(warnings@) =~= warnings_view(old(warnings)@) + meta_warnings(items@, meta as int, j + 1));
            } else if str_eq(item.tag.as_str(), "script") {
                let ghost before = scripts@;
                scripts.push(text);
                assert(texts_of(scripts@) =~= texts_of(before).push(text@));
                assert(texts_of(scripts@) =~= meta_scripts(items@, meta as int, j + 1));
                assert(warnings_view(warnings@) =~= warnings_view(old(warnings)@) + meta_warnings(items@, meta as int, j + 1));
            } else {
                warnings.push(ParseWarning::UnknownNodeKind { tag: item.tag.clone() });
                proof {
                    assert(warnings_view(warnings@) =~= warnings_view(w0).push(WarningView::UnknownNodeKind(item.tag@)));
                }
                assert(texts_of(scripts@) =~= meta_scripts(items@, meta as int, j + 1));
                assert(warnings_view(warnings@) =~= warnings_view(old(warnings)@) + meta_warnings(items@, meta as int, j + 1));
            }
        } else {
            assert(texts_of(scripts@) =~= meta_scripts(items@, meta as int, j + 1));
                assert(warnings_view(warnings@) =~= warnings_view(old(warnings)@) + meta_warnings(items@, meta as int, j + 1));
        }
        j = j + 1;
    }
    CapsuleMeta { title, scripts }
}

/// Loads a document from its XML node list: see `loaded`. Warnings for what
/// was left out are appended to `warnings`.
pub fn capsule_from_items(items: &Vec<XmlItem>, warnings: &mut Vec<ParseWarning>) -> (r: Result<
    Capsule,
    ParseError,
>)
    ensures
        loaded(items@, &r),
        warnings_view(final(warnings)@) == warnings_view(old(warnings)@) + if r is Ok {
            load_warnings(items@)
        } else {
            Seq::empty()
        },
{
    let n = items.len();
    assert(warnings_view(warnings@) =~= warnings_view(old(warnings)@) + Seq::<WarningView>::empty());
    let mut root: usize = 0;
    while root < n && !items[root].element
        invariant
            root <= n,
            n == items@.len(),
            forall|j: int| 0 <= j < root ==> !(#[trigger] items@[j]).element,
        decreases n - root,
    {
        root = root + 1;
    }
    if root == n {
        return Err(ParseError::NoRoot);
    }
    proof {
        assert(is_root_element(items@, root as int));
        let c = choose|x: int| is_root_element(items@, x);
        if c < root {
            assert(!items@[c].element);
        } else if c > root {
            assert(!items@[root as int].element);
        }
    }
    assert(items@[root as int].element);
    if !str_eq(items[root].tag.as_str(), "capsule") {
        return Err(ParseError::UnexpectedRoot);
    }
    proof {
        reveal_strlit("meta");
        reveal_strlit("view");
        assert("meta"@[0] != "view"@[0]);
    }
    let mut meta: Option<usize> = None;
    let mut view: Option<usize> = None;
    let mut j: usize = 0;
    while j < n
        invariant
            j <= n,
            n == items@.len(),
            root < n,
            forall|x: int| 0 <= x < j && #[trigger] is_child_element(items@, root as int, x) ==> (items@[x].tag@ == "meta"@
                || items@[x].tag@ == "view"@),
            meta == match last_child_tagged(items@, root as int, "meta"@, j as int) {
                Some(x) => Some(x as usize),
                None => None::<usize>,
            },
            view == match last_child_tagged(items@, root as int, "view"@, j as int) {
                Some(x) => Some(x as usize),
                None => None::<usize>,
            },
            "meta"@ != "view"@,
            warnings@ == old(warnings)@,
            warnings_view(warnings@) == warnings_view(old(warnings)@) + Seq::<WarningView>::empty(),
            (choose|x: int| is_root_element(items@, x)) == root,
            has_element(items@),
            items@[root as int].tag@ == "capsule"@,
        decreases n - j,
    {
        let item = &items[j];
        if is_child_of(item, root) {
            if str_eq(item.tag.as_str(), "meta") {
                meta = Some(j);
            } else if str_eq(item.tag.as_str(), "view") {
                view = Some(j);
            } else {
                assert(is_child_element(items@, root as int, j as int));
                return Err(ParseError::UnexpectedSection);
            }
        }
        j = j + 1;
    }
    if n >= usize::MAX - 2 {
        return Err(ParseError::TooLarge);
    }
    proof {
        lemma_last_child_bounds(items@, root as int, "meta"@, n as int);
        lemma_last_child_bounds(items@, root as int, "view"@, n as int);
    }
    let m = match meta {
        Some(x) => read_meta(items, x, warnings),
        None => CapsuleMeta { title: String::new(), scripts: Vec::new() },
    };
    let ghost w1 = warnings@;
    let tree = match view {
        Some(v) => build_view(items, v, warnings),
        None => SceneTree::new(),
    };
    proof {
        let mw = match last_child_tagged(items@, root as int, "meta"@, n as int) {
            Some(x) => meta_warnings(items@, x, n as int),
            None => Seq::<WarningView>::empty(),
        };
        let vw = match last_child_tagged(items@, root as int, "view"@, n as int) {
            Some(x) => view_warnings(items@, x, n as int),
            None => Seq::<WarningView>::empty(),
        };
        assert(warnings_view(w1) =~= warnings_view(old(warnings)@) + mw);
        assert(warnings_view(warnings@) =~= warnings_view(w1) + vw);
        assert(load_warnings(items@) == mw + vw);
        assert(warnings_view(warnings@) =~= warnings_view(old(warnings)@) + load_warnings(items@));
    }
    Ok(Capsule { meta: m, view: tree })
}

/// Loads a document from its markup. Warnings for what was left out are
/// appended to `warnings`.
pub fn parse_capsule(text: &str, warnings: &mut Vec<ParseWarning>) -> (r: Result<Capsule, ParseError>)
    ensures
        match xml_items_of(text@) {
            None => r matches Err(ParseError::Xml(_)) && final(warnings)@ == old(warnings)@,
            Some(items) => loaded(items, &r) && warnings_view(final(warnings)@) == warnings_view(
                old(warnings)@,
            ) + if r is Ok {
                load_warnings(items)
            } else {
                Seq::empty()
            },
        },
{
    match parse_xml(text) {
        Err(e) => Err(ParseError::Xml(e)),
        Ok(items) => capsule_from_items(&items, warnings),
    }
}

} // verus!
