use capsule::capsule::{capsule_from_items, parse_capsule, ParseError};
use capsule::xml::XmlItem;
use capsule::color::{try_parse_color, COColor};
use capsule::dispatch::{hit_callbacks, pressed_buttons, update_events};
use capsule::event::CapsuleObjectEvent;
use capsule::layout::{apply_layout, build_layout_tree, LayoutError};
use capsule::parser::ParseWarning;
use capsule::render::{render_capsule, DrawCommand};
use capsule::scene::{
    CapsuleObjectKind, ComputedStyling, CapsuleObjectCreationContext, SceneTree, StyleError, StyleField,
};
use capsule::style::{
    try_parse_dimension, COAlignItems, CODimension, COFlexDirection, COJustifyContent, Styling,
    DEFAULT_FONT_SIZE,
};

fn obj(id: &str, click: Option<&str>) -> CapsuleObjectCreationContext {
    let mut events = Vec::new();
    if let Some(cb) = click {
        events.push(CapsuleObjectEvent::new("onclick", cb));
    }
    CapsuleObjectCreationContext {
        kind: CapsuleObjectKind::Obj,
        id: Some(id.to_string()),
        events,
        style: Styling::default(),
    }
}

fn rect(x: i64, y: i64, width: i64, height: i64) -> ComputedStyling {
    ComputedStyling { x, y, width, height }
}

/// Root, A at (0,0,100,100) px, B inside A at (10,10,20,20) px, both with an
/// onclick handler.
fn overlapping_tree() -> SceneTree {
    let mut t = SceneTree::new();
    let a = t.append_child(0, obj("a", Some("click_a"))).unwrap();
    t.append_child(a, obj("b", Some("click_b"))).unwrap();
    let solved = vec![
        rect(0, 0, 800_000, 600_000),
        rect(0, 0, 100_000, 100_000),
        rect(10_000, 10_000, 20_000, 20_000),
    ];
    apply_layout(&mut t, &solved).unwrap();
    t
}

#[test]
fn event_new_keeps_name_and_callback() {
    let e = CapsuleObjectEvent::new("onclick", "go");
    assert_eq!(e.name, "onclick");
    assert_eq!(e.callback, "go");
}

#[test]
fn default_style() {
    let s = Styling::default();
    assert_eq!(s.align, COAlignItems::Stretch);
    assert_eq!(s.justify, COJustifyContent::FlexStart);
    assert_eq!(s.flexdir, COFlexDirection::Row);
    assert_eq!(s.width, None);
    assert_eq!(s.font_size, DEFAULT_FONT_SIZE);
    assert!(!s.is_dirty());
}

#[test]
fn style_setters_mark_dirty() {
    let mut s = Styling::default();
    s.set_width(Some(CODimension::Points(5_000)));
    assert!(s.is_dirty());
    assert_eq!(s.width, Some(CODimension::Points(5_000)));
    s.set_non_dirty();
    assert!(!s.is_dirty());
    s.set_dirty();
    assert!(s.is_dirty());
}

#[test]
fn dimension_parsing() {
    assert_eq!(try_parse_dimension("12.5"), Some(CODimension::Points(12_500)));
    assert_eq!(try_parse_dimension("50%"), Some(CODimension::Percent(50_000)));
    assert_eq!(try_parse_dimension("-3"), Some(CODimension::Points(-3_000)));
    assert_eq!(try_parse_dimension("+7"), Some(CODimension::Points(7_000)));
    assert_eq!(try_parse_dimension(".5"), Some(CODimension::Points(500)));
    assert_eq!(try_parse_dimension("5."), Some(CODimension::Points(5_000)));
    assert_eq!(try_parse_dimension("1.23456"), Some(CODimension::Points(1_234)));
    assert_eq!(try_parse_dimension("not-a-number"), None);
    assert_eq!(try_parse_dimension(""), None);
    assert_eq!(try_parse_dimension("."), None);
    assert_eq!(try_parse_dimension("%"), None);
    assert_eq!(try_parse_dimension("1.2.3"), None);
    assert_eq!(try_parse_dimension("99999999999999999999"), None);
    assert_eq!(
        try_parse_dimension("1000000000000"),
        Some(CODimension::Points(1_000_000_000_000_000))
    );
    assert_eq!(try_parse_dimension("1000000000000.001"), None);
}

#[test]
fn dimension_text() {
    assert_eq!(CODimension::Points(12_500).as_text(), "12.5");
    assert_eq!(CODimension::Points(12_000).as_text(), "12");
    assert_eq!(CODimension::Points(-250).as_text(), "-0.25");
    assert_eq!(CODimension::Points(5).as_text(), "0.005");
    assert_eq!(CODimension::Points(50).as_text(), "0.05");
    assert_eq!(CODimension::Percent(50_000).as_text(), "50%");
    assert_eq!(CODimension::Auto.as_text(), "auto");
    assert_eq!(CODimension::Undefined.as_text(), "undefined");
}

#[test]
fn color_names_and_hex() {
    assert_eq!(try_parse_color("red"), Some(COColor { r: 255, g: 0, b: 0, a: 255 }));
    assert_eq!(
        try_parse_color("Light Coral"),
        Some(COColor { r: 240, g: 128, b: 128, a: 255 })
    );
    assert_eq!(try_parse_color("#ff8000"), Some(COColor { r: 255, g: 128, b: 0, a: 255 }));
    assert_eq!(try_parse_color("0x11223344"), Some(COColor { r: 0x11, g: 0x22, b: 0x33, a: 0x44 }));
    assert_eq!(try_parse_color("AbCdEf"), Some(COColor { r: 0xab, g: 0xcd, b: 0xef, a: 255 }));
    assert_eq!(try_parse_color("#12345"), None);
    assert_eq!(try_parse_color("#12345g"), None);
    assert_eq!(try_parse_color("zzzzzz"), None);
}

#[test]
fn color_text() {
    assert_eq!(COColor { r: 255, g: 128, b: 0, a: 10 }.as_str(), "#ff80000a");
}

#[test]
fn enum_names() {
    assert_eq!(COAlignItems::from_name("flex_start"), Some(COAlignItems::FlexStart));
    assert_eq!(COAlignItems::from_markup("flexstart"), Some(COAlignItems::FlexStart));
    assert_eq!(COAlignItems::from_name("flexstart"), None);
    assert_eq!(COAlignItems::Baseline.as_str(), "baseline");
    assert_eq!(COJustifyContent::from_name("space_evenly"), Some(COJustifyContent::SpaceEvenly));
    assert_eq!(COJustifyContent::from_markup("spacearound"), Some(COJustifyContent::SpaceAround));
    assert_eq!(COJustifyContent::SpaceBetween.as_str(), "space_between");
    assert_eq!(COFlexDirection::from_name("column_reverse"), Some(COFlexDirection::ColumnReverse));
    assert_eq!(COFlexDirection::from_markup("rowreverse"), Some(COFlexDirection::RowReverse));
    assert_eq!(COFlexDirection::from_name("sideways"), None);
    assert_eq!(COFlexDirection::Column.as_str(), "column");
}

#[test]
fn append_and_walk_in_preorder() {
    let mut t = SceneTree::new();
    let a = t.append_child(0, obj("a", None)).unwrap();
    let b = t.append_child(0, obj("b", None)).unwrap();
    let a1 = t.append_child(a, obj("a1", None)).unwrap();
    let b1 = t.append_child(b, obj("b1", None)).unwrap();
    let a2 = t.append_child(a, obj("a2", None)).unwrap();
    assert_eq!(t.preorder(), vec![0, a, a1, a2, b, b1]);
    assert_eq!(t.children_vec(a), vec![a1, a2]);
    assert_eq!(t.children_vec(0), vec![a, b]);
    assert_eq!(t.append_child(99, obj("x", None)), None);
    assert_eq!(t.len(), 6);
}

#[test]
fn walk_meets_each_node_once() {
    let mut t = SceneTree::new();
    let mut parent = 0;
    for i in 0..20usize {
        let c = t.append_child(parent, obj("n", None)).unwrap();
        if i % 3 == 0 {
            parent = c;
        }
    }
    let mut order = t.preorder();
    order.sort();
    assert_eq!(order, (0..t.len()).collect::<Vec<_>>());
}

#[test]
fn dirty_round_trip() {
    let mut t = SceneTree::new();
    let a = t.append_child(0, obj("a", None)).unwrap();
    let b = t.append_child(0, obj("b", None)).unwrap();
    assert!(!t.scan_and_clear_dirty());
    t.set_style_text(a, StyleField::Width, "10").unwrap();
    t.set_font_size(b, 30);
    assert!(t.node(a).style.dirty);
    assert!(t.node(b).style.dirty);
    assert!(!t.node(0).style.dirty);
    assert!(t.scan_and_clear_dirty());
    assert!(!t.node(a).style.dirty);
    assert!(!t.node(b).style.dirty);
    assert_eq!(t.node(b).style.font_size, 30);
    assert!(!t.scan_and_clear_dirty());
}

#[test]
fn script_style_writes() {
    let mut t = SceneTree::new();
    let a = t.append_child(0, obj("a", None)).unwrap();
    assert_eq!(t.set_style_text(a, StyleField::Align, "center"), Ok(()));
    assert_eq!(t.node(a).style.align, COAlignItems::Center);
    t.scan_and_clear_dirty();
    assert_eq!(t.set_style_text(a, StyleField::Align, "bogus"), Err(StyleError::BadAlign));
    assert!(!t.node(a).style.dirty);
    assert_eq!(t.set_style_text(a, StyleField::Justify, "x"), Err(StyleError::BadJustify));
    assert_eq!(t.set_style_text(a, StyleField::FlexDir, "x"), Err(StyleError::BadFlexDir));
    t.set_style_text(a, StyleField::Width, "25%").unwrap();
    assert_eq!(t.node(a).style.width, Some(CODimension::Percent(25_000)));
    t.set_style_text(a, StyleField::Width, "bad").unwrap();
    assert_eq!(t.node(a).style.width, None);
    t.set_style_text(a, StyleField::Color, "blue").unwrap();
    assert_eq!(t.node(a).style.color, Some(COColor { r: 0, g: 0, b: 255, a: 255 }));
    t.set_style_text(a, StyleField::FlexDir, "column").unwrap();
    assert_eq!(t.node(a).style.flexdir, COFlexDirection::Column);
}

#[test]
fn text_nodes() {
    let mut t = SceneTree::new();
    let a = t.append_child(0, obj("a", None)).unwrap();
    let spec = CapsuleObjectCreationContext {
        kind: CapsuleObjectKind::Text("hi".to_string()),
        id: None,
        events: Vec::new(),
        style: Styling::default(),
    };
    let x = t.append_child(0, spec).unwrap();
    assert_eq!(t.text(x), Some("hi".to_string()));
    assert!(t.set_text(x, "bye".to_string()));
    assert_eq!(t.text(x), Some("bye".to_string()));
    assert!(t.node(x).style.dirty);
    assert!(!t.set_text(a, "no".to_string()));
    assert_eq!(t.text(a), None);
    t.set_default_size(x, 40_000, 16_000);
    assert_eq!(t.node(x).style.width, Some(CODimension::Points(40_000)));
    assert_eq!(t.node(x).style.height, Some(CODimension::Points(16_000)));
}

#[test]
fn find_by_id() {
    let mut t = SceneTree::new();
    let a = t.append_child(0, obj("a", None)).unwrap();
    let b = t.append_child(a, obj("b", None)).unwrap();
    assert_eq!(t.find_element("b"), Some(b));
    assert_eq!(t.find_element("a"), Some(a));
    assert_eq!(t.find_element("zz"), None);
    t.set_id(b, Some("renamed".to_string()));
    assert_eq!(t.find_element("b"), None);
    assert_eq!(t.find_element("renamed"), Some(b));
}

#[test]
fn absolute_positions_compose() {
    let t = overlapping_tree();
    assert_eq!(t.node(1).computed_style, rect(0, 0, 100_000, 100_000));
    assert_eq!(t.node(2).computed_style, rect(10_000, 10_000, 20_000, 20_000));
    let mut deep = SceneTree::new();
    let a = deep.append_child(0, obj("a", None)).unwrap();
    let b = deep.append_child(a, obj("b", None)).unwrap();
    let solved = vec![rect(5, 6, 10, 10), rect(1, 2, 3, 4), rect(10, 20, 30, 40)];
    apply_layout(&mut deep, &solved).unwrap();
    assert_eq!(deep.node(b).computed_style, rect(16, 28, 30, 40));
}

#[test]
fn layout_errors_leave_tree_alone() {
    let mut t = overlapping_tree();
    assert_eq!(apply_layout(&mut t, &vec![rect(0, 0, 1, 1)]), Err(LayoutError::SizeMismatch));
    let huge = vec![rect(0, 0, 1, 1), rect(i64::MAX, 0, 1, 1), rect(1, 0, 1, 1)];
    assert_eq!(apply_layout(&mut t, &huge), Err(LayoutError::Overflow));
    assert_eq!(t.node(2).computed_style, rect(10_000, 10_000, 20_000, 20_000));
}

#[test]
fn layout_is_deterministic() {
    let t1 = overlapping_tree();
    let t2 = overlapping_tree();
    let c1 = build_layout_tree(&t1, 800_000, 600_000);
    let c2 = build_layout_tree(&t2, 800_000, 600_000);
    assert_eq!(c1.len(), c2.len());
    for (a, b) in c1.iter().zip(c2.iter()) {
        assert_eq!(a.style, b.style);
        assert_eq!(a.children, b.children);
    }
    assert_eq!(c1[0].style.width, CODimension::Points(800_000));
    assert_eq!(c1[0].style.flexdir, COFlexDirection::Column);
    assert_eq!(c1[1].style.width, CODimension::Auto);
    assert_eq!(c1[1].children, vec![2]);
    for i in 0..t1.len() {
        assert_eq!(t1.node(i).computed_style, t2.node(i).computed_style);
    }
}

#[test]
fn hit_test_fires_every_overlapping_node() {
    let t = overlapping_tree();
    assert_eq!(hit_callbacks(&t, 15_000, 15_000, "onclick"), vec!["click_a", "click_b"]);
    assert_eq!(hit_callbacks(&t, 50_000, 50_000, "onclick"), vec!["click_a"]);
    assert_eq!(hit_callbacks(&t, 100_000, 100_000, "onclick"), vec!["click_a"]);
    assert!(hit_callbacks(&t, 150_000, 15_000, "onclick").is_empty());
}

#[test]
fn click_plan_pairs_callbacks_with_buttons() {
    let t = overlapping_tree();
    assert_eq!(pressed_buttons(true, false, true), vec![1, 3]);
    let plan = update_events(&t, true, false, true, 15_000, 15_000);
    let expected: Vec<(String, u8)> = vec![
        ("click_a".to_string(), 1),
        ("click_a".to_string(), 3),
        ("click_b".to_string(), 1),
        ("click_b".to_string(), 3),
    ];
    assert_eq!(plan, expected);
    assert!(update_events(&t, false, false, false, 15_000, 15_000).is_empty());
}

#[test]
fn malformed_attribute_is_skipped() {
    let mut warnings = Vec::new();
    let doc = parse_capsule(
        r#"<capsule><view><obj width="not-a-number" height="7"/></view></capsule>"#,
        &mut warnings,
    )
    .unwrap();
    assert_eq!(doc.view.len(), 2);
    assert_eq!(doc.view.node(1).style.width, None);
    assert_eq!(doc.view.node(1).style.height, Some(CODimension::Points(7_000)));
    assert_eq!(warnings.len(), 1);
    assert!(matches!(&warnings[0], ParseWarning::BadProperty { name, value }
        if name == "width" && value == "not-a-number"));
}

#[test]
fn document_loads() {
    let src = r##"<capsule>
  <meta><title>Hello</title><script>print(1)</script><script>print(2)</script></meta>
  <view>
    <obj id="box" color="#ff0000" align="center" onclick="clicked">
      <text>hi</text>
      <br/>
    </obj>
    <blink><obj/></blink>
    <script>ignored()</script>
  </view>
</capsule>"##;
    let mut warnings = Vec::new();
    let doc = parse_capsule(src, &mut warnings).unwrap();
    assert_eq!(doc.meta.title, "Hello");
    assert_eq!(doc.meta.scripts, vec!["print(1)".to_string(), "print(2)".to_string()]);
    let v = &doc.view;
    assert_eq!(v.len(), 5);
    assert_eq!(v.preorder(), vec![0, 1, 2, 3, 4]);
    assert_eq!(v.find_element("box"), Some(1));
    let boxed = v.node(1);
    assert_eq!(boxed.style.color, Some(COColor { r: 255, g: 0, b: 0, a: 255 }));
    assert_eq!(boxed.style.align, COAlignItems::Center);
    assert_eq!(boxed.events.len(), 1);
    assert_eq!(boxed.events[0].callback, "clicked");
    assert_eq!(v.text(2), Some("hi".to_string()));
    assert_eq!(v.node(3).style.width, Some(CODimension::Points(0)));
    assert!(matches!(v.node(4).kind, CapsuleObjectKind::Script(ref s) if s == "ignored()"));
    assert_eq!(v.children_vec(0), vec![1, 4]);
    assert_eq!(warnings.len(), 1);
    assert!(matches!(&warnings[0], ParseWarning::UnknownNodeKind { tag } if tag == "blink"));
}

#[test]
fn load_errors() {
    let mut w = Vec::new();
    assert!(matches!(parse_capsule("<a><b></a>", &mut w), Err(ParseError::Xml(_))));
    assert!(matches!(parse_capsule("<page/>", &mut w), Err(ParseError::UnexpectedRoot)));
    assert!(matches!(
        parse_capsule("<capsule><body/></capsule>", &mut w),
        Err(ParseError::UnexpectedSection)
    ));
    let empty = parse_capsule("<capsule/>", &mut w).unwrap();
    assert_eq!(empty.view.len(), 1);
    assert_eq!(empty.meta.title, "");
}

#[test]
fn draw_calls_in_preorder() {
    let src = r##"<capsule><view><obj color="#00ff00"><text>hey</text></obj><obj/></view></capsule>"##;
    let mut w = Vec::new();
    let mut doc = parse_capsule(src, &mut w).unwrap();
    let solved = vec![
        rect(0, 0, 800_000, 600_000),
        rect(0, 0, 100_000, 50_000),
        rect(2_000, 3_000, 10_000, 10_000),
        rect(0, 50_000, 0, 0),
    ];
    apply_layout(&mut doc.view, &solved).unwrap();
    let draws = render_capsule(&doc.view);
    assert_eq!(draws.len(), 2);
    assert!(matches!(draws[0], DrawCommand::Rect { x: 0, y: 0, width: 100_000, height: 50_000, color }
        if color == COColor { r: 0, g: 255, b: 0, a: 255 }));
    assert!(matches!(&draws[1], DrawCommand::Text { text, x: 2_000, y: 3_000, font_size, color }
        if text == "hey" && *font_size == DEFAULT_FONT_SIZE && color.a == 255 && color.r == 255));
}

#[test]
fn nodes_under_pointer() {
    let t = overlapping_tree();
    assert_eq!(capsule::dispatch::nodes_at(&t, 15_000, 15_000), vec![0, 1, 2]);
    assert_eq!(capsule::dispatch::nodes_at(&t, 50_000, 50_000), vec![0, 1]);
    assert_eq!(capsule::dispatch::nodes_at(&t, 900_000, 50_000), Vec::<usize>::new());
}

#[test]
fn script_nodes_do_not_fire() {
    let mut t = SceneTree::new();
    let mut events = Vec::new();
    events.push(CapsuleObjectEvent::new("onclick", "from_script"));
    let spec = CapsuleObjectCreationContext::new(
        CapsuleObjectKind::Script("x()".to_string()),
        events,
        Styling::default(),
        None,
    );
    t.append_child(0, spec).unwrap();
    t.append_child(0, obj("a", Some("click_a"))).unwrap();
    let solved = vec![rect(0, 0, 10, 10), rect(0, 0, 10, 10), rect(0, 0, 10, 10)];
    apply_layout(&mut t, &solved).unwrap();
    assert_eq!(hit_callbacks(&t, 5, 5, "onclick"), vec!["click_a"]);
}

#[test]
fn size_text_reads_back() {
    for v in [0i64, 1, 5, 50, 500, 12_500, 999, 1_001, -250, -1_000_000, 123_456_789] {
        let p = CODimension::Points(v);
        assert_eq!(try_parse_dimension(&p.as_text()), Some(p));
        let q = CODimension::Percent(v);
        assert_eq!(try_parse_dimension(&q.as_text()), Some(q));
    }
}

#[test]
fn warnings_in_document_order() {
    let src = r##"<capsule>
  <meta><title>t</title><style/></meta>
  <view><obj align="up"><obj color="nope"/></obj><marquee/></view>
</capsule>"##;
    let mut w = Vec::new();
    parse_capsule(src, &mut w).unwrap();
    assert_eq!(w.len(), 4);
    assert!(matches!(&w[0], ParseWarning::UnknownNodeKind { tag } if tag == "style"));
    assert!(matches!(&w[1], ParseWarning::BadProperty { name, value } if name == "align" && value == "up"));
    assert!(matches!(&w[2], ParseWarning::BadProperty { name, value } if name == "color" && value == "nope"));
    assert!(matches!(&w[3], ParseWarning::UnknownNodeKind { tag } if tag == "marquee"));
}

#[test]
fn append_keeps_old_walk_order() {
    let mut t = SceneTree::new();
    let a = t.append_child(0, obj("a", None)).unwrap();
    let b = t.append_child(0, obj("b", None)).unwrap();
    t.append_child(a, obj("a1", None)).unwrap();
    let before = t.preorder();
    let n = t.len();
    let c = t.append_child(a, obj("a2", None)).unwrap();
    t.append_child(b, obj("b1", None)).unwrap();
    let after: Vec<usize> = t.preorder().into_iter().filter(|&x| x < n).collect();
    assert_eq!(after, before);
    assert_eq!(c, n);
}

#[test]
fn document_without_elements_has_no_root() {
    let items = vec![XmlItem {
        element: false,
        tag: String::new(),
        attributes: Vec::new(),
        text: None,
        parent: None,
    }];
    let mut w = Vec::new();
    assert!(matches!(capsule_from_items(&items, &mut w), Err(ParseError::NoRoot)));
    assert!(w.is_empty());
}
