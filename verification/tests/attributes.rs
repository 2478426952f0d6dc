use view_tree::attribute::{AttributeMap, NodeAttributeValue};
use view_tree::node::Node;

#[test]
fn number_as_text_is_its_decimal_numeral() {
    assert_eq!(NodeAttributeValue::Number(-1).as_text(), "-1");
    assert_eq!(NodeAttributeValue::Number(0).as_text(), "0");
    assert_eq!(NodeAttributeValue::Number(1205).as_text(), "1205");
}

#[test]
fn boolean_display_is_bare() {
    assert_eq!(NodeAttributeValue::Boolean(true).to_display_string(), "true");
    assert_eq!(NodeAttributeValue::Boolean(false).to_display_string(), "false");
    assert_eq!(NodeAttributeValue::Boolean(true).as_text(), "true");
    assert_eq!(NodeAttributeValue::Boolean(false).as_text(), "false");
}

#[test]
fn string_display_is_quoted() {
    assert_eq!(
        NodeAttributeValue::String("x".to_string()).to_display_string(),
        "\"x\""
    );
    assert_eq!(NodeAttributeValue::String(String::new()).to_display_string(), "\"\"");
}

#[test]
fn string_as_text_is_unquoted() {
    assert_eq!(NodeAttributeValue::String("x".to_string()).as_text(), "x");
    assert_eq!(NodeAttributeValue::String(String::new()).as_text(), "");
}

#[test]
fn number_display_is_the_same_as_its_text() {
    for n in [i32::MIN, -1000, -10, -9, -1, 0, 1, 9, 10, 99, 100, 65536, i32::MAX] {
        let value = NodeAttributeValue::Number(n);
        assert_eq!(value.to_display_string(), n.to_string());
        assert_eq!(value.as_text(), n.to_string());
    }
}

#[test]
fn quotes_inside_a_string_are_not_escaped() {
    assert_eq!(
        NodeAttributeValue::String("a\"b".to_string()).to_display_string(),
        "\"a\"b\""
    );
}

#[test]
fn conversion_from_text() {
    assert!(matches!(
        NodeAttributeValue::from("abc"),
        NodeAttributeValue::String(s) if s == "abc"
    ));
    assert!(matches!(
        NodeAttributeValue::from(String::from("owned")),
        NodeAttributeValue::String(s) if s == "owned"
    ));
}

#[test]
fn conversion_from_signed_numbers() {
    assert!(matches!(NodeAttributeValue::from(-7i32), NodeAttributeValue::Number(-7)));
    assert!(matches!(NodeAttributeValue::from(i32::MIN), NodeAttributeValue::Number(i32::MIN)));
}

#[test]
fn conversion_from_a_truth_value() {
    assert!(matches!(NodeAttributeValue::from(true), NodeAttributeValue::Boolean(true)));
    assert!(matches!(NodeAttributeValue::from(false), NodeAttributeValue::Boolean(false)));
}

#[test]
fn conversion_from_unsigned_keeps_small_values() {
    assert!(matches!(NodeAttributeValue::from(0u32), NodeAttributeValue::Number(0)));
    assert!(matches!(NodeAttributeValue::from(42u32), NodeAttributeValue::Number(42)));
    assert!(matches!(
        NodeAttributeValue::from(2147483647u32),
        NodeAttributeValue::Number(i32::MAX)
    ));
}

#[test]
fn conversion_from_unsigned_wraps_above_the_signed_range() {
    assert!(matches!(
        NodeAttributeValue::from(2147483648u32),
        NodeAttributeValue::Number(i32::MIN)
    ));
    assert!(matches!(NodeAttributeValue::from(u32::MAX), NodeAttributeValue::Number(-1)));
    assert!(matches!(
        NodeAttributeValue::from(4294967286u32),
        NodeAttributeValue::Number(-10)
    ));
    assert_eq!(NodeAttributeValue::from(3000000000u32).as_text(), "-1294967296");
}

#[test]
fn opening_tag_holds_each_attribute_once() {
    let html = Node::native("tag")
        .with_attribute("a", NodeAttributeValue::Number(1))
        .with_attribute("b", NodeAttributeValue::String("x".to_string()))
        .to_html();
    let opening = html.lines().next().unwrap();
    assert!(opening == "<tag a=1 b=\"x\">" || opening == "<tag b=\"x\" a=1>");
    assert_eq!(opening.matches("a=1").count(), 1);
    assert_eq!(opening.matches("b=\"x\"").count(), 1);
    assert_eq!(html, format!("{}\n\n</tag>", opening));
}

#[test]
fn attributes_render_in_the_order_in_which_they_were_set() {
    let html = Node::native("input")
        .with_attribute("type", NodeAttributeValue::from("checkbox"))
        .with_attribute("checked", NodeAttributeValue::Boolean(true))
        .with_attribute("tabindex", NodeAttributeValue::from(-1))
        .to_html();
    assert_eq!(html, "<input type=\"checkbox\" checked=true tabindex=-1>\n\n</input>");
}

#[test]
fn single_attribute_has_one_space_before_it() {
    let html = Node::native("a").with_attribute("href", NodeAttributeValue::from("#")).to_html();
    assert_eq!(html, "<a href=\"#\">\n\n</a>");
}

#[test]
fn setting_a_name_again_replaces_the_value_in_place() {
    let html = Node::native("p")
        .with_attribute("a", NodeAttributeValue::from(1))
        .with_attribute("b", NodeAttributeValue::from(2))
        .with_attribute("a", NodeAttributeValue::from(3))
        .to_html();
    assert_eq!(html, "<p a=3 b=2>\n\n</p>");
}

#[test]
fn attributes_and_children_render_together() {
    let html = Node::native("div")
        .with_attribute("class", NodeAttributeValue::from("box"))
        .with_child(
            Node::native("span").with_attribute("hidden", NodeAttributeValue::Boolean(false)),
        )
        .to_html();
    assert_eq!(html, "<div class=\"box\">\n  <span hidden=false>\n  \n  </span>\n</div>");
}

#[test]
fn empty_map_renders_to_nothing() {
    let map = AttributeMap::new();
    assert_eq!(map.len(), 0);
    assert!(map.entries().is_empty());
    assert_eq!(map.to_html(), "");
}

#[test]
fn map_keeps_one_entry_per_name() {
    let mut map = AttributeMap::new();
    map.insert("id", NodeAttributeValue::from("first"));
    map.insert("title", NodeAttributeValue::from("t"));
    map.insert("id", NodeAttributeValue::from("second"));
    assert_eq!(map.len(), 2);
    let entries = map.entries();
    assert_eq!(entries[0].0, "id");
    assert_eq!(entries[0].1.as_text(), "second");
    assert_eq!(entries[1].0, "title");
    assert_eq!(entries[1].1.as_text(), "t");
    assert_eq!(map.to_html(), " id=\"second\" title=\"t\"");
}

#[test]
fn names_that_differ_in_one_character_are_different() {
    let mut map = AttributeMap::new();
    map.insert("ab", NodeAttributeValue::from(1));
    map.insert("ac", NodeAttributeValue::from(2));
    map.insert("a", NodeAttributeValue::from(3));
    map.insert("", NodeAttributeValue::from(4));
    assert_eq!(map.len(), 4);
    assert_eq!(map.to_html(), " ab=1 ac=2 a=3 =4");
}

#[test]
fn node_attributes_are_readable() {
    let node = Node::native("div").with_attribute("n", NodeAttributeValue::from(7u32));
    let entries = node.attributes().entries();
    assert_eq!(entries.len(), 1);
    assert_eq!(entries[0].0, "n");
    assert!(matches!(entries[0].1, NodeAttributeValue::Number(7)));
}
