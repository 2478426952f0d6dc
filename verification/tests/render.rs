use std::cell::Cell;
use std::rc::Rc;

use view_tree::attribute::NodeAttributeValue;
use view_tree::component::{Component, Effect};
use view_tree::demo::{App, Test};
use view_tree::node::{Node, NodeKind};

/// A component that counts how often it is rendered.
struct Counted {
    views: Rc<Cell<u32>>,
}

impl Component for Counted {
    type Message = ();

    fn view(&self) -> Node {
        self.views.set(self.views.get() + 1);
        Node::native("p").with_child(Node::text("counted"))
    }

    fn update(&mut self, _message: ()) -> Option<Effect> {
        None
    }
}

#[test]
fn bare_element_has_a_blank_line_between_its_tags() {
    assert_eq!(Node::native("tag").to_html(), "<tag>\n\n</tag>");
    assert_eq!(Node::native("div").to_html(), "<div>\n\n</div>");
    assert_eq!(Node::native("").to_html(), "<>\n\n</>");
}

#[test]
fn text_leaf_renders_verbatim() {
    assert_eq!(Node::text("hello").to_html(), "hello");
    assert_eq!(Node::text("").to_html(), "");
}

#[test]
fn text_is_not_escaped() {
    assert_eq!(Node::text("<b> & \"q\"").to_html(), "<b> & \"q\"");
    assert_eq!(
        Node::native("p").with_child(Node::text("a < b")).to_html(),
        "<p>\n  a < b\n</p>"
    );
}

#[test]
fn component_boundary_is_transparent() {
    let custom = Node::custom(Box::new(Test {}));
    assert_eq!(custom.to_html(), "Hello world");
    assert_eq!(custom.to_html(), Node::text("Hello world").to_html());
}

#[test]
fn nested_elements_indent_by_two_spaces_per_level() {
    let tree = Node::native("div").with_child(Node::native("span").with_child(Node::text("x")));
    assert_eq!(tree.to_html(), "<div>\n  <span>\n    x\n  </span>\n</div>");
}

#[test]
fn three_levels_indent_cumulatively() {
    let tree = Node::native("a").with_child(
        Node::native("b").with_child(Node::native("c").with_child(Node::text("deep"))),
    );
    assert_eq!(
        tree.to_html(),
        "<a>\n  <b>\n    <c>\n      deep\n    </c>\n  </b>\n</a>"
    );
}

#[test]
fn children_are_separated_by_line_feeds_in_order() {
    let tree = Node::native("ul")
        .with_child(Node::text("one"))
        .with_child(Node::text("two"))
        .with_child(Node::text("three"));
    assert_eq!(tree.to_html(), "<ul>\n  one\n  two\n  three\n</ul>");
}

#[test]
fn childless_child_keeps_its_blank_line_indented() {
    let tree = Node::native("div").with_child(Node::native("br"));
    assert_eq!(tree.to_html(), "<div>\n  <br>\n  \n  </br>\n</div>");
}

#[test]
fn empty_text_child_is_an_indented_empty_line() {
    let tree = Node::native("div").with_child(Node::text(""));
    assert_eq!(tree.to_html(), "<div>\n  \n</div>");
}

#[test]
fn every_line_of_a_multi_line_text_is_indented() {
    let tree = Node::native("pre").with_child(Node::text("one\ntwo\n"));
    assert_eq!(tree.to_html(), "<pre>\n  one\n  two\n  \n</pre>");
}

#[test]
fn rendering_twice_gives_the_same_text() {
    let tree = Node::native("div")
        .with_attribute("id", NodeAttributeValue::from("root"))
        .with_child(Node::custom(Box::new(Test {})))
        .with_child(Node::native("span").with_child(Node::text("x")));
    let first = tree.to_html();
    let second = tree.to_html();
    assert_eq!(first, second);
    assert_eq!(
        first,
        "<div id=\"root\">\n  Hello world\n  <span>\n    x\n  </span>\n</div>"
    );
}

#[test]
fn children_of_a_text_node_are_not_rendered() {
    let node = Node::text("leaf").with_child(Node::native("div"));
    assert_eq!(node.children().len(), 1);
    assert_eq!(node.to_html(), "leaf");
}

#[test]
fn attributes_of_a_text_node_are_not_rendered() {
    let node = Node::text("leaf").with_attribute("id", NodeAttributeValue::from(1));
    assert_eq!(node.attributes().len(), 1);
    assert_eq!(node.to_html(), "leaf");
}

#[test]
fn children_and_attributes_of_a_boundary_are_not_rendered() {
    let node = Node::custom(Box::new(Test {}))
        .with_child(Node::text("ignored"))
        .with_attribute("id", NodeAttributeValue::from(1));
    assert_eq!(node.to_html(), "Hello world");
}

#[test]
fn application_renders_the_greeting_inside_a_div() {
    let tree = App::default().view();
    assert_eq!(tree.to_html(), "<div>\n  Hello world\n</div>");
}

#[test]
fn greeting_view_is_a_text_leaf() {
    let node = Test {}.view();
    assert!(matches!(node.kind(), NodeKind::Text(text) if text == "Hello world"));
    assert!(node.children().is_empty());
    assert_eq!(node.attributes().len(), 0);
    assert!(node.on_click().is_none());
}

#[test]
fn updates_of_the_demo_components_ask_for_no_effect() {
    assert!(Test {}.update(()).is_none());
    assert!(App::default().update(()).is_none());
}

#[test]
fn component_is_rendered_once_when_the_boundary_is_built() {
    let views = Rc::new(Cell::new(0));
    let node = Node::custom(Box::new(Counted { views: views.clone() }));
    assert_eq!(views.get(), 1);
    assert_eq!(node.to_html(), "<p>\n  counted\n</p>");
    assert_eq!(node.to_html(), "<p>\n  counted\n</p>");
    assert_eq!(views.get(), 1);
}

#[test]
fn boundary_inside_an_element_is_indented_like_its_rendering() {
    let views = Rc::new(Cell::new(0));
    let tree = Node::native("main").with_child(Node::custom(Box::new(Counted { views })));
    assert_eq!(tree.to_html(), "<main>\n  <p>\n    counted\n  </p>\n</main>");
}

#[test]
fn constructors_start_without_children_attributes_or_message() {
    let native = Node::native("div");
    assert!(matches!(native.kind(), NodeKind::Native { tag } if tag == "div"));
    assert!(native.children().is_empty());
    assert_eq!(native.attributes().len(), 0);
    assert!(native.on_click().is_none());

    let custom = Node::custom(Box::new(Test {}));
    match custom.kind() {
        NodeKind::Custom { rendered, .. } => {
            assert!(matches!(rendered.kind(), NodeKind::Text(text) if text == "Hello world"));
        }
        _ => panic!("a boundary node is of the custom kind"),
    }
    assert!(custom.children().is_empty());
    assert_eq!(custom.attributes().len(), 0);
    assert!(custom.on_click().is_none());
}

#[test]
fn with_child_appends_at_the_end() {
    let node = Node::native("div").with_child(Node::text("a")).with_child(Node::text("b"));
    let children = node.children();
    assert_eq!(children.len(), 2);
    assert_eq!(children[0].to_html(), "a");
    assert_eq!(children[1].to_html(), "b");
}
