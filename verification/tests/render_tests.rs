use premark::node::{Node, Property};
use premark::render::print_attributes;

#[test]
fn self_closing_element_has_no_closing_tag() {
    let node = Node::new("br!");
    assert_eq!(node.print(String::new()), "<br/>\n");
}

#[test]
fn self_closing_ignores_content_and_children() {
    let mut node = Node::new("img.wide! some text [alt a b]");
    node.add_children(vec![Node::new("span")]);
    assert_eq!(node.print("  ".to_string()), "  <img class=\"wide\" alt=\"a b\"/>\n");
}

#[test]
fn doctype_renders_upper_cased_content_only() {
    let node = Node::new("doctype html");
    assert_eq!(node.print(String::new()), "<!DOCTYPE HTML>");
}

#[test]
fn doctype_ignores_children_properties_and_prefix() {
    let mut node = Node::new("DocType.x! html [a b]");
    node.add_children(vec![Node::new("p text")]);
    assert_eq!(node.print("    ".to_string()), "<!DOCTYPE HTML>");
}

#[test]
fn bracket_attribute_is_rendered_with_quotes() {
    let node = Node::new("input [type text]");
    assert_eq!(node.print(String::new()), "<input type=\"text\"></input>\n");
}

#[test]
fn names_are_lower_cased_values_are_not() {
    let node = Node::new("DIV [DATA-Key SomeValue] Text");
    assert_eq!(node.print(String::new()), "<div data-key=\"SomeValue\">Text</div>\n");
}

#[test]
fn property_without_value_has_no_equals_sign() {
    let mut node = Node::new("input");
    node.properties.push(Property::new("Disabled".to_string(), None));
    assert_eq!(node.print(String::new()), "<input disabled></input>\n");
}

#[test]
fn values_and_content_are_not_escaped() {
    let node = Node::new("p [title <\"&>] a<b>&c");
    assert_eq!(node.print(String::new()), "<p title=\"<\"&>\">a<b>&c</p>\n");
}

#[test]
fn leaf_with_prefix_closes_without_indentation() {
    let node = Node::new("p hi");
    assert_eq!(node.print("    ".to_string()), "    <p>hi</p>\n");
}

#[test]
fn empty_leaf() {
    let node = Node::new("p");
    assert_eq!(node.print(String::new()), "<p></p>\n");
    let blank = Node::new("");
    assert_eq!(blank.print(String::new()), "<></>\n");
}

#[test]
fn children_without_content() {
    let mut node = Node::new("ul");
    node.add_children(vec![Node::new("li one"), Node::new("li two")]);
    assert_eq!(node.print(String::new()), "<ul>\n  <li>one</li>\n  <li>two</li>\n</ul>\n");
}

#[test]
fn children_with_content() {
    let mut node = Node::new("div hello");
    node.add_children(vec![Node::new("span")]);
    assert_eq!(node.print(String::new()), "<div>\n  hello\n  <span></span>\n</div>\n");
    assert_eq!(node.print("  ".to_string()), "  <div>\n    hello\n    <span></span>\n  </div>\n");
}

#[test]
fn add_children_appends_in_order() {
    let mut node = Node::new("ul");
    node.add_children(vec![Node::new("a")]);
    node.add_children(vec![Node::new("b"), Node::new("c")]);
    node.add_children(vec![]);
    let names: Vec<String> = node.children.iter().map(|c| c.name.clone()).collect();
    assert_eq!(names, vec!["a".to_string(), "b".to_string(), "c".to_string()]);
    assert_eq!(node.name, "ul");
}

#[test]
fn print_attributes_skips_the_marker() {
    let props = vec![
        Property::new("A".to_string(), Some("1".to_string())),
        Property::new("_selfclosing".to_string(), None),
        Property::new("b".to_string(), None),
    ];
    let mut out = String::from("<x");
    assert!(print_attributes(&props, &mut out));
    assert_eq!(out, "<x a=\"1\" b");
    let mut other = String::new();
    assert!(!print_attributes(&props[..1].to_vec(), &mut other));
    assert_eq!(other, " a=\"1\"");
}

#[test]
fn clone_copies_the_whole_tree() {
    let mut node = Node::new("div.a hello [k v]");
    let mut child = Node::new("ul");
    child.add_children(vec![Node::new("li x")]);
    node.add_children(vec![child, Node::new("br!")]);
    let copy = node.clone();
    assert_eq!(copy.print("  ".to_string()), node.print("  ".to_string()));
    assert_eq!(copy.raw, node.raw);
    assert_eq!(copy.children[0].children[0].raw, "li x");
    let p = Property::new("a".to_string(), Some("b".to_string()));
    let q = p.clone();
    assert_eq!((q.name, q.value), (p.name, p.value));
}
