use premark::file::{indent_level, parse_group, split_by_section};
use premark::node::Node;

fn lines(text: &[&str]) -> Vec<String> {
    text.iter().map(|l| l.to_string()).collect()
}

fn shape(node: &Node) -> String {
    let kids: Vec<String> = node.children.iter().map(shape).collect();
    format!("{}[{}]", node.name, kids.join(","))
}

fn shapes(nodes: &[Node]) -> Vec<String> {
    nodes.iter().map(shape).collect()
}

fn render_all(nodes: &[Node]) -> String {
    let mut out = String::new();
    for node in nodes {
        out.push_str(&node.print(String::new()));
    }
    out
}

#[test]
fn indent_level_counts_leading_whitespace() {
    assert_eq!(indent_level("div"), 0);
    assert_eq!(indent_level("  div"), 2);
    assert_eq!(indent_level("\t\tdiv  "), 2);
    assert_eq!(indent_level(" \t div"), 3);
    assert_eq!(indent_level("    "), 4);
    assert_eq!(indent_level(""), 0);
}

#[test]
fn round_trip_of_two_lines() {
    let forest = split_by_section(lines(&["div.box#main", "  span:label hello"]));
    assert_eq!(forest.len(), 1);
    let div = &forest[0];
    assert_eq!(div.name, "div");
    assert_eq!(div.properties.len(), 2);
    assert_eq!(div.properties[0].name, "class");
    assert_eq!(div.properties[0].value, "box");
    assert_eq!(div.properties[1].name, "id");
    assert_eq!(div.properties[1].value, "main");
    assert_eq!(div.children.len(), 1);
    let span = &div.children[0];
    assert_eq!(span.name, "span");
    assert_eq!(span.properties.len(), 1);
    assert_eq!(span.properties[0].name, "name");
    assert_eq!(span.properties[0].value, "label");
    assert_eq!(span.content, "hello");
    assert!(span.children.is_empty());
    assert_eq!(
        div.print(String::new()),
        "<div class=\"box\" id=\"main\">\n  <span name=\"label\">hello</span>\n</div>\n"
    );
}

#[test]
fn round_trip_with_shorthand_behind_the_head() {
    let forest = split_by_section(lines(&["div.box#main", "  span :label hello"]));
    assert_eq!(shapes(&forest), vec!["div[span[]]".to_string()]);
    assert_eq!(
        forest[0].print(String::new()),
        "<div class=\"box\" id=\"main\">\n  <span>:labelhello</span>\n</div>\n"
    );
}

#[test]
fn single_line() {
    let forest = split_by_section(lines(&["p"]));
    assert_eq!(shapes(&forest), vec!["p[]".to_string()]);
}

#[test]
fn siblings_at_the_baseline() {
    let forest = split_by_section(lines(&["a", "b", "c"]));
    assert_eq!(shapes(&forest), vec!["a[]".to_string(), "b[]".to_string(), "c[]".to_string()]);
}

#[test]
fn nesting_follows_indentation() {
    let forest = split_by_section(lines(&["a", "  b", "    c", "  d", "e", "  f"]));
    assert_eq!(shapes(&forest), vec!["a[b[c[]],d[]]".to_string(), "e[f[]]".to_string()]);
}

#[test]
fn rendered_depth_matches_source_depth() {
    let source = lines(&["html", "   body", "      main", "         p text", "      footer", "   aside"]);
    let forest = split_by_section(source);
    let expected = "<html>\n  <body>\n    <main>\n      <p>text</p>\n    </main>\n    <footer></footer>\n  </body>\n  <aside></aside>\n</html>\n";
    assert_eq!(render_all(&forest), expected);
}

#[test]
fn rendered_depth_with_tabs() {
    let forest = split_by_section(lines(&["ul", "\tli", "\t\ta x", "\tli"]));
    assert_eq!(
        render_all(&forest),
        "<ul>\n  <li>\n    <a>x</a>\n  </li>\n  <li></li>\n</ul>\n"
    );
}

#[test]
fn baseline_need_not_be_zero() {
    let forest = split_by_section(lines(&["    a", "      b", "    c"]));
    assert_eq!(shapes(&forest), vec!["a[b[]]".to_string(), "c[]".to_string()]);
}

#[test]
fn shallower_line_ends_the_group() {
    let forest = split_by_section(lines(&["  a", "  b", "c", "  d", "  e"]));
    assert_eq!(shapes(&forest), vec!["a[]".to_string(), "b[]".to_string()]);
}

#[test]
fn shallower_line_ends_the_group_whatever_follows() {
    let with_rest = split_by_section(lines(&["  a", "    b", " c", "  d", "    e"]));
    let without = split_by_section(lines(&["  a", "    b"]));
    assert_eq!(shapes(&with_rest), shapes(&without));
    assert_eq!(shapes(&with_rest), vec!["a[b[]]".to_string()]);
}

#[test]
fn orphaned_deeper_lines_are_dropped() {
    let forest = split_by_section(lines(&["a", "    b", "  c", "d"]));
    assert_eq!(shapes(&forest), vec!["a[b[]]".to_string(), "d[]".to_string()]);
}

#[test]
fn blank_line_counts_by_its_whitespace() {
    let forest = split_by_section(lines(&["a", "", "b"]));
    assert_eq!(shapes(&forest), vec!["a[]".to_string(), "[]".to_string(), "b[]".to_string()]);
}

#[test]
fn parse_group_starts_where_it_is_told() {
    let source = lines(&["a", "  b", "  c", "d"]);
    assert_eq!(shapes(&parse_group(&source, 1)), vec!["b[]".to_string(), "c[]".to_string()]);
    assert_eq!(shapes(&parse_group(&source, 3)), vec!["d[]".to_string()]);
}

#[test]
fn document_with_doctype_and_self_closing() {
    let forest = split_by_section(lines(&[
        "doctype html",
        "html",
        "  head",
        "    meta! [charset utf-8]",
        "  body.page",
        "    br!",
    ]));
    assert_eq!(
        render_all(&forest),
        "<!DOCTYPE HTML><html>\n  <head>\n    <meta charset=\"utf-8\"/>\n  </head>\n  <body class=\"page\">\n    <br/>\n  </body>\n</html>\n"
    );
}
