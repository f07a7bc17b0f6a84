use premark::line::{apply_shorthands, marker_name, merge_fragment, name_of_head, scan_rest, shorthand_head};
use premark::node::{head, tail, Node, Property};
use premark::text::{count_leading_blanks, same_text, slice_of, split_words, trim_text};

fn props_of(node: &Node) -> Vec<(String, String)> {
    node.properties.iter().map(|p| (p.name.clone(), p.value.clone())).collect()
}

fn pair(name: &str, value: &str) -> (String, String) {
    (name.to_string(), value.to_string())
}

#[test]
fn two_class_shorthands_merge_into_one_property() {
    let node = Node::new("div.a.b");
    assert_eq!(node.name, "div");
    assert_eq!(props_of(&node), vec![pair("class", "a b")]);
    assert_eq!(node.content, "");
    assert!(node.children.is_empty());
}

#[test]
fn shorthands_of_each_kind_keep_their_order() {
    let node = Node::new("a.x#y.z:n");
    assert_eq!(node.name, "a");
    assert_eq!(props_of(&node), vec![pair("class", "x z"), pair("id", "y"), pair("name", "n")]);
}

#[test]
fn repeated_id_and_name_shorthands_merge_too() {
    let node = Node::new("p#one#two:a:b");
    assert_eq!(props_of(&node), vec![pair("id", "one two"), pair("name", "a b")]);
}

#[test]
fn head_without_shorthand_is_the_name() {
    let node = Node::new("  section  ");
    assert_eq!(node.name, "section");
    assert!(node.properties.is_empty());
    assert_eq!(node.raw, "section");
}

#[test]
fn lone_marker_is_no_shorthand() {
    let node = Node::new("a.");
    assert_eq!(node.name, "a.");
    assert!(node.properties.is_empty());
}

#[test]
fn head_of_shorthands_only_has_empty_name() {
    let node = Node::new(".box");
    assert_eq!(node.name, "");
    assert_eq!(props_of(&node), vec![pair("class", "box")]);
}

#[test]
fn name_shorthand_stops_at_a_dot() {
    let node = Node::new("a:x.y");
    assert_eq!(node.name, "a");
    assert_eq!(props_of(&node), vec![pair("name", "x"), pair("class", "y")]);
}

#[test]
fn bang_marks_self_closing_and_is_stripped() {
    let node = Node::new("br!");
    assert_eq!(node.name, "br");
    assert_eq!(props_of(&node), vec![pair("_selfclosing", "")]);
}

#[test]
fn bang_in_the_middle_is_part_of_the_name() {
    let node = Node::new("a!b");
    assert_eq!(node.name, "a!b");
    assert!(node.properties.is_empty());
}

#[test]
fn self_closing_with_shorthand() {
    let node = Node::new("img.wide!");
    assert_eq!(node.name, "img");
    assert_eq!(props_of(&node), vec![pair("_selfclosing", ""), pair("class", "wide")]);
}

#[test]
fn lone_bang_gives_empty_name() {
    let node = Node::new("!");
    assert_eq!(node.name, "");
    assert_eq!(props_of(&node), vec![pair("_selfclosing", "")]);
}

#[test]
fn bracket_attribute_becomes_property() {
    let node = Node::new("input [type text]");
    assert_eq!(node.name, "input");
    assert_eq!(props_of(&node), vec![pair("type", "text")]);
    assert_eq!(node.content, "");
}

#[test]
fn bracket_value_is_space_joined() {
    let node = Node::new("a [title one two three] go");
    assert_eq!(props_of(&node), vec![pair("title", "one two three")]);
    assert_eq!(node.content, "go");
}

#[test]
fn bracket_closed_by_lone_bracket_keeps_trailing_space() {
    let node = Node::new("a [title one ]");
    assert_eq!(props_of(&node), vec![pair("title", "one ")]);
}

#[test]
fn bracket_attributes_are_not_merged() {
    let node = Node::new("a.x [class y] [class z]");
    assert_eq!(props_of(&node), vec![pair("class", "x"), pair("class", "y"), pair("class", "z")]);
}

#[test]
fn unterminated_bracket_swallows_the_rest() {
    let node = Node::new("p before [title hello world");
    assert_eq!(node.name, "p");
    assert!(node.properties.is_empty());
    assert_eq!(node.content, "before");
}

#[test]
fn bracket_opened_and_closed_in_one_token_stays_open() {
    let node = Node::new("p [a] b c]");
    assert_eq!(props_of(&node), vec![pair("a]", "b c")]);
}

#[test]
fn content_tokens_run_together() {
    let node = Node::new("p hello  big world");
    assert_eq!(node.content, "hellobigworld");
}

#[test]
fn shorthand_behind_the_head_is_content() {
    let node = Node::new("  span :label hello");
    assert_eq!(node.name, "span");
    assert!(node.properties.is_empty());
    assert_eq!(node.content, ":labelhello");
    assert_eq!(node.raw, "span :label hello");
}

#[test]
fn empty_line_gives_empty_element() {
    for raw in ["", "   ", "\t \t"] {
        let node = Node::new(raw);
        assert_eq!(node.name, "");
        assert!(node.properties.is_empty());
        assert_eq!(node.content, "");
        assert!(node.children.is_empty());
        assert_eq!(node.raw, "");
    }
}

#[test]
fn from_matches_uses_the_matches_it_is_given() {
    let given = vec!["xab".to_string(), "".to_string(), ".".to_string(), ".c".to_string(), "ycd".to_string()];
    let node = Node::from_matches("div.ignored rest", &given);
    assert_eq!(node.name, "div");
    assert_eq!(props_of(&node), vec![pair("_", "ab cd"), pair("class", "c")]);
    assert_eq!(node.content, "rest");
}

#[test]
fn from_matches_without_shorthand_keeps_whole_head() {
    let given = vec!["".to_string(), "#".to_string()];
    let node = Node::from_matches("div.a", &given);
    assert_eq!(node.name, "div.a");
    assert!(node.properties.is_empty());
}

#[test]
fn marker_names() {
    assert_eq!(marker_name(".a"), "class");
    assert_eq!(marker_name("#a"), "id");
    assert_eq!(marker_name(":a"), "name");
    assert_eq!(marker_name("xa"), "_");
    assert_eq!(marker_name(""), "_");
}

#[test]
fn merge_fragment_joins_or_pushes() {
    let mut props = vec![Property::new("id".to_string(), Some("x".to_string()))];
    merge_fragment(&mut props, "class", "a");
    merge_fragment(&mut props, "id", "y");
    merge_fragment(&mut props, "class", "b");
    let got: Vec<(String, String)> = props.iter().map(|p| (p.name.clone(), p.value.clone())).collect();
    assert_eq!(got, vec![pair("id", "x y"), pair("class", "a b")]);
}

#[test]
fn apply_shorthands_reports_whether_any_was_found() {
    let mut props: Vec<Property> = vec![];
    assert!(!apply_shorthands(&mut props, &vec!["".to_string(), ".".to_string()]));
    assert!(props.is_empty());
    assert!(apply_shorthands(&mut props, &vec![".a".to_string()]));
    assert_eq!(props.len(), 1);
}

#[test]
fn name_of_head_cuts_at_first_marker() {
    assert_eq!(name_of_head("div#a.b", true), "div");
    assert_eq!(name_of_head("div#a.b", false), "div#a.b");
    assert_eq!(name_of_head("div", true), "div");
    assert_eq!(name_of_head("", true), "");
}

#[test]
fn scan_rest_skips_the_head() {
    let tokens: Vec<String> = vec!["[x".to_string(), "[k".to_string(), "v]".to_string(), "t".to_string()];
    let mut props: Vec<Property> = vec![];
    let content = scan_rest(&tokens, &mut props);
    assert_eq!(content, "t");
    assert_eq!(props.len(), 1);
    assert_eq!(props[0].name, "k");
    assert_eq!(props[0].value, "v");
}

#[test]
fn shorthand_head_strips_the_bang() {
    assert_eq!(shorthand_head("  br! x"), "br");
    assert_eq!(shorthand_head("div.a x"), "div.a");
    assert_eq!(shorthand_head("   "), "");
}

#[test]
fn tail_and_head_drop_one_character() {
    assert_eq!(tail(".box"), "box");
    assert_eq!(tail("x"), "");
    assert_eq!(head("text]"), "text");
    assert_eq!(head("x"), "");
    assert_eq!(tail("\u{e9}t\u{e9}"), "t\u{e9}");
    assert_eq!(head("\u{e9}t\u{e9}"), "\u{e9}t");
}

#[test]
fn property_new_defaults_to_empty_value() {
    let p = Property::new("a".to_string(), None);
    assert_eq!(p.name, "a");
    assert_eq!(p.value, "");
    let q = Property::new("b".to_string(), Some("v".to_string()));
    assert_eq!(q.name, "b");
    assert_eq!(q.value, "v");
}

#[test]
fn words_and_trimming() {
    assert_eq!(split_words("  a  bc\td \n"), vec!["a".to_string(), "bc".to_string(), "d".to_string()]);
    assert!(split_words(" \t ").is_empty());
    assert_eq!(split_words("one"), vec!["one".to_string()]);
    assert_eq!(trim_text("  a b \t"), "a b");
    assert_eq!(trim_text("a"), "a");
    assert_eq!(trim_text("   "), "");
    assert_eq!(trim_text(""), "");
    assert_eq!(slice_of("abcdef", 2, 4), "cd");
    assert!(same_text("ab", "ab"));
    assert!(!same_text("ab", "abc"));
}

#[test]
fn leading_blanks_counts_characters() {
    assert_eq!(count_leading_blanks(""), 0);
    assert_eq!(count_leading_blanks("x  "), 0);
    assert_eq!(count_leading_blanks("   "), 3);
    assert_eq!(count_leading_blanks(" \t x"), 3);
    assert_eq!(count_leading_blanks("\u{3000}\u{a0}x"), 2);
}

#[test]
fn blank_characters_are_those_of_the_standard_library() {
    let mut code: u32 = 0;
    while code <= 0x10ffff {
        if let Some(c) = char::from_u32(code) {
            assert_eq!(premark::text::char_is_blank(c), c.is_whitespace(), "U+{:04X}", code);
        }
        code += 1;
    }
}
