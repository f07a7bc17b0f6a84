use vstd::prelude::*;
use vstd::string::*;
use crate::text::{count_leading_blanks, leading_blanks, strs};
use crate::node::{elements, Element, Node};
use crate::line::parse_line;

verus! {

/// The indentation of a line: the number of whitespace characters that it
/// starts with.
pub open spec fn indent(line: Seq<char>) -> int {
    leading_blanks(line)
}

/// `e` with `kids` as its children.
pub open spec fn with_children(e: Element, kids: Seq<Element>) -> Element {
    Element {
        name: e.name,
        properties: e.properties,
        content: e.content,
        children: kids,
        raw: e.raw,
    }
}

/// The elements at indentation `base` that the lines from index `i` on give.
///
/// A line indented less than `base` ends the group, and nothing behind it is
/// looked at. A line at `base` becomes an element; where the next line is
/// indented deeper, the group that starts there, at that line's indentation,
/// gives its children. A deeper line is passed over.
pub open spec fn group(lines: Seq<Seq<char>>, i: int, base: int) -> Seq<Element>
    decreases lines.len() - i,
{
    if i < 0 || i >= lines.len() {
        Seq::empty()
    } else if indent(lines[i]) < base {
        Seq::empty()
    } else if indent(lines[i]) == base {
        let kids = if i + 1 < lines.len() && indent(lines[i + 1]) > base {
            group(lines, i + 1, indent(lines[i + 1]))
        } else {
            Seq::empty()
        };
        seq![with_children(parse_line(lines[i]), kids)] + group(lines, i + 1, base)
    } else {
        group(lines, i + 1, base)
    }
}

/// The forest that a sequence of lines stands for: the group at the
/// indentation of its first line.
pub open spec fn forest(lines: Seq<Seq<char>>) -> Seq<Element>
    recommends
        lines.len() > 0,
{
    group(lines, 0, indent(lines[0]))
}

/// A group has at most one element for each line from `i` on, and as many
/// lines from `i` on as it has elements are indented by `base` or more.
pub proof fn lemma_group_span(lines: Seq<Seq<char>>, i: int, base: int)
    requires
        0 <= i <= lines.len(),
    ensures
        group(lines, i, base).len() <= lines.len() - i,
        forall|k: int|
            i <= k < i + group(lines, i, base).len() ==> indent(#[trigger] lines[k]) >= base,
    decreases lines.len() - i,
{
    if i < lines.len() && indent(lines[i]) >= base {
        lemma_group_span(lines, i + 1, base);
    }
}

/// A line indented less than the baseline ends the group: the elements of
/// the group are the same whether or not that line and the lines behind it
/// are there.
pub proof fn lemma_group_stops(lines: Seq<Seq<char>>, i: int, base: int, k: int)
    requires
        0 <= i <= k < lines.len(),
        indent(lines[k]) < base,
    ensures
        group(lines, i, base) == group(lines.take(k), i, base),
    decreases k - i,
{
    let cut = lines.take(k);
    if i < k {
        assert(cut[i] == lines[i]);
        lemma_group_stops(lines, i + 1, base, k);
        if i + 1 < k {
            assert(cut[i + 1] == lines[i + 1]);
            if indent(lines[i + 1]) > base {
                lemma_group_stops(lines, i + 1, indent(lines[i + 1]), k);
            }
        }
    }
}

/// A line indented less than the first ends the forest: the forest is the
/// same whether or not that line and the lines behind it are there.
pub proof fn lemma_forest_stops(lines: Seq<Seq<char>>, k: int)
    requires
        0 < k < lines.len(),
        indent(lines[k]) < indent(lines[0]),
    ensures
        forest(lines) == forest(lines.take(k)),
{
    lemma_group_stops(lines, 0, indent(lines[0]), k);
    assert(lines.take(k)[0] == lines[0]);
}

/// The number of whitespace characters that `line` starts with.
pub fn indent_level(line: &str) -> (n: usize)
    ensures
        n == indent(line@),
        n <= line@.len(),
        forall|k: int| 0 <= k < n ==> crate::text::is_blank(#[trigger] line@[k]),
        n < line@.len() ==> !crate::text::is_blank(line@[n as int]),
{
    count_leading_blanks(line)
}

/// The group that starts at line `start`, at that line's indentation.
pub fn parse_group(lines: &Vec<String>, start: usize) -> (nodes: Vec<Node>)
    requires
        start < lines@.len(),
    ensures
        elements(nodes@) == group(strs(lines@), start as int, indent(lines@[start as int]@)),
    decreases lines@.len() - start,
{
    let ghost ls = strs(lines@);
    let n = lines.len();
    let base = indent_level(lines[start].as_str());
    assert(lines@[start as int]@ == ls[start as int]);
    let mut nodes: Vec<Node> = Vec::new();
    let mut next_skip: usize = start;
    let mut i: usize = start;
    assert(elements(nodes@) + group(ls, start as int, base as int) =~= group(
        ls,
        start as int,
        base as int,
    ));
    while i < n
        invariant
            start <= i <= n,
            next_skip <= n,
            n == lines@.len(),
            ls == strs(lines@),
            base == indent(lines@[start as int]@),
            forall|k: int| i <= k < next_skip ==> indent(#[trigger] ls[k]) > base,
            elements(nodes@) + group(ls, i as int, base as int) == group(
                ls,
                start as int,
                base as int,
            ),
        decreases n - i,
    {
        assert(lines@[i as int]@ == ls[i as int]);
        if i >= next_skip {
            let level = indent_level(lines[i].as_str());
            if level < base {
                assert(elements(nodes@) + Seq::<Element>::empty() =~= elements(nodes@));
                return nodes;
            }
            if level == base {
                let mut node = Node::new(lines[i].as_str());
                let ghost kids_view = Seq::<Element>::empty();
                if i < n - 1 {
                    assert(lines@[i as int + 1]@ == ls[i as int + 1]);
                    let deeper = indent_level(lines[i + 1].as_str());
                    if level < deeper {
                        let kids = parse_group(lines, i + 1);
                        proof {
                            lemma_group_span(ls, i as int + 1, deeper as int);
                            kids_view = elements(kids@);
                        }
                        next_skip = i + kids.len() + 1;
                        node.add_children(kids);
                    }
                }
                proof {
                    assert(node@.children =~= kids_view);
                    assert(node@ == with_children(parse_line(ls[i as int]), kids_view));
                    let rest = group(ls, i as int + 1, base as int);
                    assert(elements(nodes@.push(node)) =~= elements(nodes@) + seq![node@]);
                    assert((elements(nodes@) + seq![node@]) + rest =~= elements(nodes@) + (seq![
                        node@,
                    ] + rest));
                }
                nodes.push(node);
            }
        }
        i = i + 1;
    }
    assert(elements(nodes@) + Seq::<Element>::empty() =~= elements(nodes@));
    nodes
}

/// Builds the forest of a non-empty sequence of lines from their indentation.
pub fn split_by_section(lines: Vec<String>) -> (nodes: Vec<Node>)
    requires
        lines@.len() > 0,
    ensures
        elements(nodes@) == forest(strs(lines@)),
{
    parse_group(&lines, 0)
}

} // verus!
