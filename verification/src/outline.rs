use vstd::prelude::*;
use crate::file::{forest, group, indent, with_children};
use crate::line::parse_line;
use crate::node::Element;
use crate::text::{lemma_skip_blanks, trimmed};

verus! {

/// One element of a forest as an outline shows it: the trimmed line that it
/// was built from, and how deep it is nested.
pub ghost struct Entry {
    pub raw: Seq<char>,
    pub depth: int,
}

/// The outline of the elements of `nodes` from index `i` on, each followed
/// by the outline of its children, one level deeper.
pub open spec fn outline(nodes: Seq<Element>, i: int, depth: int) -> Seq<Entry>
    decreases nodes, nodes.len() - i,
{
    if i < 0 || i >= nodes.len() {
        Seq::empty()
    } else {
        seq![Entry { raw: nodes[i].raw, depth }] + outline(nodes[i].children, 0, depth + 1)
            + outline(nodes, i + 1, depth)
    }
}

/// The lines `from..to` with the depths that `depths` gives them.
pub open spec fn entries(lines: Seq<Seq<char>>, depths: Seq<int>, from: int, to: int) -> Seq<Entry> {
    Seq::new(
        (to - from) as nat,
        |j: int| Entry { raw: trimmed(lines[from + j]), depth: depths[from + j] },
    )
}

/// Whether `depths` gives each line a depth that orders the lines as their
/// indentation does, and no line is more than one level deeper than the line
/// before it.
#[verifier::opaque]
pub open spec fn well_nested(lines: Seq<Seq<char>>, depths: Seq<int>) -> bool {
    &&& depths.len() == lines.len()
    &&& forall|j: int, k: int|
        0 <= j < lines.len() && 0 <= k < lines.len() ==> ((#[trigger] depths[j]) < (
        #[trigger] depths[k])) == (indent(lines[j]) < indent(lines[k]))
    &&& forall|k: int| 0 < k < lines.len() ==> (#[trigger] depths[k]) <= depths[k - 1] + 1
}

/// Two lines of a well nested sequence compare by depth as they do by
/// indentation.
pub proof fn lemma_same_order(lines: Seq<Seq<char>>, depths: Seq<int>, j: int, k: int)
    requires
        well_nested(lines, depths),
        0 <= j < lines.len(),
        0 <= k < lines.len(),
    ensures
        depths.len() == lines.len(),
        (depths[j] < depths[k]) == (indent(lines[j]) < indent(lines[k])),
        (depths[j] == depths[k]) == (indent(lines[j]) == indent(lines[k])),
        k > 0 ==> depths[k] <= depths[k - 1] + 1,
{
    reveal(well_nested);
    assert((depths[k] < depths[j]) == (indent(lines[k]) < indent(lines[j])));
}

/// A block of lines is its first line, the lines up to `m` and the lines
/// from `m` on.
pub proof fn lemma_entries_split(
    lines: Seq<Seq<char>>,
    depths: Seq<int>,
    i: int,
    m: int,
    end: int,
)
    requires
        0 <= i < m <= end,
    ensures
        seq![Entry { raw: trimmed(lines[i]), depth: depths[i] }] + entries(lines, depths, i + 1, m)
            + entries(lines, depths, m, end) =~= entries(lines, depths, i, end),
{
}

/// The index of the first line at or after `i` that is less deep than `d`,
/// or the number of lines where there is none.
pub open spec fn block_end(depths: Seq<int>, i: int, d: int) -> int
    decreases depths.len() - i,
{
    if 0 <= i < depths.len() && depths[i] >= d {
        block_end(depths, i + 1, d)
    } else {
        i
    }
}

/// A block ends at or behind its start, holds no line less deep than `d`,
/// and ends at a line that is less deep or with the last line.
pub proof fn lemma_block_end(depths: Seq<int>, i: int, d: int)
    requires
        0 <= i <= depths.len(),
    ensures
        i <= block_end(depths, i, d) <= depths.len(),
        forall|k: int| i <= k < block_end(depths, i, d) ==> (#[trigger] depths[k]) >= d,
        block_end(depths, i, d) < depths.len() ==> depths[block_end(depths, i, d)] < d,
    decreases depths.len() - i,
{
    if i < depths.len() && depths[i] >= d {
        lemma_block_end(depths, i + 1, d);
    }
}

/// A block that is entered later, behind lines that are all `d` deep or
/// deeper, ends where it ends from the start.
pub proof fn lemma_block_end_from(depths: Seq<int>, i: int, m: int, d: int)
    requires
        0 <= i <= m <= depths.len(),
        forall|k: int| i <= k < m ==> (#[trigger] depths[k]) >= d,
    ensures
        block_end(depths, i, d) == block_end(depths, m, d),
    decreases m - i,
{
    if i < m {
        lemma_block_end_from(depths, i + 1, m, d);
    }
}

/// The outline of a forest behind one more first element is the outline of
/// the forest.
pub proof fn lemma_outline_shift(first: Element, rest: Seq<Element>, j: int, depth: int)
    requires
        0 <= j <= rest.len(),
    ensures
        outline(seq![first] + rest, j + 1, depth) == outline(rest, j, depth),
    decreases rest.len() - j,
{
    let all = seq![first] + rest;
    if j < rest.len() {
        assert(all[j + 1] == rest[j]);
        lemma_outline_shift(first, rest, j + 1, depth);
    }
}

/// Lines that are deeper than the baseline are passed over.
pub proof fn lemma_group_skips(
    lines: Seq<Seq<char>>,
    depths: Seq<int>,
    i: int,
    m: int,
    anchor: int,
)
    requires
        well_nested(lines, depths),
        0 <= anchor < lines.len(),
        0 <= i <= m <= lines.len(),
        depths.len() == lines.len(),
        forall|k: int| i <= k < m ==> (#[trigger] depths[k]) > depths[anchor],
    ensures
        group(lines, i, indent(lines[anchor])) == group(lines, m, indent(lines[anchor])),
    decreases m - i,
{
    if i < m {
        lemma_same_order(lines, depths, anchor, i);
        lemma_group_skips(lines, depths, i + 1, m, anchor);
    }
}

/// The outline of a group that starts with an element for the line `i`,
/// whose children are `kids`, and goes on with `rest`.
pub proof fn lemma_outline_of_group(
    line: Seq<char>,
    kids: Seq<Element>,
    rest: Seq<Element>,
    d: int,
)
    ensures
        outline(seq![with_children(parse_line(line), kids)] + rest, 0, d) == seq![
            Entry { raw: trimmed(line), depth: d },
        ] + outline(kids, 0, d + 1) + outline(rest, 0, d),
{
    let node = with_children(parse_line(line), kids);
    let all = seq![node] + rest;
    assert(all[0] == node);
    lemma_outline_shift(node, rest, 0, d);
}

/// The group at the indentation of the line `anchor`, read from a line `i`
/// that is not deeper, holds every line up to the end of the block, in the
/// order of the source and each at its depth.
pub proof fn lemma_group_outline(lines: Seq<Seq<char>>, depths: Seq<int>, i: int, anchor: int)
    requires
        well_nested(lines, depths),
        depths.len() == lines.len(),
        0 <= anchor <= i <= lines.len(),
        anchor < lines.len(),
        i < lines.len() ==> depths[i] <= depths[anchor],
    ensures
        outline(group(lines, i, indent(lines[anchor])), 0, depths[anchor]) == entries(
            lines,
            depths,
            i,
            block_end(depths, i, depths[anchor]),
        ),
    decreases lines.len() - i,
{
    let base = indent(lines[anchor]);
    let d = depths[anchor];
    let end = block_end(depths, i, d);
    if i >= lines.len() {
        assert(entries(lines, depths, i, end) =~= Seq::empty());
    } else if depths[i] < d {
        lemma_same_order(lines, depths, i, anchor);
        assert(entries(lines, depths, i, end) =~= Seq::empty());
    } else {
        lemma_same_order(lines, depths, i, anchor);
        assert(indent(lines[i]) == base);
        let deeper = i + 1 < lines.len() && indent(lines[i + 1]) > base;
        let kids = if deeper {
            group(lines, i + 1, indent(lines[i + 1]))
        } else {
            Seq::empty()
        };
        let m = if deeper {
            block_end(depths, i + 1, d + 1)
        } else {
            i + 1
        };
        if deeper {
            lemma_same_order(lines, depths, i, i + 1);
            assert(depths[i + 1] == d + 1);
            lemma_group_outline(lines, depths, i + 1, i + 1);
            lemma_block_end(depths, i + 1, d + 1);
            lemma_group_skips(lines, depths, i + 1, m, anchor);
        } else {
            assert(entries(lines, depths, i + 1, m) =~= Seq::empty());
            if i + 1 < lines.len() {
                lemma_same_order(lines, depths, i, i + 1);
            }
        }
        assert(outline(kids, 0, d + 1) == entries(lines, depths, i + 1, m));
        let rest = group(lines, m, base);
        assert(group(lines, i, base) == seq![with_children(parse_line(lines[i]), kids)] + rest);
        lemma_group_outline(lines, depths, m, anchor);
        lemma_block_end_from(depths, i, m, d);
        lemma_block_end(depths, m, d);
        lemma_outline_of_group(lines[i], kids, rest, d);
        lemma_entries_split(lines, depths, i, m, end);
    }
}

/// Where the depths order the lines as their indentation does, no line is
/// more than one level deeper than the line before it, and none is less deep
/// than the first, the forest holds every line, in the order of the source
/// and nested as deep as its depth says.
pub proof fn lemma_forest_outline(lines: Seq<Seq<char>>, depths: Seq<int>)
    requires
        lines.len() > 0,
        well_nested(lines, depths),
        forall|k: int| 0 <= k < lines.len() ==> (#[trigger] depths[k]) >= depths[0],
    ensures
        outline(forest(lines), 0, depths[0]) == entries(lines, depths, 0, lines.len() as int),
{
    lemma_same_order(lines, depths, 0, 0);
    lemma_group_outline(lines, depths, 0, 0);
    lemma_block_end(depths, 0, depths[0]);
}

/// Where every line is indented by a whole number of steps of one size, the
/// first by none, and no line by more than one step more than the line
/// before it, the forest nests every line as deep as its indentation
/// divided by the step says.
pub proof fn lemma_uniform_step_depth(lines: Seq<Seq<char>>, depths: Seq<int>, step: int)
    requires
        lines.len() > 0,
        step > 0,
        depths.len() == lines.len(),
        forall|k: int| 0 <= k < lines.len() ==> indent(lines[k]) == step * (#[trigger] depths[k]),
        depths[0] == 0,
        forall|k: int| 0 < k < lines.len() ==> (#[trigger] depths[k]) <= depths[k - 1] + 1,
    ensures
        outline(forest(lines), 0, 0) == entries(lines, depths, 0, lines.len() as int),
{
    reveal(well_nested);
    assert forall|j: int, k: int| 0 <= j < lines.len() && 0 <= k < lines.len() implies ((
    #[trigger] depths[j]) < (#[trigger] depths[k])) == (indent(lines[j]) < indent(lines[k])) by {
        let x = depths[j];
        let y = depths[k];
        assert((x < y) == (step * x < step * y)) by (nonlinear_arith)
            requires
                step > 0,
        ;
    }
    assert forall|k: int| 0 <= k < lines.len() implies (#[trigger] depths[k]) >= depths[0] by {
        let x = depths[k];
        lemma_skip_blanks(lines[k], 0);
        assert(x >= 0) by (nonlinear_arith)
            requires
                step > 0,
                step * x >= 0,
        ;
    }
    lemma_forest_outline(lines, depths);
}

} // verus!
