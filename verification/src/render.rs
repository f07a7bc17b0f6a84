use vstd::prelude::*;
use vstd::string::*;
use crate::text::{lowercase, same_text, to_lower, to_upper, uppercase};
use crate::node::{attributes, elements, Attribute, Element, Node, Property};
use crate::line::{
    closing_marker, element_with, is_self_closing, merged, parse_line, scan_start, scan_step,
    scan_tokens, shorthand_props, Scan,
};

verus! {

/// Whether an element is the document type declaration: its name is
/// `doctype`, in any mixture of cases.
pub open spec fn is_doctype(e: Element) -> bool {
    lowercase(e.name) == "doctype"@
}

/// Whether a property is the marker of a self-closing element.
pub open spec fn is_closing_marker(a: Attribute) -> bool {
    a.name == "_selfclosing"@
}

/// Whether the properties hold the marker of a self-closing element.
pub open spec fn self_closing(props: Seq<Attribute>) -> bool {
    exists|i: int| 0 <= i < props.len() && is_closing_marker(#[trigger] props[i])
}

/// One property as it stands in a tag: a space, the lower-cased name and,
/// where the value is not empty, `="value"`. The marker gives nothing.
pub open spec fn attribute_text(a: Attribute) -> Seq<char> {
    if is_closing_marker(a) {
        Seq::empty()
    } else if a.value.len() > 0 {
        " "@ + lowercase(a.name) + "=\""@ + a.value + "\""@
    } else {
        " "@ + lowercase(a.name)
    }
}

/// The properties from index `i` on as they stand in a tag.
pub open spec fn attributes_text(props: Seq<Attribute>, i: int) -> Seq<char>
    decreases props.len() - i,
{
    if i < 0 || i >= props.len() {
        Seq::empty()
    } else {
        attribute_text(props[i]) + attributes_text(props, i + 1)
    }
}

/// What stands between the opening tag and the children.
pub open spec fn lead_text(e: Element, prefix: Seq<char>) -> Seq<char> {
    if e.children.len() > 0 && e.content.len() > 0 {
        "\n"@ + prefix + "  "@ + e.content + "\n"@
    } else if e.content.len() > 0 {
        e.content
    } else if e.children.len() > 0 {
        "\n"@
    } else {
        Seq::empty()
    }
}

/// The closing tag, indented where the element has children.
pub open spec fn closing_text(e: Element, prefix: Seq<char>) -> Seq<char> {
    (if e.children.len() > 0 {
        prefix
    } else {
        Seq::empty()
    }) + "</"@ + lowercase(e.name) + ">\n"@
}

/// The opening tag up to, and without, the `>` or `/>` that ends it.
pub open spec fn opening_text(e: Element, prefix: Seq<char>) -> Seq<char> {
    prefix + "<"@ + lowercase(e.name) + attributes_text(e.properties, 0)
}

/// The text of an element at the nesting that `prefix` stands for.
pub open spec fn render(e: Element, prefix: Seq<char>) -> Seq<char>
    decreases e, 1nat, 0nat,
{
    if is_doctype(e) {
        "<!DOCTYPE "@ + uppercase(e.content) + ">"@
    } else if self_closing(e.properties) {
        opening_text(e, prefix) + "/>\n"@
    } else {
        opening_text(e, prefix) + ">"@ + lead_text(e, prefix) + render_children(e, 0, "  "@ + prefix)
            + closing_text(e, prefix)
    }
}

/// The texts of the children of `e` from index `i` on, one behind the other.
pub open spec fn render_children(e: Element, i: int, prefix: Seq<char>) -> Seq<char>
    decreases e, 0nat, e.children.len() - i,
{
    if i < 0 || i >= e.children.len() {
        Seq::empty()
    } else {
        render(e.children[i], prefix) + render_children(e, i + 1, prefix)
    }
}

/// Appends the properties as they stand in a tag, and says whether the
/// marker of a self-closing element is among them.
pub fn print_attributes(props: &Vec<Property>, out: &mut String) -> (closing: bool)
    ensures
        final(out)@ == old(out)@ + attributes_text(attributes(props@), 0),
        closing == self_closing(attributes(props@)),
{
    let ghost ps = attributes(props@);
    let ghost start = out@;
    let n = props.len();
    let mut closing = false;
    let mut i: usize = 0;
    assert(out@ + attributes_text(ps, 0) == start + attributes_text(ps, 0));
    while i < n
        invariant
            i <= n,
            n == props@.len(),
            ps == attributes(props@),
            out@ + attributes_text(ps, i as int) == start + attributes_text(ps, 0),
            closing == (exists|k: int| 0 <= k < i && is_closing_marker(#[trigger] ps[k])),
        decreases n - i,
    {
        let prop = &props[i];
        let ghost before = out@;
        let ghost rest = attributes_text(ps, i as int + 1);
        assert(prop@ == ps[i as int]);
        if same_text(prop.name.as_str(), "_selfclosing") {
            closing = true;
        } else {
            out.append(" ");
            out.append(to_lower(prop.name.as_str()).as_str());
            if prop.value.as_str().unicode_len() > 0 {
                out.append("=\"");
                out.append(prop.value.as_str());
                out.append("\"");
            }
        }
        assert(out@ =~= before + attribute_text(ps[i as int]));
        assert(out@ + rest =~= before + (attribute_text(ps[i as int]) + rest));
        i = i + 1;
    }
    assert(out@ + Seq::<char>::empty() =~= out@);
    closing
}

impl Node {
    /// The text of this element and of all below it, at the nesting that
    /// `prefix` stands for.
    pub fn print(&self, prefix: String) -> (out: String)
        ensures
            out@ == render(self@, prefix@),
        decreases self,
    {
        broadcast use vstd::std_specs::vec::axiom_vec_index_decreases;

        proof {
            self.lemma_view();
        }
        let lowered = to_lower(self.name.as_str());
        if same_text(lowered.as_str(), "doctype") {
            let mut out = String::from_str("<!DOCTYPE ");
            out.append(to_upper(self.content.as_str()).as_str());
            out.append(">");
            return out;
        }
        let mut full = String::from_str(prefix.as_str());
        full.append("<");
        full.append(lowered.as_str());
        let closing = print_attributes(&self.properties, &mut full);
        assert(full@ =~= opening_text(self@, prefix@));
        if closing {
            full.append("/>\n");
            return full;
        }
        let n = self.children.len();
        let filled = self.content.as_str().unicode_len() > 0;
        full.append(">");
        if n > 0 && filled {
            full.append("\n");
            full.append(prefix.as_str());
            full.append("  ");
            full.append(self.content.as_str());
            full.append("\n");
        } else if filled {
            full.append(self.content.as_str());
        } else if n > 0 {
            full.append("\n");
        }
        assert(full@ =~= opening_text(self@, prefix@) + ">"@ + lead_text(self@, prefix@));
        let deeper = String::from_str("  ").concat(prefix.as_str());
        let ghost start = full@;
        let mut i: usize = 0;
        assert(full@ + render_children(self@, 0, deeper@) == start + render_children(
            self@,
            0,
            deeper@,
        ));
        while i < n
            invariant
                i <= n,
                n == self.children@.len(),
                self@.children == elements(self.children@),
                full@ + render_children(self@, i as int, deeper@) == start + render_children(
                    self@,
                    0,
                    deeper@,
                ),
            decreases n - i,
        {
            let child = &self.children[i];
            let text = child.print(String::from_str(deeper.as_str()));
            let ghost before = full@;
            let ghost rest = render_children(self@, i as int + 1, deeper@);
            full.append(text.as_str());
            assert(text@ == render(self@.children[i as int], deeper@));
            assert(full@ + rest =~= before + (text@ + rest));
            i = i + 1;
        }
        assert(full@ + Seq::<char>::empty() =~= full@);
        let ghost kids = full@;
        if n > 0 {
            full.append(prefix.as_str());
        }
        full.append("</");
        full.append(lowered.as_str());
        full.append(">\n");
        assert(full@ =~= kids + closing_text(self@, prefix@));
        full
    }
}

/// The document type declaration is its upper-cased content between
/// `<!DOCTYPE ` and `>`: properties, children and nesting do not show.
pub proof fn lemma_doctype_render(a: Element, b: Element, p: Seq<char>, q: Seq<char>)
    requires
        is_doctype(a),
        is_doctype(b),
        a.content == b.content,
    ensures
        render(a, p) == "<!DOCTYPE "@ + uppercase(a.content) + ">"@,
        render(a, p) == render(b, q),
{
}

/// An element that holds the marker is rendered as its opening tag closed
/// by `/>` and a newline: no content, no children, no closing tag.
pub proof fn lemma_self_closing_render(e: Element, prefix: Seq<char>)
    requires
        !is_doctype(e),
        self_closing(e.properties),
    ensures
        render(e, prefix) == opening_text(e, prefix) + "/>\n"@,
{
}

/// Merging a shorthand keeps the marker.
pub proof fn lemma_merged_keeps_marker(props: Seq<Attribute>, name: Seq<char>, frag: Seq<char>)
    requires
        self_closing(props),
    ensures
        self_closing(merged(props, name, frag)),
{
    let k = choose|k: int| 0 <= k < props.len() && is_closing_marker(#[trigger] props[k]);
    assert(is_closing_marker(merged(props, name, frag)[k]));
}

/// Merging the shorthands of a head keeps the marker.
pub proof fn lemma_shorthands_keep_marker(props: Seq<Attribute>, matches: Seq<Seq<char>>, i: int)
    requires
        self_closing(props),
    ensures
        self_closing(shorthand_props(props, matches, i)),
    decreases matches.len() - i,
{
    if 0 <= i < matches.len() {
        let m = matches[i];
        if m.len() > 1 {
            let next = merged(props, crate::line::canonical_name(m), m.skip(1));
            lemma_merged_keeps_marker(props, crate::line::canonical_name(m), m.skip(1));
            lemma_shorthands_keep_marker(next, matches, i + 1);
        } else {
            lemma_shorthands_keep_marker(props, matches, i + 1);
        }
    }
}

/// Reading the tokens behind the head keeps the marker.
pub proof fn lemma_scan_keeps_marker(st: Scan, tokens: Seq<Seq<char>>, i: int)
    requires
        self_closing(st.props),
    ensures
        self_closing(scan_tokens(st, tokens, i).props),
    decreases tokens.len() - i,
{
    if 0 <= i < tokens.len() {
        let k = choose|k: int| 0 <= k < st.props.len() && is_closing_marker(#[trigger] st.props[k]);
        let next = scan_step(st, tokens[i]);
        assert(is_closing_marker(next.props[k]));
        lemma_scan_keeps_marker(next, tokens, i + 1);
    }
}

/// A line whose head ends in `!` gives an element that holds the marker,
/// whatever shorthands its head has.
pub proof fn lemma_bang_gives_marker(raw: Seq<char>, matches: Seq<Seq<char>>)
    requires
        is_self_closing(raw),
    ensures
        self_closing(element_with(raw, matches).properties),
{
    let base = seq![closing_marker()];
    assert(is_closing_marker(base[0]));
    lemma_shorthands_keep_marker(base, matches, 0);
    lemma_scan_keeps_marker(scan_start(shorthand_props(base, matches, 0)), crate::text::words(raw), 1);
}

/// A line whose head ends in `!`, such as `br!`, is rendered without a
/// closing tag: the opening tag, `/>` and a newline.
pub proof fn lemma_bang_line_render(raw: Seq<char>, prefix: Seq<char>)
    requires
        is_self_closing(raw),
        !is_doctype(parse_line(raw)),
    ensures
        render(parse_line(raw), prefix) == opening_text(parse_line(raw), prefix) + "/>\n"@,
{
    lemma_bang_gives_marker(raw, crate::line::shorthand_matches(crate::line::stripped_head(raw)));
}

/// A property with a value, such as the one that `[type text]` gives, is
/// rendered as a space, its lower-cased name and the value in quotes.
pub proof fn lemma_attribute_with_value(a: Attribute)
    requires
        !is_closing_marker(a),
        a.value.len() > 0,
    ensures
        attribute_text(a) == " "@ + lowercase(a.name) + "=\""@ + a.value + "\""@,
{
}

/// But for the document type declaration, the text of an element starts
/// with its prefix and the `<` of its opening tag; its children are rendered
/// with a prefix that is two spaces longer.
pub proof fn lemma_render_starts_with_prefix(e: Element, prefix: Seq<char>)
    requires
        !is_doctype(e),
    ensures
        render(e, prefix).len() > prefix.len(),
        render(e, prefix).subrange(0, prefix.len() as int) == prefix,
        render(e, prefix)[prefix.len() as int] == '<',
        ("  "@ + prefix).len() == prefix.len() + 2,
{
    reveal_strlit("<");
    reveal_strlit("  ");
    assert(opening_text(e, prefix).subrange(0, prefix.len() as int) =~= prefix);
    assert(opening_text(e, prefix)[prefix.len() as int] == '<');
    assert(render(e, prefix).subrange(0, prefix.len() as int) =~= opening_text(e, prefix).subrange(
        0,
        prefix.len() as int,
    ));
}

} // verus!
