use vstd::prelude::*;
use vstd::string::*;
use crate::text::{same_text, slice_of, split_words, strs, trim_text, trimmed, words};
use crate::node::{attributes, elements, head, tail, Attribute, Element, Node, Property};

verus! {

/// The texts that a regular expression matches in `text`, from left to right
/// and without overlap, as the `regex` crate finds them; `None` where the
/// crate does not accept `pattern`.
pub uninterp spec fn regex_matches(pattern: Seq<char>, text: Seq<char>) -> Option<Seq<Seq<char>>>;

/// Compiles `pattern` with `regex::Regex::new` and walks `text` with
/// `Regex::captures_iter`, keeping of each match the whole matched text
/// (group 0). Nothing is proved of it: the contract only gives the outcome its
/// name, `regex_matches`.
#[verifier::external_body]
pub(crate) fn find_matches(pattern: &str, text: &str) -> (r: Option<Vec<String>>)
    ensures
        match r {
            Some(v) => regex_matches(pattern@, text@) == Some(strs(v@)),
            None => regex_matches(pattern@, text@) is None,
        },
{
    match regex::Regex::new(pattern) {
        Ok(re) => {
            let mut out: Vec<String> = Vec::new();
            for found in re.captures_iter(text) {
                out.push(found.get(0).unwrap().as_str().to_string());
            }
            Some(out)
        },
        Err(_) => None,
    }
}

/// The pattern of one shorthand: a marker (`.`, `#` or `:`) and then one or
/// more characters that are neither a marker nor whitespace.
pub open spec fn shorthand_pattern() -> Seq<char> {
    "[.#:][^.#:\\s]+"@
}

/// The shorthands that the pattern finds in a head; none where the pattern
/// is not accepted.
pub open spec fn shorthand_matches(head: Seq<char>) -> Seq<Seq<char>> {
    match regex_matches(shorthand_pattern(), head) {
        Some(m) => m,
        None => Seq::empty(),
    }
}

/// The property name that a shorthand stands for, by its first character.
pub open spec fn canonical_name(m: Seq<char>) -> Seq<char> {
    if m.len() > 0 && m[0] == '.' {
        "class"@
    } else if m.len() > 0 && m[0] == '#' {
        "id"@
    } else if m.len() > 0 && m[0] == ':' {
        "name"@
    } else {
        "_"@
    }
}

/// Whether some property of `props` is called `name`.
pub open spec fn has_name(props: Seq<Attribute>, name: Seq<char>) -> bool {
    exists|i: int| 0 <= i < props.len() && (#[trigger] props[i]).name == name
}

/// `a` with `frag` joined to its value by one space.
pub open spec fn joined(a: Attribute, frag: Seq<char>) -> Attribute {
    Attribute { name: a.name, value: a.value + seq![' '] + frag }
}

/// `props` after a shorthand with value `frag` was read for `name`: joined to
/// the property of that name where there is one, a new last property where
/// there is none.
pub open spec fn merged(props: Seq<Attribute>, name: Seq<char>, frag: Seq<char>) -> Seq<
    Attribute,
> {
    if has_name(props, name) {
        Seq::new(
            props.len(),
            |i: int|
                if props[i].name == name {
                    joined(props[i], frag)
                } else {
                    props[i]
                },
        )
    } else {
        props.push(Attribute { name, value: frag })
    }
}

/// `props` after the matches from index `i` on were merged in, one by one.
/// A match of one character or none is passed over.
pub open spec fn shorthand_props(props: Seq<Attribute>, matches: Seq<Seq<char>>, i: int) -> Seq<
    Attribute,
>
    decreases matches.len() - i,
{
    if i < 0 || i >= matches.len() {
        props
    } else {
        let m = matches[i];
        let next = if m.len() > 1 {
            merged(props, canonical_name(m), m.skip(1))
        } else {
            props
        };
        shorthand_props(next, matches, i + 1)
    }
}

/// Whether some match is a shorthand: longer than one character.
pub open spec fn any_shorthand(matches: Seq<Seq<char>>) -> bool {
    exists|i: int| 0 <= i < matches.len() && (#[trigger] matches[i]).len() > 1
}

/// Whether `c` is one of the three shorthand markers.
pub open spec fn is_marker(c: char) -> bool {
    c == '.' || c == '#' || c == ':'
}

/// The index of the first marker at or after `i`, or the length of `s`.
pub open spec fn marker_index(s: Seq<char>, i: int) -> int
    decreases s.len() - i,
{
    if 0 <= i < s.len() && !is_marker(s[i]) {
        marker_index(s, i + 1)
    } else {
        i
    }
}

/// The element's name: the head up to its first marker where a shorthand was
/// found, the whole head where none was.
pub open spec fn element_name(head: Seq<char>, any: bool) -> Seq<char> {
    if any {
        head.subrange(0, marker_index(head, 0))
    } else {
        head
    }
}

/// The state of the scan over the tokens behind the head.
pub ghost struct Scan {
    pub props: Seq<Attribute>,
    pub content: Seq<char>,
    pub open: bool,
    pub name: Seq<char>,
    pub value: Seq<char>,
}

/// The scan after one more token `t`.
pub open spec fn scan_step(st: Scan, t: Seq<char>) -> Scan {
    if !st.open && t.len() > 0 && t[0] == '[' {
        Scan { props: st.props, content: st.content, open: true, name: t.skip(1), value: st.value }
    } else if st.open {
        if t.len() > 0 && t.last() == ']' {
            Scan {
                props: st.props.push(Attribute { name: st.name, value: st.value + t.drop_last() }),
                content: st.content,
                open: false,
                name: st.name,
                value: Seq::empty(),
            }
        } else {
            Scan {
                props: st.props,
                content: st.content,
                open: true,
                name: st.name,
                value: st.value + t + seq![' '],
            }
        }
    } else {
        Scan {
            props: st.props,
            content: st.content + t,
            open: false,
            name: st.name,
            value: st.value,
        }
    }
}

/// The scan after the tokens from index `i` on.
pub open spec fn scan_tokens(st: Scan, tokens: Seq<Seq<char>>, i: int) -> Scan
    decreases tokens.len() - i,
{
    if i < 0 || i >= tokens.len() {
        st
    } else {
        scan_tokens(scan_step(st, tokens[i]), tokens, i + 1)
    }
}

/// The scan before any token, over the properties read from the head.
pub open spec fn scan_start(props: Seq<Attribute>) -> Scan {
    Scan { props, content: Seq::empty(), open: false, name: Seq::empty(), value: Seq::empty() }
}

/// The first word of a line, or the empty text where it has none.
pub open spec fn first_word(raw: Seq<char>) -> Seq<char> {
    if words(raw).len() > 0 {
        words(raw)[0]
    } else {
        Seq::empty()
    }
}

/// Whether the head of a line ends with `!`.
pub open spec fn is_self_closing(raw: Seq<char>) -> bool {
    first_word(raw).len() > 0 && first_word(raw).last() == '!'
}

/// The head of a line without its `!`, if it ends with one.
pub open spec fn stripped_head(raw: Seq<char>) -> Seq<char> {
    if is_self_closing(raw) {
        first_word(raw).drop_last()
    } else {
        first_word(raw)
    }
}

/// The property that marks a self-closing element.
pub open spec fn closing_marker() -> Attribute {
    Attribute { name: "_selfclosing"@, value: Seq::empty() }
}

/// The element that a line stands for, given the shorthands found in its
/// head. It has no children.
pub open spec fn element_with(raw: Seq<char>, matches: Seq<Seq<char>>) -> Element {
    if words(raw).len() == 0 {
        Element {
            name: Seq::empty(),
            properties: Seq::empty(),
            content: Seq::empty(),
            children: Seq::empty(),
            raw: trimmed(raw),
        }
    } else {
        let base = if is_self_closing(raw) {
            seq![closing_marker()]
        } else {
            Seq::empty()
        };
        let end = scan_tokens(scan_start(shorthand_props(base, matches, 0)), words(raw), 1);
        Element {
            name: element_name(stripped_head(raw), any_shorthand(matches)),
            properties: end.props,
            content: end.content,
            children: Seq::empty(),
            raw: trimmed(raw),
        }
    }
}

/// The element that a line stands for.
pub open spec fn parse_line(raw: Seq<char>) -> Element {
    element_with(raw, shorthand_matches(stripped_head(raw)))
}

/// The property name that the shorthand `exact` stands for.
pub fn marker_name(exact: &str) -> (r: &'static str)
    ensures
        r@ == canonical_name(exact@),
{
    if exact.unicode_len() == 0 {
        return "_";
    }
    let c = exact.get_char(0);
    if c == '.' {
        "class"
    } else if c == '#' {
        "id"
    } else if c == ':' {
        "name"
    } else {
        "_"
    }
}

/// Merges one shorthand value into the properties: joined by a space to the
/// value of each property called `name`, or pushed as a new property.
pub fn merge_fragment(props: &mut Vec<Property>, name: &str, frag: &str)
    ensures
        attributes(final(props)@) == merged(attributes(old(props)@), name@, frag@),
{
    let ghost before = attributes(props@);
    let n = props.len();
    let mut found = false;
    let mut i: usize = 0;
    while i < n
        invariant
            i <= n,
            props@.len() == n,
            before.len() == n,
            found == (exists|k: int| 0 <= k < i && (#[trigger] before[k]).name == name@),
            forall|k: int|
                0 <= k < n ==> (#[trigger] props@[k])@ == (if k < i && before[k].name == name@ {
                    joined(before[k], frag@)
                } else {
                    before[k]
                }),
        decreases n - i,
    {
        if same_text(props[i].name.as_str(), name) {
            let value = String::from_str(props[i].value.as_str()).concat(" ").concat(frag);
            proof {
                reveal_strlit(" ");
                assert(" "@ =~= seq![' ']);
            }
            props.set(i, Property { name: String::from_str(name), value });
            found = true;
        }
        i = i + 1;
    }
    if found {
        assert(has_name(before, name@));
        assert(attributes(props@) =~= merged(before, name@, frag@));
    } else {
        props.push(Property { name: String::from_str(name), value: String::from_str(frag) });
        assert(!has_name(before, name@));
        assert(attributes(props@) =~= merged(before, name@, frag@));
    }
}

/// Merges every shorthand among `matches` into the properties, in order, and
/// says whether there was one.
pub fn apply_shorthands(props: &mut Vec<Property>, matches: &Vec<String>) -> (any: bool)
    ensures
        attributes(final(props)@) == shorthand_props(attributes(old(props)@), strs(matches@), 0),
        any == any_shorthand(strs(matches@)),
{
    let ghost ms = strs(matches@);
    let n = matches.len();
    let mut any = false;
    let mut i: usize = 0;
    while i < n
        invariant
            i <= n,
            n == matches@.len(),
            ms == strs(matches@),
            shorthand_props(attributes(props@), ms, i as int) == shorthand_props(
                attributes(old(props)@),
                ms,
                0,
            ),
            any == (exists|k: int| 0 <= k < i && (#[trigger] ms[k]).len() > 1),
        decreases n - i,
    {
        let exact = matches[i].as_str();
        assert(exact@ == ms[i as int]);
        if exact.unicode_len() > 1 {
            let name = marker_name(exact);
            let frag = tail(exact);
            merge_fragment(props, name, frag.as_str());
            any = true;
        }
        i = i + 1;
    }
    any
}

/// The element's name, given the head and whether a shorthand was found.
pub fn name_of_head(head: &str, any: bool) -> (r: String)
    ensures
        r@ == element_name(head@, any),
{
    let n = head.unicode_len();
    if !any {
        assert(head@.subrange(0, n as int) =~= head@);
        return slice_of(head, 0, n);
    }
    let mut i: usize = 0;
    while i < n
        invariant
            i <= n,
            any,
            n == head@.len(),
            marker_index(head@, i as int) == marker_index(head@, 0),
        decreases n - i,
    {
        let c = head.get_char(i);
        if c == '.' || c == '#' || c == ':' {
            assert(is_marker(head@[i as int]));
            assert(marker_index(head@, i as int) == i);
            return slice_of(head, 0, i);
        }
        i = i + 1;
    }
    slice_of(head, 0, i)
}

/// Reads the tokens behind the head: bracketed attributes are pushed onto
/// `props`, and what stands outside them is returned, run together.
pub fn scan_rest(tokens: &Vec<String>, props: &mut Vec<Property>) -> (content: String)
    ensures
        attributes(final(props)@) == scan_tokens(
            scan_start(attributes(old(props)@)),
            strs(tokens@),
            1,
        ).props,
        content@ == scan_tokens(scan_start(attributes(old(props)@)), strs(tokens@), 1).content,
{
    let ghost ts = strs(tokens@);
    let ghost goal = scan_tokens(scan_start(attributes(props@)), ts, 1);
    let mut content = String::new();
    let mut name = String::new();
    let mut value = String::new();
    let mut open = false;
    let n = tokens.len();
    if n <= 1 {
        return content;
    }
    let mut i: usize = 1;
    while i < n
        invariant
            1 <= i <= n,
            n == tokens@.len(),
            ts == strs(tokens@),
            scan_tokens(
                Scan {
                    props: attributes(props@),
                    content: content@,
                    open,
                    name: name@,
                    value: value@,
                },
                ts,
                i as int,
            ) == goal,
        decreases n - i,
    {
        let t = tokens[i].as_str();
        assert(t@ == ts[i as int]);
        let len = t.unicode_len();
        let ghost st = Scan {
            props: attributes(props@),
            content: content@,
            open,
            name: name@,
            value: value@,
        };
        if !open && len > 0 && t.get_char(0) == '[' {
            name = tail(t);
            open = true;
        } else if open {
            if len > 0 && t.get_char(len - 1) == ']' {
                let last = head(t);
                let full = value.concat(last.as_str());
                let ghost pushed = props@;
                props.push(Property { name: String::from_str(name.as_str()), value: full });
                assert(attributes(props@) =~= attributes(pushed).push(
                    Attribute { name: st.name, value: st.value + t@.drop_last() },
                ));
                value = String::new();
                open = false;
            } else {
                proof {
                    reveal_strlit(" ");
                    assert(" "@ =~= seq![' ']);
                }
                value = value.concat(t).concat(" ");
            }
        } else {
            content.append(t);
        }
        assert(Scan {
            props: attributes(props@),
            content: content@,
            open,
            name: name@,
            value: value@,
        } == scan_step(st, t@));
        i = i + 1;
    }
    content
}

/// The head of a line, without the `!` that marks a self-closing element.
pub fn shorthand_head(raw: &str) -> (h: String)
    ensures
        h@ == stripped_head(raw@),
{
    let tokens = split_words(raw);
    if tokens.len() == 0 {
        return String::new();
    }
    let first = tokens[0].as_str();
    assert(first@ == strs(tokens@)[0]);
    let len = first.unicode_len();
    if first.get_char(len - 1) == '!' {
        head(first)
    } else {
        assert(first@.subrange(0, len as int) =~= first@);
        slice_of(first, 0, len)
    }
}

impl Node {
    /// Builds the element of one line from the line and the shorthands that
    /// were found in its head.
    pub fn from_matches(raw: &str, matches: &Vec<String>) -> (n: Node)
        ensures
            n@ == element_with(raw@, strs(matches@)),
    {
        let tokens = split_words(raw);
        let line = trim_text(raw);
        let mut properties: Vec<Property> = Vec::new();
        if tokens.len() == 0 {
            let n = Node {
                name: String::new(),
                properties,
                content: String::new(),
                children: Vec::new(),
                raw: line,
            };
            proof {
                n.lemma_view();
                assert(attributes(n.properties@) =~= Seq::empty());
                assert(elements(n.children@) =~= Seq::empty());
            }
            return n;
        }
        let first = tokens[0].as_str();
        assert(first@ == strs(tokens@)[0]);
        let len = first.unicode_len();
        let closing = first.get_char(len - 1) == '!';
        if closing {
            properties.push(Property::new(String::from_str("_selfclosing"), None));
            assert(attributes(properties@) =~= seq![closing_marker()]);
        } else {
            assert(attributes(properties@) =~= Seq::empty());
        }
        let stripped = if closing {
            head(first)
        } else {
            assert(first@.subrange(0, len as int) =~= first@);
            slice_of(first, 0, len)
        };
        let any = apply_shorthands(&mut properties, matches);
        let name = name_of_head(stripped.as_str(), any);
        let content = scan_rest(&tokens, &mut properties);
        let n = Node { name, properties, content, children: Vec::new(), raw: line };
        proof {
            n.lemma_view();
            assert(elements(n.children@) =~= Seq::empty());
        }
        n
    }

    /// Builds the element of one line.
    pub fn new(raw: &str) -> (n: Node)
        ensures
            n@ == parse_line(raw@),
    {
        let stripped = shorthand_head(raw);
        let matches = match find_matches("[.#:][^.#:\\s]+", stripped.as_str()) {
            Some(found) => found,
            None => Vec::new(),
        };
        assert(strs(matches@) =~= shorthand_matches(stripped@));
        Node::from_matches(raw, &matches)
    }
}

/// Whether no two properties have the same name.
pub open spec fn distinct_names(props: Seq<Attribute>) -> bool {
    forall|i: int, j: int|
        0 <= i < j < props.len() ==> (#[trigger] props[i]).name != (#[trigger] props[j]).name
}

/// Merging a shorthand into properties with distinct names leaves the names
/// distinct: a name that is there already gets no second property.
pub proof fn lemma_merged_distinct(props: Seq<Attribute>, name: Seq<char>, frag: Seq<char>)
    requires
        distinct_names(props),
    ensures
        distinct_names(merged(props, name, frag)),
{
    let after = merged(props, name, frag);
    if has_name(props, name) {
        assert forall|i: int, j: int| 0 <= i < j < after.len() implies (#[trigger] after[i]).name != (
        #[trigger] after[j]).name by {
            assert(after[i].name == props[i].name);
            assert(after[j].name == props[j].name);
        }
    } else {
        assert forall|i: int, j: int| 0 <= i < j < after.len() implies (#[trigger] after[i]).name != (
        #[trigger] after[j]).name by {
            assert(after[i] == props[i]);
            if j < props.len() {
                assert(after[j] == props[j]);
            }
        }
    }
}

/// However many shorthands a head holds, and of whatever kinds, the
/// properties read from them have distinct names: one property for each
/// kind of shorthand that occurs.
pub proof fn lemma_shorthand_props_distinct(props: Seq<Attribute>, matches: Seq<Seq<char>>, i: int)
    requires
        distinct_names(props),
    ensures
        distinct_names(shorthand_props(props, matches, i)),
    decreases matches.len() - i,
{
    if 0 <= i < matches.len() {
        let m = matches[i];
        if m.len() > 1 {
            lemma_merged_distinct(props, canonical_name(m), m.skip(1));
            lemma_shorthand_props_distinct(
                merged(props, canonical_name(m), m.skip(1)),
                matches,
                i + 1,
            );
        } else {
            lemma_shorthand_props_distinct(props, matches, i + 1);
        }
    }
}

/// Two shorthands of one kind give one property: its name is that of the
/// kind, its value the two fragments with one space between them.
pub proof fn lemma_same_kind_merges(props: Seq<Attribute>, a: Seq<char>, b: Seq<char>)
    requires
        a.len() > 1,
        b.len() > 1,
        canonical_name(a) == canonical_name(b),
        !has_name(props, canonical_name(a)),
    ensures
        shorthand_props(props, seq![a, b], 0) == props.push(
            Attribute { name: canonical_name(a), value: a.skip(1) + seq![' '] + b.skip(1) },
        ),
{
    let name = canonical_name(a);
    let first = props.push(Attribute { name, value: a.skip(1) });
    let ms = seq![a, b];
    reveal_with_fuel(shorthand_props, 3);
    assert(ms[0] == a && ms[1] == b);
    assert(merged(props, name, a.skip(1)) == first);
    assert(first[props.len() as int].name == name);
    assert(has_name(first, name));
    assert forall|k: int| 0 <= k < props.len() implies (#[trigger] first[k]).name != name by {
        assert(first[k] == props[k]);
    }
    assert(merged(first, name, b.skip(1)) =~= props.push(
        Attribute { name, value: a.skip(1) + seq![' '] + b.skip(1) },
    ));
}

/// A line that is one head with two class shorthands, such as `div.a.b`,
/// gives an element with exactly one property: `class`, with the two
/// fragments joined by a space.
pub proof fn lemma_two_classes_one_property(raw: Seq<char>, a: Seq<char>, b: Seq<char>)
    requires
        words(raw).len() == 1,
        !is_self_closing(raw),
        a.len() > 1 && a[0] == '.',
        b.len() > 1 && b[0] == '.',
    ensures
        element_with(raw, seq![a, b]).properties == seq![
            Attribute { name: "class"@, value: a.skip(1) + seq![' '] + b.skip(1) },
        ],
{
    let none = Seq::<Attribute>::empty();
    lemma_same_kind_merges(none, a, b);
    assert(none.push(Attribute { name: "class"@, value: a.skip(1) + seq![' '] + b.skip(1) })
        =~= seq![Attribute { name: "class"@, value: a.skip(1) + seq![' '] + b.skip(1) }]);
}

/// A bracketed attribute written in two tokens, `[name` and `value]`, behind
/// a head gives one more property with that name and that value, and no
/// content.
pub proof fn lemma_bracket_attribute(
    props: Seq<Attribute>,
    head: Seq<char>,
    name: Seq<char>,
    value: Seq<char>,
)
    ensures
        scan_tokens(scan_start(props), seq![head, seq!['['] + name, value + seq![']']], 1).props
            == props.push(Attribute { name, value }),
        scan_tokens(scan_start(props), seq![head, seq!['['] + name, value + seq![']']], 1).content
            == Seq::<char>::empty(),
{
    let opening = seq!['['] + name;
    let closing = value + seq![']'];
    let tokens = seq![head, opening, closing];
    reveal_with_fuel(scan_tokens, 3);
    assert(tokens[1] == opening && tokens[2] == closing);
    assert(opening[0] == '[');
    assert(opening.skip(1) =~= name);
    assert(closing.last() == ']');
    assert(closing.drop_last() =~= value);
    assert(Seq::<char>::empty() + value =~= value);
}

} // verus!
