use vstd::prelude::*;
use vstd::string::*;
use vstd::string::*;
use crate::text::slice_of;

verus! {

/// One attribute of an element; an empty value means "no value".
pub struct Property {
    pub name: String,
    pub value: String,
}

/// One element of the tree, built from one source line.
pub struct Node {
    pub name: String,
    pub properties: Vec<Property>,
    pub content: String,
    pub children: Vec<Node>,
    pub raw: String,
}

/// What a `Property` holds, as plain text.
pub ghost struct Attribute {
    pub name: Seq<char>,
    pub value: Seq<char>,
}

/// What a `Node` holds, as plain text and sequences.
pub ghost struct Element {
    pub name: Seq<char>,
    pub properties: Seq<Attribute>,
    pub content: Seq<char>,
    pub children: Seq<Element>,
    pub raw: Seq<char>,
}

impl View for Property {
    type V = Attribute;

    open spec fn view(&self) -> Attribute {
        Attribute { name: self.name@, value: self.value@ }
    }
}

/// The views of a sequence of properties, one for one.
pub open spec fn attributes(props: Seq<Property>) -> Seq<Attribute> {
    Seq::new(props.len(), |i: int| props[i]@)
}

/// What a node holds: its own texts, and what each of its children holds.
pub open spec fn element_of(n: Node) -> Element
    decreases n,
{
    Element {
        name: n.name@,
        properties: attributes(n.properties@),
        content: n.content@,
        children: Seq::new(
            n.children@.len(),
            |i: int|
                if 0 <= i < n.children@.len() {
                    element_of(n.children@[i])
                } else {
                    arbitrary()
                },
        ),
        raw: n.raw@,
    }
}

impl View for Node {
    type V = Element;

    open spec fn view(&self) -> Element {
        element_of(*self)
    }
}

/// The views of a sequence of nodes, one for one.
pub open spec fn elements(nodes: Seq<Node>) -> Seq<Element> {
    Seq::new(nodes.len(), |i: int| nodes[i]@)
}

/// The text after the first character.
pub fn tail(string: &str) -> (r: String)
    requires
        string@.len() >= 1,
    ensures
        r@ == string@.skip(1),
{
    let n = string.unicode_len();
    slice_of(string, 1, n)
}

/// The text before the last character.
pub fn head(string: &str) -> (r: String)
    requires
        string@.len() >= 1,
    ensures
        r@ == string@.drop_last(),
{
    let n = string.unicode_len();
    slice_of(string, 0, n - 1)
}

impl Property {
    /// A property with the given name; without a value it holds the empty text.
    pub fn new(name: String, value: Option<String>) -> (p: Property)
        ensures
            p@.name == name@,
            p@.value == (match value {
                Some(v) => v@,
                None => Seq::<char>::empty(),
            }),
    {
        let value = match value {
            Some(v) => v,
            None => String::new(),
        };
        Property { name, value }
    }
}

impl Node {
    /// The view of a node holds the views of its children, one for one.
    pub proof fn lemma_view(self)
        ensures
            self@.children == elements(self.children@),
            self@.name == self.name@,
            self@.properties == attributes(self.properties@),
            self@.content == self.content@,
            self@.raw == self.raw@,
    {
        assert(self@.children =~= elements(self.children@));
    }

    /// Appends `nodes`, in order, behind the children already there.
    pub fn add_children(&mut self, nodes: Vec<Node>)
        ensures
            final(self)@.children == old(self)@.children + elements(nodes@),
            final(self)@.name == old(self)@.name,
            final(self)@.properties == old(self)@.properties,
            final(self)@.content == old(self)@.content,
            final(self)@.raw == old(self)@.raw,
    {
        let ghost added = nodes@;
        let mut nodes = nodes;
        self.children.append(&mut nodes);
        proof {
            self.lemma_view();
            old(self).lemma_view();
            assert(elements(self.children@) =~= elements(old(self).children@) + elements(added));
        }
    }
}

impl Clone for Property {
    /// A copy with the same name and value.
    fn clone(&self) -> (copy: Property)
        ensures
            copy@ == self@,
    {
        Property {
            name: String::from_str(self.name.as_str()),
            value: String::from_str(self.value.as_str()),
        }
    }
}

impl Clone for Node {
    /// A copy of the element and of everything below it.
    fn clone(&self) -> (copy: Node)
        ensures
            copy@ == self@,
        decreases self,
    {
        broadcast use vstd::std_specs::vec::axiom_vec_index_decreases;

        let mut properties: Vec<Property> = Vec::new();
        let mut k: usize = 0;
        while k < self.properties.len()
            invariant
                k <= self.properties@.len(),
                properties@.len() == k,
                forall|j: int| 0 <= j < k ==> (#[trigger] properties@[j])@ == self.properties@[j]@,
            decreases self.properties@.len() - k,
        {
            let p = self.properties[k].clone();
            properties.push(p);
            k = k + 1;
        }
        let mut children: Vec<Node> = Vec::new();
        let mut i: usize = 0;
        while i < self.children.len()
            invariant
                i <= self.children@.len(),
                children@.len() == i,
                forall|j: int| 0 <= j < i ==> (#[trigger] children@[j])@ == self.children@[j]@,
            decreases self.children@.len() - i,
        {
            let child = self.children[i].clone();
            children.push(child);
            i = i + 1;
        }
        let copy = Node {
            name: String::from_str(self.name.as_str()),
            properties,
            content: String::from_str(self.content.as_str()),
            children,
            raw: String::from_str(self.raw.as_str()),
        };
        proof {
            copy.lemma_view();
            self.lemma_view();
            assert(attributes(copy.properties@) =~= attributes(self.properties@));
            assert(elements(copy.children@) =~= elements(self.children@));
        }
        copy
    }
}

} // verus!
