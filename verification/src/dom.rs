//! The document tree.
use vstd::prelude::*;

verus! {

#[derive(Debug, Clone, PartialEq, Eq)]
pub enum NodeType {
    Document,
    Element(ElementData),
    Text(String),
}

#[derive(Debug, Clone, PartialEq, Eq)]
pub struct ElementData {
    pub tag_name: String,
    pub attributes: Vec<(String, String)>,
}

#[derive(Debug, PartialEq, Eq)]
pub struct Node {
    pub node_type: NodeType,
    pub children: Vec<Node>,
}

/// The model of an attribute list: name and value of each, in order.
pub type Attrs = Seq<(Seq<char>, Seq<char>)>;

/// The model of a node's own data.
pub enum Kind {
    Document,
    Element { tag: Seq<char>, attrs: Attrs },
    Text(Seq<char>),
}

/// The model of a document tree.
pub struct Tree {
    pub kind: Kind,
    pub children: Seq<Tree>,
}

pub open spec fn attrs_view(a: Seq<(String, String)>) -> Attrs {
    a.map_values(|p: (String, String)| (p.0@, p.1@))
}

impl ElementData {
    pub open spec fn tag(&self) -> Seq<char> {
        self.tag_name@
    }

    pub open spec fn attrs(&self) -> Attrs {
        attrs_view(self.attributes@)
    }
}

impl NodeType {
    pub open spec fn kind(&self) -> Kind {
        match self {
            NodeType::Document => Kind::Document,
            NodeType::Element(e) => Kind::Element { tag: e.tag(), attrs: e.attrs() },
            NodeType::Text(t) => Kind::Text(t@),
        }
    }
}

impl Node {
    pub open spec fn tree(&self) -> Tree
        decreases self,
    {
        Tree {
            kind: self.node_type.kind(),
            children: Seq::new(
                self.children@.len(),
                |i: int|
                    if 0 <= i < self.children@.len() {
                        self.children@[i].tree()
                    } else {
                        Tree { kind: Kind::Document, children: Seq::empty() }
                    },
            ),
        }
    }
}

impl View for Node {
    type V = Tree;

    open spec fn view(&self) -> Tree {
        self.tree()
    }
}

pub open spec fn trees(v: Seq<Node>) -> Seq<Tree> {
    v.map_values(|n: Node| n@)
}

impl Node {
    pub fn document(children: Vec<Node>) -> (r: Self)
        ensures
            r@.kind == Kind::Document,
            r@.children == trees(children@),
    {
        let r = Node { node_type: NodeType::Document, children };
        assert(r@.children =~= trees(children@));
        r
    }

    pub fn element(name: String, children: Vec<Node>) -> (r: Self)
        ensures
            r@.kind == (Kind::Element { tag: name@, attrs: Seq::empty() }),
            r@.children == trees(children@),
    {
        let r = Self::element_with_attrs(name, Vec::new(), children);
        assert(attrs_view(Seq::<(String, String)>::empty()) =~= Seq::empty());
        r
    }

    pub fn element_with_attrs(name: String, attributes: Vec<(String, String)>, children: Vec<Node>) -> (r: Self)
        ensures
            r@.kind == (Kind::Element { tag: name@, attrs: attrs_view(attributes@) }),
            r@.children == trees(children@),
    {
        let r = Node {
            node_type: NodeType::Element(ElementData { tag_name: name, attributes }),
            children,
        };
        assert(r@.children =~= trees(children@));
        r
    }

    pub fn text(value: String) -> (r: Self)
        ensures
            r@.kind == Kind::Text(value@),
            r@.children == Seq::<Tree>::empty(),
    {
        let r = Node { node_type: NodeType::Text(value), children: Vec::new() };
        assert(r@.children =~= Seq::<Tree>::empty());
        r
    }
}

} // verus!
