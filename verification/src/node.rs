//! The view tree: nodes, their mathematical model, and the serialisation of
//! a tree into indented markup.

use crate::attribute::{
    attributes_markup, distinct_names, with_entry, AttributeMap, NodeAttributeValue, SpecAttribute,
    SpecAttributeValue,
};
use crate::component::{renders_to, AnyComponent, AnyMessage, Component};
use crate::text::{indent, indented, joined, lemma_joined_push};
use vstd::prelude::*;
use vstd::string::*;

verus! {

/// What a node is.
pub enum NodeKind {
    /// An element of the platform, by its tag name.
    Native { tag: String },
    /// A leaf of literal text.
    Text(String),
    /// A component boundary: the component, and the tree that it rendered to
    /// when the node was built.
    Custom { component: Box<dyn AnyComponent>, rendered: Box<Node> },
}

/// A node of the view tree.
pub struct Node {
    kind: NodeKind,
    children: Vec<Node>,
    on_click: Option<Box<dyn AnyMessage>>,
    attributes: AttributeMap,
}

/// The mathematical model of a [`NodeKind`].
pub enum SpecNodeKind {
    Native { tag: Seq<char> },
    Text(Seq<char>),
    Custom { rendered: Box<SpecNode> },
}

/// The mathematical model of a [`Node`].
pub struct SpecNode {
    pub kind: SpecNodeKind,
    pub children: Seq<SpecNode>,
    /// Whether a message is attached.
    pub on_click: bool,
    pub attributes: Seq<SpecAttribute>,
}

impl SpecNode {
    /// An element without children or attributes.
    pub open spec fn native(tag: Seq<char>) -> SpecNode {
        SpecNode {
            kind: SpecNodeKind::Native { tag },
            children: Seq::empty(),
            on_click: false,
            attributes: Seq::empty(),
        }
    }

    /// A text leaf.
    pub open spec fn text(value: Seq<char>) -> SpecNode {
        SpecNode {
            kind: SpecNodeKind::Text(value),
            children: Seq::empty(),
            on_click: false,
            attributes: Seq::empty(),
        }
    }

    /// A component boundary around the tree that the component rendered to.
    pub open spec fn custom(rendered: SpecNode) -> SpecNode {
        SpecNode {
            kind: SpecNodeKind::Custom { rendered: Box::new(rendered) },
            children: Seq::empty(),
            on_click: false,
            attributes: Seq::empty(),
        }
    }

    /// The node with one more child at the end.
    pub open spec fn with_child(self, child: SpecNode) -> SpecNode {
        SpecNode { children: self.children.push(child), ..self }
    }

    /// The node with `name` set to `value`.
    pub open spec fn with_attribute(self, name: Seq<char>, value: SpecAttributeValue) -> SpecNode {
        SpecNode { attributes: with_entry(self.attributes, name, value), ..self }
    }

    /// The markup of each child, indented by one level.
    pub open spec fn children_markup(self) -> Seq<Seq<char>>
        decreases self, 0int,
    {
        Seq::new(
            self.children.len(),
            |i: int|
                if 0 <= i < self.children.len() {
                    indented(self.children[i].markup())
                } else {
                    Seq::empty()
                },
        )
    }

    /// The markup of the tree.
    ///
    /// A text leaf is its text, verbatim. A component boundary is the markup
    /// of the tree that the component rendered to. An element is its opening
    /// tag with the attributes, a line feed, the indented markup of its
    /// children separated by line feeds, a line feed, and its closing tag.
    /// Nothing is escaped.
    pub open spec fn markup(self) -> Seq<char>
        decreases self, 1int,
    {
        match self.kind {
            SpecNodeKind::Text(value) => value,
            SpecNodeKind::Custom { rendered } => rendered.markup(),
            SpecNodeKind::Native { tag } => "<"@ + tag + attributes_markup(self.attributes) + ">\n"@
                + joined(self.children_markup(), "\n"@) + "\n</"@ + tag + ">"@,
        }
    }
}

impl Node {
    /// The model of the node, by recursion over the tree.
    pub closed spec fn model(&self) -> SpecNode
        decreases self,
    {
        SpecNode {
            kind: match self.kind {
                NodeKind::Native { tag } => SpecNodeKind::Native { tag: tag@ },
                NodeKind::Text(value) => SpecNodeKind::Text(value@),
                NodeKind::Custom { component, rendered } => SpecNodeKind::Custom {
                    rendered: Box::new(rendered.model()),
                },
            },
            children: Seq::new(
                self.children.len() as nat,
                |i: int|
                    if 0 <= i < self.children.len() {
                        self.children[i].model()
                    } else {
                        SpecNode::text(Seq::empty())
                    },
            ),
            on_click: self.on_click is Some,
            attributes: self.attributes@,
        }
    }
}

impl Node {
    /// The kind as the node holds it: for a boundary, the very component and
    /// the very tree, of which the model keeps the tree's model alone.
    pub closed spec fn held_kind(&self) -> NodeKind {
        self.kind
    }

    /// The message as the node holds it, of which the model keeps only
    /// whether there is one.
    pub closed spec fn held_message(&self) -> Option<Box<dyn AnyMessage>> {
        self.on_click
    }

    /// The children as the node holds them, in order.
    pub closed spec fn held_children(&self) -> Seq<Node> {
        self.children@
    }

    /// A component as a boundary holds it: the same component, its type
    /// forgotten.
    pub open spec fn erased<C: Component<Message = ()> + 'static>(value: Box<C>) -> Box<
        dyn AnyComponent,
    > {
        value
    }

    /// The model is the model of what the node holds.
    pub proof fn lemma_model_of_held(&self)
        ensures
            self@.kind == self.held_kind()@,
            self@.children.len() == self.held_children().len(),
            forall|i: int|
                0 <= i < self.held_children().len() ==> self@.children[i]
                    == (#[trigger] self.held_children()[i])@,
            self@.on_click == (self.held_message() is Some),
    {
    }
}

impl View for Node {
    type V = SpecNode;

    open spec fn view(&self) -> SpecNode {
        self.model()
    }
}

impl View for NodeKind {
    type V = SpecNodeKind;

    open spec fn view(&self) -> SpecNodeKind {
        match self {
            NodeKind::Native { tag } => SpecNodeKind::Native { tag: tag@ },
            NodeKind::Text(value) => SpecNodeKind::Text(value@),
            NodeKind::Custom { component, rendered } => SpecNodeKind::Custom {
                rendered: Box::new(rendered.model()),
            },
        }
    }
}

impl Node {
    /// An element with this tag, without children or attributes.
    pub fn native(tag: &str) -> (node: Self)
        ensures
            node@ == SpecNode::native(tag@),
            node.held_children() == Seq::<Node>::empty(),
            node.held_message() is None,
    {
        let node = Self {
            kind: NodeKind::Native { tag: String::from_str(tag) },
            children: Vec::new(),
            on_click: None,
            attributes: AttributeMap::new(),
        };
        assert(node@.children == Seq::<SpecNode>::empty());
        node
    }

    /// A leaf with this text.
    pub fn text(value: &str) -> (node: Self)
        ensures
            node@ == SpecNode::text(value@),
            node.held_children() == Seq::<Node>::empty(),
            node.held_message() is None,
    {
        let node = Self {
            kind: NodeKind::Text(String::from_str(value)),
            children: Vec::new(),
            on_click: None,
            attributes: AttributeMap::new(),
        };
        assert(node@.children == Seq::<SpecNode>::empty());
        node
    }

    /// A component boundary. The component is rendered here, once, and the
    /// node owns both the component and the tree that it rendered to.
    pub fn custom<C: Component<Message = ()> + 'static>(value: Box<C>) -> (node: Self)
        ensures
            node@.kind is Custom,
            renders_to(&*value, *node@.kind->rendered),
            node@ == SpecNode::custom(*node@.kind->rendered),
            node.held_kind() matches NodeKind::Custom { component: held, .. } && held
                == Self::erased(value),
            node.held_children() == Seq::<Node>::empty(),
            node.held_message() is None,
    {
        let rendered = value.view();
        let ghost tree = rendered@;
        let node = Self::boundary(value, rendered);
        assert(node@.children == Seq::<SpecNode>::empty());
        assert(*node@.kind->rendered == tree);
        node
    }

    /// The boundary node around a component and the tree that it rendered to.
    fn boundary(component: Box<dyn AnyComponent>, rendered: Node) -> (node: Self)
        ensures
            node.kind == (NodeKind::Custom { component, rendered: Box::new(rendered) }),
            node.children@ == Seq::<Node>::empty(),
            node.on_click is None,
            node.attributes@ == Seq::<SpecAttribute>::empty(),
    {
        Self {
            kind: NodeKind::Custom { component, rendered: Box::new(rendered) },
            children: Vec::new(),
            on_click: None,
            attributes: AttributeMap::new(),
        }
    }

    /// The node with `child` as its last child: the same kind, message and
    /// attributes, the same children before the new one. Only an element
    /// renders its children.
    pub fn with_child(self, child: Node) -> (node: Self)
        ensures
            node@ == self@.with_child(child@),
            node.held_kind() == self.held_kind(),
            node.held_message() == self.held_message(),
            node.held_children() == self.held_children().push(child),
    {
        let mut node = self;
        node.children.push(child);
        assert(node@.children == self@.children.push(child@));
        node
    }

    /// The node with the attribute `name` set to `value`: the same kind,
    /// message and children. Only an element renders its attributes.
    pub fn with_attribute(self, name: &'static str, value: NodeAttributeValue) -> (node: Self)
        ensures
            node@ == self@.with_attribute(name@, value@),
            node.held_kind() == self.held_kind(),
            node.held_message() == self.held_message(),
            node.held_children() == self.held_children(),
    {
        let mut node = self;
        node.attributes.insert(name, value);
        assert(node@.children == self@.children);
        node
    }

    /// Serialises the tree into markup text.
    ///
    /// Total and pure: the text is the markup of the tree's model, whatever
    /// the tree. Nothing is escaped, so text or an attribute value that holds
    /// `<`, `>` or `"` goes into the output as it is.
    pub fn to_html(&self) -> (html: String)
        ensures
            html@ == self@.markup(),
        decreases self,
    {
        match &self.kind {
            NodeKind::Text(value) => value.clone(),
            NodeKind::Custom { rendered, .. } => rendered.to_html(),
            NodeKind::Native { tag } => {
                let mut html = String::from_str("<");
                html.append(tag.as_str());
                let attributes = self.attributes.to_html();
                html.append(attributes.as_str());
                html.append(">\n");
                let ghost head = html@;
                let ghost parts = self@.children_markup();
                let mut i: usize = 0;
                assert(parts.take(0) == Seq::<Seq<char>>::empty());
                while i < self.children.len()
                    invariant
                        i <= self.children.len(),
                        parts == self@.children_markup(),
                        parts.len() == self.children.len(),
                        html@ == head + joined(parts.take(i as int), "\n"@),
                    decreases self.children.len() - i,
                {
                    let child = self.children[i].to_html();
                    let child = indent(child.as_str());
                    proof {
                        assert(child@ == parts[i as int]);
                        assert(parts.take(i as int).push(parts[i as int]) == parts.take(i + 1));
                        if i > 0 {
                            lemma_joined_push(parts.take(i as int), "\n"@, parts[i as int]);
                        }
                    }
                    if i > 0 {
                        html.append("\n");
                    }
                    html.append(child.as_str());
                    i += 1;
                }
                assert(parts.take(parts.len() as int) == parts);
                html.append("\n</");
                html.append(tag.as_str());
                html.append(">");
                html
            },
        }
    }

    /// What the node is.
    pub fn kind(&self) -> (kind: &NodeKind)
        ensures
            *kind == self.held_kind(),
            kind@ == self@.kind,
    {
        &self.kind
    }

    /// The children in order.
    pub fn children(&self) -> (children: &Vec<Node>)
        ensures
            children@ == self.held_children(),
            children@.len() == self@.children.len(),
            forall|i: int|
                0 <= i < children@.len() ==> (#[trigger] children@[i])@ == self@.children[i],
    {
        &self.children
    }

    /// The attributes. No name occurs twice among them.
    pub fn attributes(&self) -> (attributes: &AttributeMap)
        ensures
            attributes@ == self@.attributes,
            distinct_names(self@.attributes),
    {
        proof {
            use_type_invariant(&self.attributes);
        }
        &self.attributes
    }

    /// The message attached to the node, if any.
    pub fn on_click(&self) -> (message: &Option<Box<dyn AnyMessage>>)
        ensures
            *message == self.held_message(),
            message is Some == self@.on_click,
    {
        &self.on_click
    }
}

} // verus!
