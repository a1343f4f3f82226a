//! The document-node shell: plain data holders for a document tree.
//!
//! Links between nodes are stable indices into the tree builder's node
//! arena rather than shared pointers; a link that is absent (a
//! back-reference that does not resolve) is `None`. The tokenizer's
//! consumer owns the arena and the bookkeeping; these types only hold the
//! data.

use vstd::prelude::*;

verus! {

/// An element node's payload.
#[derive(Debug, Clone)]
pub struct Element {}

/// What a node is: the document root, an element, or text content.
#[derive(Debug, Clone)]
pub enum NodeKind {
    Document,
    Element(Element),
    Text(String),
}

/// Mathematical image of a [`Node`].
pub struct NodeModel {
    pub kind: NodeKind,
    pub window: Option<usize>,
    pub parent: Option<usize>,
    pub first_child: Option<usize>,
    pub last_child: Option<usize>,
    pub previous_sibling: Option<usize>,
    pub next_sibling: Option<usize>,
}

/// One node of the document tree, with its kind and its links: arena
/// indices that may be absent.
#[derive(Debug, Clone)]
pub struct Node {
    pub kind: NodeKind,
    window: Option<usize>,
    parent: Option<usize>,
    first_child: Option<usize>,
    last_child: Option<usize>,
    previous_sibling: Option<usize>,
    next_sibling: Option<usize>,
}

impl View for Node {
    type V = NodeModel;

    closed spec fn view(&self) -> NodeModel {
        NodeModel {
            kind: self.kind,
            window: self.window,
            parent: self.parent,
            first_child: self.first_child,
            last_child: self.last_child,
            previous_sibling: self.previous_sibling,
            next_sibling: self.next_sibling,
        }
    }
}

impl Node {
    /// A node of the given kind with every link absent.
    pub fn new(kind: NodeKind) -> (r: Self)
        ensures
            r@ == (NodeModel {
                kind,
                window: None,
                parent: None,
                first_child: None,
                last_child: None,
                previous_sibling: None,
                next_sibling: None,
            }),
    {
        Self {
            kind,
            window: None,
            parent: None,
            first_child: None,
            last_child: None,
            previous_sibling: None,
            next_sibling: None,
        }
    }

    /// Points the node at its window; only that link changes.
    pub fn set_window(&mut self, window: Option<usize>)
        ensures
            final(self)@ == (NodeModel { window, ..old(self)@ }),
    {
        self.window = window;
    }

    /// Points the node at its parent; only that link changes.
    pub fn set_parent(&mut self, parent: Option<usize>)
        ensures
            final(self)@ == (NodeModel { parent, ..old(self)@ }),
    {
        self.parent = parent;
    }

    /// The parent link.
    pub fn parent(&self) -> (r: Option<usize>)
        ensures
            r == self@.parent,
    {
        self.parent
    }

    /// Points the node at its first child; only that link changes.
    pub fn set_first_child(&mut self, first_child: Option<usize>)
        ensures
            final(self)@ == (NodeModel { first_child, ..old(self)@ }),
    {
        self.first_child = first_child;
    }

    /// The first-child link.
    pub fn first_child(&self) -> (r: Option<usize>)
        ensures
            r == self@.first_child,
    {
        self.first_child
    }

    /// Points the node at its last child; only that link changes.
    pub fn set_last_child(&mut self, last_child: Option<usize>)
        ensures
            final(self)@ == (NodeModel { last_child, ..old(self)@ }),
    {
        self.last_child = last_child;
    }

    /// The last-child link.
    pub fn last_child(&self) -> (r: Option<usize>)
        ensures
            r == self@.last_child,
    {
        self.last_child
    }

    /// Points the node at its previous sibling; only that link changes.
    pub fn set_previous_sibling(&mut self, previous_sibling: Option<usize>)
        ensures
            final(self)@ == (NodeModel { previous_sibling, ..old(self)@ }),
    {
        self.previous_sibling = previous_sibling;
    }

    /// The previous-sibling link.
    pub fn previous_sibling(&self) -> (r: Option<usize>)
        ensures
            r == self@.previous_sibling,
    {
        self.previous_sibling
    }

    /// Points the node at its next sibling; only that link changes.
    pub fn set_next_sibling(&mut self, next_sibling: Option<usize>)
        ensures
            final(self)@ == (NodeModel { next_sibling, ..old(self)@ }),
    {
        self.next_sibling = next_sibling;
    }

    /// The next-sibling link.
    pub fn next_sibling(&self) -> (r: Option<usize>)
        ensures
            r == self@.next_sibling,
    {
        self.next_sibling
    }
}

/// Mathematical image of a [`Window`].
pub struct WindowModel {
    pub document: NodeModel,
}

/// A window: the holder of the document root node.
#[derive(Debug, Clone)]
pub struct Window {
    document: Node,
}

impl View for Window {
    type V = WindowModel;

    closed spec fn view(&self) -> WindowModel {
        WindowModel { document: self.document@ }
    }
}

impl Window {
    /// A window over a fresh document root. The root's window
    /// back-reference has nothing to resolve to — windows live in no
    /// arena — so it is absent.
    pub fn new() -> (r: Self)
        ensures
            r@.document.kind is Document,
            r@.document.window is None,
            r@.document.parent is None,
            r@.document.first_child is None,
            r@.document.last_child is None,
            r@.document.previous_sibling is None,
            r@.document.next_sibling is None,
    {
        let mut document = Node::new(NodeKind::Document);
        document.set_window(None);
        Window { document }
    }

    /// The document root node.
    pub fn document(&self) -> (r: &Node)
        ensures
            r@ == self@.document,
    {
        &self.document
    }
}

} // verus!
