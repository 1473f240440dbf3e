use vstd::prelude::*;

verus! {

/// Room that a tree made by `FlatTree::new` has before it grows.
pub const SPARE_CAPACITY: usize = 10;

/// A tree stored as a list of items and, for each, the index of its
/// parent in the same list.
#[derive(Debug, PartialEq, Clone)]
pub struct FlatTree<T> {
    buf: Vec<T>,
    parents: Vec<Option<usize>>,
    len: usize,
}

/// A read-only view of one node of a tree.
#[derive(Debug, PartialEq)]
pub struct Node<'a, T> {
    tree: &'a FlatTree<T>,
    id: usize,
}

/// The handle of a node that was just added to a tree.
#[derive(Debug, PartialEq, Clone, Copy)]
pub struct NodeMut {
    id: usize,
}

/// Access to a node's tree and position.
pub trait TreeNode {
    type Item;

    fn get_tree(&self) -> &FlatTree<Self::Item>;

    fn get_index(&self) -> usize;
}

impl<T> FlatTree<T> {
    /// The items, in the order they were added.
    pub closed spec fn items(&self) -> Seq<T> {
        self.buf@
    }

    /// The parent link of each item.
    pub closed spec fn parent_links(&self) -> Seq<Option<usize>> {
        self.parents@
    }

    /// Items and links line up, and every link points into the tree.
    pub closed spec fn wf(&self) -> bool {
        &&& self.buf.len() == self.len
        &&& self.parents.len() == self.len
        &&& forall|i: int| 0 <= i < self.len && (#[trigger] self.parents@[i]) is Some
            ==> self.parents@[i]->0 < self.len
    }

    /// An empty tree.
    pub fn new() -> (r: FlatTree<T>)
        ensures
            r.wf(),
            r.items().len() == 0,
            r.parent_links().len() == 0,
    {
        FlatTree::with_capacity(SPARE_CAPACITY * 2)
    }

    /// An empty tree with room for `capacity` items before it grows.
    pub fn with_capacity(capacity: usize) -> (r: FlatTree<T>)
        ensures
            r.wf(),
            r.items().len() == 0,
            r.parent_links().len() == 0,
    {
        let buf: Vec<T> = Vec::with_capacity(capacity);
        let parents: Vec<Option<usize>> = Vec::with_capacity(capacity);
        FlatTree { buf, parents, len: 0 }
    }

    /// The number of items.
    pub fn len(&self) -> (r: usize)
        requires
            self.wf(),
        ensures
            r == self.items().len(),
    {
        self.len
    }

    /// Adds an item without a parent and returns its handle.
    pub fn add(&mut self, value: T) -> (r: NodeMut)
        requires
            old(self).wf(),
            old(self).items().len() < usize::MAX,
        ensures
            final(self).wf(),
            final(self).items() == old(self).items().push(value),
            final(self).parent_links() == old(self).parent_links().push(None),
            r.index() == old(self).items().len(),
            final(self).parent_links().len() == final(self).items().len(),
    {
        self.buf.push(value);
        self.parents.push(None);
        self.len = self.len + 1;
        assert forall|i: int| 0 <= i < self.len && (#[trigger] self.parents@[i]) is Some
            implies self.parents@[i]->0 < self.len by {
            assert(self.parents@[i] == old(self).parents@[i]);
        }
        NodeMut { id: self.len - 1 }
    }

    /// Makes the item at `parent` the parent of the item at `index`.
    pub fn set_parent(&mut self, index: usize, parent: usize)
        requires
            old(self).wf(),
            index < old(self).items().len(),
            parent < old(self).items().len(),
        ensures
            final(self).wf(),
            final(self).items() == old(self).items(),
            final(self).parent_links() == old(self).parent_links().update(index as int, Some(parent)),
    {
        self.parents.set(index, Some(parent));
    }

    /// The node at `index`.
    pub fn get(&self, index: usize) -> (r: Node<'_, T>)
        requires
            self.wf(),
            index < self.items().len(),
        ensures
            r.tree() == self,
            r.index() == index,
            r.valid(),
    {
        Node { tree: self, id: index }
    }

    /// The parent of the node at `index`, if it has one.
    fn parent_of(&self, index: usize) -> (r: Option<Node<'_, T>>)
        requires
            self.wf(),
            index < self.items().len(),
        ensures
            r is None <==> self.parent_links()[index as int] is None,
            r is Some ==> r->0.tree() == self && r->0.valid()
                && r->0.index() == self.parent_links()[index as int]->0,
    {
        match self.parents[index] {
            Some(p) => Some(Node { tree: self, id: p }),
            None => None,
        }
    }
}

impl NodeMut {
    pub closed spec fn index(&self) -> nat {
        self.id as nat
    }

    /// The position of the node in its tree.
    pub fn get_index(&self) -> (r: usize)
        ensures
            r == self.index(),
    {
        self.id
    }
}

impl<'a, T> Node<'a, T> {
    pub closed spec fn tree(&self) -> &'a FlatTree<T> {
        self.tree
    }

    pub closed spec fn index(&self) -> nat {
        self.id as nat
    }

    /// The node lies inside a well-formed tree.
    pub closed spec fn valid(&self) -> bool {
        self.tree.wf() && self.id < self.tree.len
    }

    /// The item stored at this node.
    pub fn get_item(&self) -> (r: &T)
        requires
            self.valid(),
        ensures
            *r == self.tree().items()[self.index() as int],
    {
        &self.tree.buf[self.id]
    }

    /// This node's parent, if it has one.
    pub fn get_parent(&self) -> (r: Option<Node<'a, T>>)
        requires
            self.valid(),
        ensures
            r is None <==> self.tree().parent_links()[self.index() as int] is None,
            r is Some ==> r->0.tree() == self.tree() && r->0.valid()
                && r->0.index() == self.tree().parent_links()[self.index() as int]->0,
    {
        self.tree.parent_of(self.id)
    }
}

impl<'a, T> TreeNode for Node<'a, T> {
    type Item = T;

    fn get_tree(&self) -> &FlatTree<T> {
        self.tree
    }

    fn get_index(&self) -> usize {
        self.id
    }
}

} // verus!
