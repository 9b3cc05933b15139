//! The ordered index: an unbalanced binary search tree from keys to offsets.

use vstd::prelude::*;

verus! {

/// One entry of the index, with the subtrees of the smaller and of the larger
/// keys.
#[derive(Debug)]
pub struct Node {
    pub key: u32,
    pub offset: u64,
    pub left: Option<Box<Node>>,
    pub right: Option<Box<Node>>,
}

/// The index of a table. Its model is the map from each key to its offset.
/// The tree under its root is always a search tree.
pub struct BinaryTree {
    root: Option<Box<Node>>,
}

/// The entries that a subtree holds.
pub open spec fn entries(t: Option<Box<Node>>) -> Map<u32, u64>
    decreases t,
{
    match t {
        None => Map::empty(),
        Some(n) => entries(n.left).union_prefer_right(entries(n.right)).insert(n.key, n.offset),
    }
}

/// The search-tree order: at every node the keys to the left are smaller and
/// the keys to the right are larger than the node's own, so no key occurs twice.
pub open spec fn ordered(t: Option<Box<Node>>) -> bool
    decreases t,
{
    match t {
        None => true,
        Some(n) => {
            &&& ordered(n.left)
            &&& ordered(n.right)
            &&& forall|k: u32| #[trigger] entries(n.left).contains_key(k) ==> k < n.key
            &&& forall|k: u32| #[trigger] entries(n.right).contains_key(k) ==> n.key < k
        },
    }
}

/// The tree after `key` was bound to `offset`: a new leaf stands where the
/// descent from the root ends, and a tree that holds `key` is unchanged. Nothing
/// is rebalanced.
pub open spec fn grown(t: Option<Box<Node>>, key: u32, offset: u64) -> Option<Box<Node>>
    decreases t,
{
    match t {
        None => Some(Box::new(Node { key, offset, left: None, right: None })),
        Some(n) => {
            if key < n.key {
                Some(
                    Box::new(
                        Node {
                            key: n.key,
                            offset: n.offset,
                            left: grown(n.left, key, offset),
                            right: n.right,
                        },
                    ),
                )
            } else if key > n.key {
                Some(
                    Box::new(
                        Node {
                            key: n.key,
                            offset: n.offset,
                            left: n.left,
                            right: grown(n.right, key, offset),
                        },
                    ),
                )
            } else {
                t
            }
        },
    }
}

/// The entry of the leftmost node of a tree that is not empty.
pub open spec fn leftmost(t: Option<Box<Node>>) -> (u32, u64)
    decreases t,
{
    match t {
        None => (0, 0),
        Some(n) => {
            if n.left.is_none() {
                (n.key, n.offset)
            } else {
                leftmost(n.left)
            }
        },
    }
}

/// The tree after `key` was unbound. A node with at most one child gives its
/// place to that child. A node with two children takes the entry of its
/// successor, the leftmost node to its right, and that node is unbound on the
/// right in turn.
pub open spec fn pruned(t: Option<Box<Node>>, key: u32) -> Option<Box<Node>>
    decreases t,
{
    match t {
        None => None,
        Some(n) => {
            if key < n.key {
                Some(
                    Box::new(
                        Node {
                            key: n.key,
                            offset: n.offset,
                            left: pruned(n.left, key),
                            right: n.right,
                        },
                    ),
                )
            } else if key > n.key {
                Some(
                    Box::new(
                        Node {
                            key: n.key,
                            offset: n.offset,
                            left: n.left,
                            right: pruned(n.right, key),
                        },
                    ),
                )
            } else if n.left.is_none() {
                n.right
            } else if n.right.is_none() {
                n.left
            } else {
                let next = leftmost(n.right);
                Some(
                    Box::new(
                        Node {
                            key: next.0,
                            offset: next.1,
                            left: n.left,
                            right: pruned(n.right, next.0),
                        },
                    ),
                )
            }
        },
    }
}

/// What a lookup of `key` in the map `m` gives.
pub open spec fn lookup(m: Map<u32, u64>, key: u32) -> Option<u64> {
    if m.contains_key(key) {
        Some(m[key])
    } else {
        None
    }
}

/// The map `m` with `key` bound to `offset`, unless `key` is bound already.
pub open spec fn with_new(m: Map<u32, u64>, key: u32, offset: u64) -> Map<u32, u64> {
    if m.contains_key(key) {
        m
    } else {
        m.insert(key, offset)
    }
}

impl Node {
    /// A node without children.
    pub fn new(key: u32, offset: u64) -> (node: Self)
        ensures
            node.key == key,
            node.offset == offset,
            node.left.is_none(),
            node.right.is_none(),
    {
        Node { key, offset, left: None, right: None }
    }
}

impl View for BinaryTree {
    type V = Map<u32, u64>;

    open spec fn view(&self) -> Map<u32, u64> {
        entries(self.shape())
    }
}

impl BinaryTree {
    /// The tree under the root.
    pub closed spec fn shape(&self) -> Option<Box<Node>> {
        self.root
    }

    /// Whether the tree is a search tree. Every index that this module hands
    /// out is one.
    pub open spec fn wf(&self) -> bool {
        ordered(self.shape())
    }

    /// What holds of every index at all times.
    #[verifier::type_invariant]
    spec fn inv(&self) -> bool {
        self.wf()
    }

    /// The empty index.
    pub fn new() -> (tree: Self)
        ensures
            tree.wf(),
            tree.shape().is_none(),
            tree@ == Map::<u32, u64>::empty(),
    {
        BinaryTree { root: None }
    }

    /// The root of the tree, for a walk over its nodes.
    pub fn root(&self) -> (root: &Option<Box<Node>>)
        ensures
            self.wf(),
            *root == self.shape(),
    {
        proof {
            use_type_invariant(self);
        }
        &self.root
    }

    /// Binds `key` to `offset`. A key that is bound already keeps its offset.
    pub fn insert(&mut self, key: u32, offset: u64)
        ensures
            old(self).wf(),
            final(self).wf(),
            final(self)@ == with_new(old(self)@, key, offset),
            final(self).shape() == grown(old(self).shape(), key, offset),
    {
        proof {
            use_type_invariant(&*self);
        }
        let new_node = Box::new(Node::new(key, offset));
        let mut root = None;
        std::mem::swap(&mut root, &mut self.root);
        self.root = Self::insert_recursive(root, new_node);
    }

    fn insert_recursive(node: Option<Box<Node>>, new_node: Box<Node>) -> (out: Option<Box<Node>>)
        requires
            ordered(node),
            new_node.left.is_none(),
            new_node.right.is_none(),
        ensures
            ordered(out),
            entries(out) == with_new(entries(node), new_node.key, new_node.offset),
            out == grown(node, new_node.key, new_node.offset),
        decreases node,
    {
        let key = new_node.key;
        let ghost offset = new_node.offset;
        match node {
            None => {
                assert(entries(new_node.left) =~= Map::<u32, u64>::empty());
                assert(entries(new_node.right) =~= Map::<u32, u64>::empty());
                assert(entries(Some(new_node)) =~= Map::<u32, u64>::empty().insert(key, offset));
                Some(new_node)
            },
            Some(mut current_node) => {
                let ghost smaller = entries(current_node.left);
                let ghost larger = entries(current_node.right);
                if key < current_node.key {
                    assert(!larger.contains_key(key));
                    let left = current_node.left.take();
                    current_node.left = Self::insert_recursive(left, new_node);
                    assert(entries(current_node.left) == with_new(smaller, key, offset));
                    assert(entries(Some(current_node)) =~= with_new(
                        smaller.union_prefer_right(larger).insert(
                            current_node.key,
                            current_node.offset,
                        ),
                        key,
                        offset,
                    ));
                } else if key > current_node.key {
                    assert(!smaller.contains_key(key));
                    let right = current_node.right.take();
                    current_node.right = Self::insert_recursive(right, new_node);
                    assert(entries(current_node.right) == with_new(larger, key, offset));
                    assert(entries(Some(current_node)) =~= with_new(
                        smaller.union_prefer_right(larger).insert(
                            current_node.key,
                            current_node.offset,
                        ),
                        key,
                        offset,
                    ));
                }
                Some(current_node)
            },
        }
    }

    /// The offset that `key` is bound to, if it is bound.
    pub fn search(&self, key: u32) -> (found: Option<u64>)
        ensures
            self.wf(),
            found == lookup(self@, key),
    {
        proof {
            use_type_invariant(self);
        }
        Self::search_recursive(&self.root, key)
    }

    fn search_recursive(node: &Option<Box<Node>>, key: u32) -> (found: Option<u64>)
        requires
            ordered(*node),
        ensures
            found == lookup(entries(*node), key),
        decreases *node,
    {
        match node {
            None => None,
            Some(current_node) => {
                if key == current_node.key {
                    Some(current_node.offset)
                } else if key < current_node.key {
                    assert(!entries(current_node.right).contains_key(key));
                    Self::search_recursive(&current_node.left, key)
                } else {
                    assert(!entries(current_node.left).contains_key(key));
                    Self::search_recursive(&current_node.right, key)
                }
            },
        }
    }

    /// Unbinds `key`, and says whether it was bound.
    pub fn delete(&mut self, key: u32) -> (removed: bool)
        ensures
            old(self).wf(),
            final(self).wf(),
            final(self)@ == old(self)@.remove(key),
            final(self).shape() == pruned(old(self).shape(), key),
            removed == old(self)@.contains_key(key),
    {
        proof {
            use_type_invariant(&*self);
        }
        let mut root = None;
        std::mem::swap(&mut root, &mut self.root);
        let removed = Self::delete_recursive(&mut root, key);
        self.root = root;
        removed
    }

    fn delete_recursive(node: &mut Option<Box<Node>>, key: u32) -> (removed: bool)
        requires
            ordered(*old(node)),
        ensures
            ordered(*final(node)),
            entries(*final(node)) == entries(*old(node)).remove(key),
            *final(node) == pruned(*old(node), key),
            removed == entries(*old(node)).contains_key(key),
        decreases *old(node),
    {
        match node.take() {
            None => {
                assert(entries(*node) =~= entries(*old(node)).remove(key));
                false
            },
            Some(mut current_node) => {
                let ghost before = entries(Some(current_node));
                if key < current_node.key {
                    assert(!entries(current_node.right).contains_key(key));
                    let removed = Self::delete_recursive(&mut current_node.left, key);
                    *node = Some(current_node);
                    assert(entries(*node) =~= before.remove(key));
                    removed
                } else if key > current_node.key {
                    assert(!entries(current_node.left).contains_key(key));
                    let removed = Self::delete_recursive(&mut current_node.right, key);
                    *node = Some(current_node);
                    assert(entries(*node) =~= before.remove(key));
                    removed
                } else {
                    assert(!entries(current_node.left).contains_key(key));
                    assert(!entries(current_node.right).contains_key(key));
                    if current_node.left.is_none() {
                        *node = current_node.right.take();
                        assert(entries(*node) =~= before.remove(key));
                    } else {
                        match current_node.right.take() {
                            None => {
                                *node = current_node.left.take();
                                assert(entries(*node) =~= before.remove(key));
                            },
                            Some(larger) => {
                                let (next_key, next_offset) = Self::find_min_recursive(&larger);
                                current_node.key = next_key;
                                current_node.offset = next_offset;
                                current_node.right = Some(larger);
                                Self::delete_recursive(&mut current_node.right, next_key);
                                *node = Some(current_node);
                                assert(entries(*node) =~= before.remove(key));
                            },
                        }
                    }
                    true
                }
            },
        }
    }

    /// The entry with the smallest key of the subtree under a node.
    fn find_min_recursive(node: &Box<Node>) -> (min: (u32, u64))
        requires
            ordered(Some(*node)),
        ensures
            min == leftmost(Some(*node)),
            entries(Some(*node)).contains_key(min.0),
            entries(Some(*node))[min.0] == min.1,
            forall|k: u32| #[trigger] entries(Some(*node)).contains_key(k) ==> min.0 <= k,
        decreases *node,
    {
        match &node.left {
            None => {
                assert(entries(node.left) =~= Map::<u32, u64>::empty());
                assert forall|k: u32| #[trigger]
                    entries(Some(*node)).contains_key(k) implies node.key <= k by {
                    if entries(node.right).contains_key(k) {
                        assert(node.key < k);
                    }
                }
                (node.key, node.offset)
            },
            Some(smaller) => {
                let min = Self::find_min_recursive(smaller);
                assert(entries(node.left).contains_key(min.0));
                assert(min.0 < node.key);
                assert(!entries(node.right).contains_key(min.0));
                assert forall|k: u32| #[trigger]
                    entries(Some(*node)).contains_key(k) implies min.0 <= k by {
                    if entries(node.right).contains_key(k) {
                        assert(node.key < k);
                    }
                }
                min
            },
        }
    }
}

} // verus!
