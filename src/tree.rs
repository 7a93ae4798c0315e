use crate::datatypes::{Block, BlockID, PageID};
use crate::visited::VisitedSet;
use std::collections::VecDeque;
use vstd::prelude::*;

verus! {

broadcast use vstd::seq_lib::group_seq_properties;

/// One node of a `BlockTree`: a block and the index of its parent node.
#[derive(Debug, Clone)]
pub struct TreeNode {
    pub block: Block,
    pub parent: Option<usize>,
}

/// An ordered tree of blocks, held as an arena. Node 0 is the root; every
/// other node names a parent that stands before it, so the nodes form one
/// tree. Siblings are ordered by index, which is the order they were added in.
#[derive(Debug, Clone)]
pub struct BlockTree {
    nodes: Vec<TreeNode>,
}

/// Whether `nodes` is a tree rooted at index 0 in which parents precede their
/// children.
pub open spec fn is_arena_tree(nodes: Seq<TreeNode>) -> bool {
    &&& nodes.len() >= 1
    &&& nodes[0].parent is None
    &&& forall|i: int|
        1 <= i < nodes.len() ==> match (#[trigger] nodes[i]).parent {
            Some(p) => p < i,
            None => false,
        }
}

/// The indices of the children of node `i`, in increasing order.
pub open spec fn child_indices(nodes: Seq<TreeNode>, i: int) -> Seq<int> {
    Seq::new(nodes.len(), |j: int| j).filter(|j: int| nodes[j].parent == Some(i as usize))
}

impl BlockTree {
    pub closed spec fn nodes(&self) -> Seq<TreeNode> {
        self.nodes@
    }

    pub open spec fn wf(&self) -> bool {
        is_arena_tree(self.nodes())
    }

    /// The tree holding `root` alone.
    pub fn from_root(root: Block) -> (r: BlockTree)
        ensures
            r.wf(),
            r.nodes() == seq![TreeNode { block: root, parent: None }],
    {
        let mut nodes: Vec<TreeNode> = Vec::new();
        nodes.push(TreeNode { block: root, parent: None });
        BlockTree { nodes }
    }

    /// Adds `block` as the last child of node `parent`; returns its index.
    fn add_child(&mut self, parent: usize, block: Block) -> (r: usize)
        requires
            old(self).wf(),
            parent < old(self).nodes().len(),
        ensures
            final(self).wf(),
            r == old(self).nodes().len(),
            final(self).nodes() == old(self).nodes().push(
                TreeNode { block: block, parent: Some(parent) },
            ),
    {
        let r = self.nodes.len();
        self.nodes.push(TreeNode { block, parent: Some(parent) });
        r
    }

    /// The number of nodes.
    pub fn len(&self) -> (r: usize)
        ensures
            r == self.nodes().len(),
    {
        self.nodes.len()
    }

    /// The root's block.
    pub fn root(&self) -> (r: &Block)
        requires
            self.wf(),
        ensures
            *r == self.nodes()[0].block,
    {
        &self.nodes[0].block
    }

    /// The block at node `i`.
    pub fn block(&self, i: usize) -> (r: &Block)
        requires
            i < self.nodes().len(),
        ensures
            *r == self.nodes()[i as int].block,
    {
        &self.nodes[i].block
    }

    /// The parent of node `i`; `None` for the root.
    pub fn parent(&self, i: usize) -> (r: Option<usize>)
        requires
            i < self.nodes().len(),
        ensures
            r == self.nodes()[i as int].parent,
    {
        self.nodes[i].parent
    }

    /// The children of node `i`, in sibling order.
    pub fn children(&self, i: usize) -> (r: Vec<usize>)
        ensures
            r@.map_values(|x: usize| x as int) == child_indices(self.nodes(), i as int),
    {
        let ghost is_child = |j: int| self.nodes()[j].parent == Some(i);
        let mut r: Vec<usize> = Vec::new();
        let mut j: usize = 0;
        while j < self.nodes.len()
            invariant
                j <= self.nodes().len(),
                is_child == (|j: int| self.nodes()[j].parent == Some(i)),
                r@.map_values(|x: usize| x as int) == Seq::new(j as nat, |m: int| m).filter(
                    is_child,
                ),
            decreases self.nodes().len() - j,
        {
            proof {
                assert(Seq::new((j + 1) as nat, |m: int| m) =~= Seq::new(j as nat, |m: int| m).push(
                    j as int,
                ));
                Seq::new(j as nat, |m: int| m).lemma_filter_push(j as int, is_child);
            }
            if self.nodes[j].parent == Some(i) {
                r.push(j);
            }
            j = j + 1;
            assert(r@.map_values(|x: usize| x as int) =~= Seq::new(j as nat, |m: int| m).filter(
                is_child,
            ));
        }
        r
    }

    /// Every node, in index order.
    pub fn blocks(&self) -> (r: &Vec<TreeNode>)
        ensures
            r@ == self.nodes(),
    {
        &self.nodes
    }
}

/// Whether a fetched child is kept: its id was not visited and its text is
/// not blank.
pub open spec fn child_kept(visited: Set<Seq<char>>) -> spec_fn(Block) -> bool {
    |c: Block| !visited.contains(c.id.0@) && !c.spec_is_empty()
}

/// The node that holds block `c` under the parent node `n`.
pub open spec fn node_under(n: usize) -> spec_fn(Block) -> TreeNode {
    |c: Block| TreeNode { block: c, parent: Some(n) }
}

/// The `count` indices that nodes appended after the first `start` receive.
pub open spec fn appended_indices(start: nat, count: nat) -> Seq<usize> {
    Seq::new(count, |k: int| (start + k) as usize)
}

/// What the caller of `TreeExpansion::step` is to do next.
#[derive(Debug)]
pub enum ExpansionStep {
    /// Fetch every child of this block (of this page) and hand them to
    /// `supply_children`.
    FetchChildren(BlockID, PageID),
    /// One queued node was handled; call `step` again.
    Continue,
    /// The tree is complete.
    Finished,
}

/// One call of `TreeExpansion::step`: from expansion `x0` and visited set
/// `v0`, it answered `r` and left `x1` and `v1`.
pub open spec fn expansion_step(
    x0: TreeExpansion,
    v0: Set<Seq<char>>,
    r: ExpansionStep,
    x1: TreeExpansion,
    v1: Set<Seq<char>>,
) -> bool {
    &&& x1.tree() == x0.tree()
    &&& (x0.queue().len() == 0 ==> {
        &&& r is Finished
        &&& x1.queue() == x0.queue()
        &&& x1.awaited() is None
        &&& v1 == v0
    })
    &&& (x0.queue().len() > 0 ==> {
        let n = x0.queue()[0];
        let b = x0.tree().nodes()[n as int].block;
        &&& x1.queue() == x0.queue().drop_first()
        &&& v1 == v0.insert(b.id.0@)
        &&& if v0.contains(b.id.0@) || !b.has_children {
            &&& r is Continue
            &&& x1.awaited() is None
        } else {
            &&& r == ExpansionStep::FetchChildren(b.id, b.page_id)
            &&& x1.awaited() == Some(n)
        }
    })
}

/// One call of `TreeExpansion::supply_children`: of `children`, those that
/// `visited` and blankness do not drop became new nodes under the awaited node
/// of `x0`, in order, and were queued, giving `x1`.
pub open spec fn expansion_supplied(
    x0: TreeExpansion,
    children: Seq<Block>,
    visited: Set<Seq<char>>,
    x1: TreeExpansion,
) -> bool {
    let n = x0.awaited()->0;
    let kept = children.filter(child_kept(visited));
    let len = x0.tree().nodes().len();
    &&& x1.awaited() is None
    &&& x1.tree().nodes() == x0.tree().nodes() + kept.map_values(node_under(n))
    &&& x1.queue() == x0.queue() + appended_indices(len, kept.len())
}

/// Breadth-first expansion of one root block into the tree of all its
/// descendants, whatever their edit times.
///
/// A fetched child becomes a node only when its id has not been visited and
/// it is non-empty; a dropped child is never descended into. The caller
/// fetches children when `step` asks for them.
pub struct TreeExpansion {
    tree: BlockTree,
    queue: VecDeque<usize>,
    awaited: Option<usize>,
}

impl TreeExpansion {
    pub closed spec fn tree(&self) -> BlockTree {
        self.tree
    }

    /// The node indices still to be expanded, front first.
    pub closed spec fn queue(&self) -> Seq<usize> {
        self.queue@
    }

    /// The node whose children were asked for and not yet supplied.
    pub closed spec fn awaited(&self) -> Option<usize> {
        self.awaited
    }

    /// The tree is well formed; every queued or awaited index names a node;
    /// every node but the root is non-empty.
    pub open spec fn wf(&self) -> bool {
        &&& self.tree().wf()
        &&& forall|k: int|
            0 <= k < self.queue().len() ==> #[trigger] self.queue()[k] < self.tree().nodes().len()
        &&& match self.awaited() {
            Some(n) => n < self.tree().nodes().len(),
            None => true,
        }
        &&& forall|i: int|
            1 <= i < self.tree().nodes().len() ==> !(
            #[trigger] self.tree().nodes()[i]).block.spec_is_empty()
    }

    /// No node of the tree but the root holds a block with blank text.
    pub proof fn lemma_nodes_non_empty(&self)
        requires
            self.wf(),
        ensures
            forall|i: int|
                1 <= i < self.tree().nodes().len() ==> !(
                #[trigger] self.tree().nodes()[i]).block.spec_is_empty(),
    {
    }

    /// Starts the expansion of `root`.
    pub fn new(root: Block) -> (r: TreeExpansion)
        ensures
            r.wf(),
            r.tree().nodes() == seq![TreeNode { block: root, parent: None }],
            r.queue() == seq![0usize],
            r.awaited() is None,
    {
        let mut queue: VecDeque<usize> = VecDeque::new();
        queue.push_back(0);
        TreeExpansion { tree: BlockTree::from_root(root), queue, awaited: None }
    }

    /// Handles at most one queued node.
    ///
    /// With an empty queue the expansion is finished. Otherwise the front node
    /// is taken off the queue: it is skipped when its block's id was visited;
    /// else the id is marked visited and, when the block has children, they are
    /// asked for.
    pub fn step(&mut self, visited: &mut VisitedSet) -> (r: ExpansionStep)
        requires
            old(self).wf(),
            old(self).awaited() is None,
            old(visited).wf(),
        ensures
            final(self).wf(),
            final(visited).wf(),
            expansion_step(*old(self), old(visited)@, r, *final(self), final(visited)@),
    {
        let ghost front = self.queue@;
        let n = match self.queue.pop_front() {
            Some(n) => n,
            None => {
                return ExpansionStep::Finished;
            },
        };
        assert(self.queue@ =~= front.drop_first());
        let fresh = visited.insert(&self.tree.nodes[n].block.id);
        if !fresh {
            return ExpansionStep::Continue;
        }
        let block = &self.tree.nodes[n].block;
        if block.has_children {
            let id = block.id.duplicate();
            let page = block.page_id.duplicate();
            self.awaited = Some(n);
            return ExpansionStep::FetchChildren(id, page);
        }
        ExpansionStep::Continue
    }

    /// Adds, under the awaited node and in the order given, each fetched child
    /// whose id is not in `visited` and whose text is not blank, and queues the
    /// new nodes. The other children are dropped with everything beneath them.
    pub fn supply_children(&mut self, children: Vec<Block>, visited: &VisitedSet)
        requires
            old(self).wf(),
            old(self).awaited() is Some,
        ensures
            final(self).wf(),
            expansion_supplied(*old(self), children@, visited@, *final(self)),
    {
        let n = match self.awaited {
            Some(n) => n,
            None => {
                return;
            },
        };
        let ghost keep = child_kept(visited@);
        let ghost nodes0 = self.tree.nodes@;
        let ghost queue0 = self.queue@;
        let ghost len = nodes0.len();
        proof {
            assert forall|k: int| 0 <= k < queue0.len() implies #[trigger] queue0[k] < nodes0.len() by {
                assert(self.queue()[k] == queue0[k]);
            }
            assert forall|j: int| 1 <= j < nodes0.len() implies !(
            #[trigger] nodes0[j]).block.spec_is_empty() by {
                assert(self.tree().nodes()[j] == nodes0[j]);
            }
            assert(children@.subrange(0, 0).filter(keep) =~= Seq::<Block>::empty());
            assert(self.tree.nodes() =~= nodes0 + children@.subrange(0, 0).filter(keep).map_values(node_under(n)));
            assert(self.queue@ =~= queue0 + appended_indices(len, children@.subrange(0, 0).filter(keep).len()));
        }
        let mut i: usize = 0;
        while i < children.len()
            invariant
                i <= children@.len(),
                n < nodes0.len(),
                is_arena_tree(nodes0),
                forall|k: int| 0 <= k < queue0.len() ==> #[trigger] queue0[k] < nodes0.len(),
                forall|j: int|
                    1 <= j < nodes0.len() ==> !(#[trigger] nodes0[j]).block.spec_is_empty(),
                self.tree.wf(),
                self.tree.nodes() == nodes0 + children@.subrange(0, i as int).filter(
                    keep,
                ).map_values(node_under(n)),
                self.queue@ == queue0 + appended_indices(len, children@.subrange(0, i as int).filter(keep).len()),
                self.awaited == Some(n),
                keep == child_kept(visited@),
                len == nodes0.len(),
            decreases children@.len() - i,
        {
            let ghost before = children@.subrange(0, i as int);
            let c = &children[i];
            proof {
                assert(children@.subrange(0, i + 1) =~= before.push(*c));
                before.lemma_filter_push(*c, keep);
            }
            if !visited.contains(&c.id) && !c.is_empty() {
                let idx = self.tree.add_child(n, c.duplicate());
                self.queue.push_back(idx);
                let ghost kept = before.filter(keep);
                assert(self.tree.nodes() =~= nodes0 + kept.push(*c).map_values(node_under(n)));
                assert(self.queue@ =~= queue0 + appended_indices(len, kept.push(*c).len()));
            }
            i = i + 1;
        }
        assert(children@.subrange(0, children@.len() as int) =~= children@);
        self.awaited = None;
        proof {
            let kept = children@.filter(keep);
            assert forall|j: int|
                1 <= j < self.tree.nodes().len() implies !(
                #[trigger] self.tree.nodes()[j]).block.spec_is_empty() by {
                if j >= nodes0.len() {
                    broadcast use vstd::seq_lib::group_filter_ensures;

                    assert(keep(kept[j - nodes0.len()]));
                }
            }
        }
    }

    /// How many nodes wait in the queue.
    pub fn pending(&self) -> (r: usize)
        ensures
            r == self.queue().len(),
    {
        self.queue.len()
    }

    /// The tree built so far.
    pub fn into_tree(self) -> (r: BlockTree)
        ensures
            r == self.tree(),
    {
        self.tree
    }
}

} // verus!
