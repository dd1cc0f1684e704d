//! The per-node store of every block seen, by height, with the current tip.

use vstd::prelude::*;
use std::collections::HashMap;
use crate::block::{Block, BlockView};

verus! {

broadcast use vstd::std_specs::hash::group_hash_axioms;

/// The mathematical value of a [`BlockTree`]: the fork set of every height
/// seen so far, and the block that counts as the head of the chain.
pub struct TreeView {
    /// For every height seen, the set of distinct blocks at that height.
    pub levels: Map<u64, Set<BlockView>>,
    /// The head of the local view; `None` until the first block arrives.
    pub tip: Option<BlockView>,
}

impl TreeView {
    /// The tree that has seen no block.
    pub open spec fn empty() -> TreeView {
        TreeView { levels: Map::empty(), tip: None }
    }

    /// The blocks recorded at `number`; none where the height was never seen.
    pub open spec fn fork_set(self, number: u64) -> Set<BlockView> {
        if self.levels.contains_key(number) {
            self.levels[number]
        } else {
            Set::empty()
        }
    }

    /// Whether the tree holds `block`.
    pub open spec fn contains(self, block: BlockView) -> bool {
        self.fork_set(block.number).contains(block)
    }

    /// The tree after `block` has arrived. The block joins the fork set of
    /// its height. It becomes the tip exactly when that height had not been
    /// seen before, whether it lies above the old tip or not.
    pub open spec fn insert(self, block: BlockView) -> TreeView {
        TreeView {
            levels: self.levels.insert(block.number, self.fork_set(block.number).insert(block)),
            tip: if self.levels.contains_key(block.number) {
                self.tip
            } else {
                Some(block)
            },
        }
    }

    /// What holds of every tree that grew from the empty one by insertions:
    /// a height that was seen holds a finite, non-empty set of blocks of that
    /// height, and there is a tip, which is one of the blocks, as soon as
    /// there is any block.
    pub open spec fn wf(self) -> bool {
        &&& self.levels.dom().finite()
        &&& forall|h: u64| #[trigger]
            self.levels.contains_key(h) ==> self.levels[h].finite() && !self.levels[h].is_empty()
        &&& forall|h: u64, b: BlockView|
            self.levels.contains_key(h) && #[trigger] self.levels[h].contains(b) ==> b.number == h
        &&& self.tip is None <==> self.levels.dom().is_empty()
        &&& self.tip matches Some(t) ==> self.contains(t)
    }
}

/// Inserting a block a second time changes nothing: neither the tip nor any
/// fork set.
pub proof fn lemma_insert_idempotent(tree: TreeView, block: BlockView)
    ensures
        tree.insert(block).insert(block) == tree.insert(block),
{
    let once = tree.insert(block);
    let twice = once.insert(block);
    assert(once.fork_set(block.number).insert(block) =~= once.fork_set(block.number));
    assert(twice.levels =~= once.levels);
}

/// The tip rule. The first block at a height that the tree has not seen
/// becomes the tip, and so does the first block ever inserted. A block that
/// arrives at a height that is already there leaves the tip as it was.
pub proof fn lemma_tip_rule(tree: TreeView, block: BlockView)
    ensures
        !tree.levels.contains_key(block.number) ==> tree.insert(block).tip == Some(block),
        tree.levels.contains_key(block.number) ==> tree.insert(block).tip == tree.tip,
        TreeView::empty().insert(block).tip == Some(block),
{
}

/// Nothing is ever dropped: the inserted block is in the tree afterwards,
/// and so is every block that was there before.
pub proof fn lemma_insert_keeps_blocks(tree: TreeView, block: BlockView, earlier: BlockView)
    requires
        tree.contains(earlier),
    ensures
        tree.insert(block).contains(block),
        tree.insert(block).contains(earlier),
{
}

/// An insertion adds nothing but the inserted block: whatever the tree holds
/// afterwards is that block or was there before.
pub proof fn lemma_insert_adds_one(tree: TreeView, block: BlockView, other: BlockView)
    requires
        tree.insert(block).contains(other),
    ensures
        other == block || tree.contains(other),
{
}

/// Insertions keep a tree well formed, starting from the empty tree.
pub proof fn lemma_insert_preserves_wf(tree: TreeView, block: BlockView)
    requires
        tree.wf(),
    ensures
        tree.insert(block).wf(),
        TreeView::empty().wf(),
{
    let after = tree.insert(block);
    assert(after.levels.contains_key(block.number));
    assert(after.levels.dom() =~= tree.levels.dom().insert(block.number));
    assert(after.levels[block.number].contains(block));
    assert forall|h: u64| #[trigger] after.levels.contains_key(h) implies after.levels[h].finite()
        && !after.levels[h].is_empty() by {
        if h != block.number {
            assert(tree.levels.contains_key(h));
        }
    }
    assert forall|h: u64, b: BlockView|
        after.levels.contains_key(h) && #[trigger] after.levels[h].contains(b) implies b.number
        == h by {
        if h != block.number {
            assert(tree.levels.contains_key(h));
        } else if b != block {
            assert(tree.fork_set(h).contains(b));
        }
    }
    if let Some(t) = after.tip {
        if tree.levels.contains_key(block.number) {
            assert(tree.tip == Some(t));
            assert(tree.contains(t));
        }
    }
    assert(TreeView::empty().levels.dom() =~= Set::<u64>::empty());
}

/// The values of the blocks in a bucket, in the order of their arrival.
pub open spec fn bucket_views(bucket: Seq<Block>) -> Seq<BlockView> {
    Seq::new(bucket.len(), |i: int| bucket[i]@)
}

/// Whether a bucket holds a block of the given value.
fn bucket_contains(bucket: &Vec<Block>, block: &Block) -> (found: bool)
    ensures
        found == bucket_views(bucket@).contains(block@),
{
    let mut i: usize = 0;
    while i < bucket.len()
        invariant
            i <= bucket.len(),
            forall|j: int| 0 <= j < i ==> bucket@[j]@ != block@,
        decreases bucket.len() - i,
    {
        if bucket[i] == *block {
            assert(bucket_views(bucket@)[i as int] == block@);
            return true;
        }
        i += 1;
    }
    false
}

/// Every block that a node has seen, indexed by height, and its current tip.
///
/// Nothing is ever removed. The blocks at one height are kept in the order
/// in which they arrived, each value once.
pub struct BlockTree {
    levels: HashMap<u64, Vec<Block>>,
    tip: Option<Block>,
}

impl View for BlockTree {
    type V = TreeView;

    closed spec fn view(&self) -> TreeView {
        TreeView {
            levels: Map::new(
                |h: u64| self.levels@.contains_key(h),
                |h: u64| bucket_views(self.levels@[h]@).to_set(),
            ),
            tip: match self.tip {
                Some(b) => Some(b@),
                None => None,
            },
        }
    }
}

impl Default for BlockTree {
    fn default() -> (tree: BlockTree)
        ensures
            tree.wf(),
            tree@ == TreeView::empty(),
    {
        BlockTree::new()
    }
}

impl BlockTree {
    /// The representation is sound: every bucket is non-empty, holds blocks
    /// of its own height and no value twice, and the tip is a stored block.
    pub closed spec fn wf(&self) -> bool {
        &&& forall|h: u64| #[trigger]
            self.levels@.contains_key(h) ==> {
                &&& self.levels@[h]@.len() > 0
                &&& bucket_views(self.levels@[h]@).no_duplicates()
                &&& forall|i: int|
                    0 <= i < self.levels@[h]@.len() ==> (#[trigger] self.levels@[h]@[i]).number
                        == h
            }
        &&& self.tip is None <==> self.levels@.dom().is_empty()
        &&& self.tip matches Some(t) ==> self.levels@.contains_key(t.number) && bucket_views(
            self.levels@[t.number]@,
        ).contains(t@)
    }

    /// A sound tree has a well-formed value.
    pub proof fn lemma_view_wf(&self)
        requires
            self.wf(),
        ensures
            self@.wf(),
    {
        let v = self@;
        assert(v.levels.dom() =~= self.levels@.dom());
        assert forall|h: u64| #[trigger] v.levels.contains_key(h) implies v.levels[h].finite()
            && !v.levels[h].is_empty() by {
            let views = bucket_views(self.levels@[h]@);
            vstd::seq_lib::seq_to_set_is_finite(views);
            assert(views.to_set().contains(views[0]));
        }
        assert forall|h: u64, b: BlockView|
            v.levels.contains_key(h) && #[trigger] v.levels[h].contains(b) implies b.number
            == h by {
            let views = bucket_views(self.levels@[h]@);
            let i = choose|i: int| 0 <= i < views.len() && views[i] == b;
            assert(self.levels@[h]@[i].number == h);
        }
    }

    /// The tree that has seen no block.
    pub fn new() -> (tree: BlockTree)
        ensures
            tree.wf(),
            tree@ == TreeView::empty(),
    {
        let tree = BlockTree { levels: HashMap::new(), tip: None };
        assert(tree@.levels =~= Map::empty());
        tree
    }

    /// Whether no block has arrived yet.
    pub fn is_empty(&self) -> (empty: bool)
        requires
            self.wf(),
        ensures
            empty == (self@.tip is None),
            empty == (self@ == TreeView::empty()),
    {
        proof {
            if self.tip is None {
                assert(self@.levels =~= Map::empty());
            }
        }
        self.tip.is_none()
    }

    /// The block that counts as the head of the chain, once there is one.
    pub fn tip(&self) -> (tip: Option<&Block>)
        ensures
            match tip {
                Some(b) => self@.tip == Some(b@),
                None => self@.tip is None,
            },
    {
        self.tip.as_ref()
    }

    /// The blocks recorded at `number`, in the order of their arrival and
    /// each value once; `None` where the height was never seen.
    pub fn blocks_at(&self, number: u64) -> (blocks: Option<&Vec<Block>>)
        requires
            self.wf(),
        ensures
            match blocks {
                Some(bucket) => {
                    &&& self@.levels.contains_key(number)
                    &&& bucket_views(bucket@).to_set() == self@.levels[number]
                    &&& bucket_views(bucket@).no_duplicates()
                },
                None => !self@.levels.contains_key(number),
            },
    {
        self.levels.get(&number)
    }

    /// Whether the tree holds a block of this value.
    pub fn contains(&self, block: &Block) -> (found: bool)
        requires
            self.wf(),
        ensures
            found == self@.contains(block@),
    {
        match self.levels.get(&block.number) {
            Some(bucket) => bucket_contains(bucket, block),
            None => false,
        }
    }

    /// Records a block. See [`TreeView::insert`] for what changes.
    pub fn insert(&mut self, block: Block)
        requires
            old(self).wf(),
        ensures
            final(self).wf(),
            final(self)@ == old(self)@.insert(block@),
    {
        let number = block.number;
        let ghost before = *self;
        match self.levels.remove(&number) {
            Some(mut bucket) => {
                let ghost stored = bucket@;
                let found = bucket_contains(&bucket, &block);
                if !found {
                    bucket.push(block);
                }
                proof {
                    let views = bucket_views(bucket@);
                    if found {
                        assert(views.to_set() =~= bucket_views(stored).to_set().insert(block@));
                    } else {
                        assert(views =~= bucket_views(stored).push(block@));
                        assert forall|b: BlockView|
                            views.to_set().contains(b) == bucket_views(stored).to_set().insert(
                                block@,
                            ).contains(b) by {
                            if views.to_set().contains(b) {
                                let i = choose|i: int| 0 <= i < views.len() && views[i] == b;
                                if i < stored.len() {
                                    assert(bucket_views(stored)[i] == b);
                                }
                            }
                            if bucket_views(stored).to_set().contains(b) {
                                let i = choose|i: int|
                                    0 <= i < stored.len() && bucket_views(stored)[i] == b;
                                assert(views[i] == b);
                            }
                            if b == block@ {
                                assert(views[stored.len() as int] == b);
                            }
                        }
                        assert(views.to_set() =~= bucket_views(stored).to_set().insert(block@));
                        assert forall|i: int, j: int|
                            0 <= i < views.len() && 0 <= j < views.len() && i != j implies views[i]
                            != views[j] by {
                            if i < stored.len() && j < stored.len() {
                                assert(bucket_views(stored)[i] != bucket_views(stored)[j]);
                            } else if i < stored.len() {
                                assert(bucket_views(stored)[i] == views[i]);
                            } else {
                                assert(bucket_views(stored)[j] == views[j]);
                            }
                        }
                    }
                }
                self.levels.insert(number, bucket);
                proof {
                    assert(self.levels@ =~= before.levels@.insert(number, bucket));
                    assert(self@.levels =~= before@.insert(block@).levels);
                    assert(self.levels@.dom() =~= before.levels@.dom());
                    assert forall|h: u64| #[trigger] self.levels@.contains_key(h) implies {
                        &&& self.levels@[h]@.len() > 0
                        &&& bucket_views(self.levels@[h]@).no_duplicates()
                        &&& forall|i: int|
                            0 <= i < self.levels@[h]@.len() ==> (
                            #[trigger] self.levels@[h]@[i]).number == h
                    } by {
                        assert(before.levels@.contains_key(h));
                    }
                    if let Some(t) = before.tip {
                        if t.number == number {
                            let old_views = bucket_views(stored);
                            let i = choose|i: int| 0 <= i < old_views.len() && old_views[i] == t@;
                            assert(bucket_views(bucket@)[i] == t@);
                        }
                    }
                }
            },
            None => {
                self.tip = Some(block.clone());
                let mut bucket: Vec<Block> = Vec::new();
                bucket.push(block);
                self.levels.insert(number, bucket);
                proof {
                    let views = bucket_views(bucket@);
                    assert(views[0] == block@);
                    assert(views.to_set() =~= Set::<BlockView>::empty().insert(block@));
                    assert(self.levels@ =~= before.levels@.insert(number, bucket));
                    assert(self@.levels =~= before@.insert(block@).levels);
                    assert(self.levels@.dom() =~= before.levels@.dom().insert(number));
                    assert(self.levels@.contains_key(number));
                    assert forall|h: u64| #[trigger] self.levels@.contains_key(h) implies {
                        &&& self.levels@[h]@.len() > 0
                        &&& bucket_views(self.levels@[h]@).no_duplicates()
                        &&& forall|i: int|
                            0 <= i < self.levels@[h]@.len() ==> (
                            #[trigger] self.levels@[h]@[i]).number == h
                    } by {
                        if h != number {
                            assert(before.levels@.contains_key(h));
                        }
                    }
                }
            },
        }
    }
}

} // verus!
