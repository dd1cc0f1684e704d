//! The per-node proposal rules: whose turn it is, and when a node stands in
//! for a leader that stays silent.
//!
//! A [`Miner`] is a state machine. Whoever drives it hands it the blocks that
//! arrive and the time of day, and carries out what it decides: it sleeps
//! where the miner asks for a pause and sends out the blocks that the miner
//! builds.

use vstd::prelude::*;
use crate::block::{child_view, Block, BlockView, GENESIS_TIMESTAMP};
use crate::block_tree::{BlockTree, TreeView};

verus! {

/// How long a miner pauses when no block has arrived, in milliseconds.
pub const POLL_INTERVAL_MS: u64 = 100;

/// The time between a block and its successor by the designated proposer,
/// in milliseconds.
pub const BLOCK_INTERVAL_MS: u64 = 2000;

/// What each further step in the rotation adds to the time a node waits
/// before it stands in for the designated proposer, in milliseconds.
pub const TURN_WAIT_MS: u64 = 10000;

/// The node whose turn it is after a block by `miner`, among `n` nodes.
pub open spec fn next_proposer(n: u8, miner: u8) -> int {
    (miner + 1) % (n as int)
}

/// The number of rotation steps from the designated proposer after `pre` to
/// `cur`, among `n` nodes: 0 for the designated proposer itself, and `n - 1`
/// for `pre`, which comes last.
pub open spec fn hop_distance(n: u8, pre: u8, cur: u8) -> int {
    (cur - pre - 1) % (n as int)
}

/// The hop distance, case by case.
pub proof fn lemma_hop_cases(n: u8, pre: u8, cur: u8)
    requires
        pre < n,
        cur < n,
    ensures
        pre < cur ==> hop_distance(n, pre, cur) == cur - pre - 1,
        pre > cur ==> hop_distance(n, pre, cur) == n - (pre - cur) - 1,
        pre == cur ==> hop_distance(n, pre, cur) == n - 1,
{
    let m = n as int;
    let d = cur - pre - 1;
    if pre < cur {
        vstd::arithmetic::div_mod::lemma_small_mod(d as nat, m as nat);
    } else {
        vstd::arithmetic::div_mod::lemma_small_mod((d + m) as nat, m as nat);
        vstd::arithmetic::div_mod::lemma_mod_add_multiples_vanish(d, m);
    }
}

/// The hop distance counts rotation steps: it is below `n`, stepping that
/// far from the designated proposer arrives at `cur`, it is 0 for the
/// designated proposer and for no one else, and it is `n - 1` for the author
/// of the block itself.
pub proof fn lemma_hop_distance(n: u8, pre: u8, cur: u8)
    requires
        pre < n,
        cur < n,
    ensures
        0 <= hop_distance(n, pre, cur) < n,
        (pre + 1 + hop_distance(n, pre, cur)) % (n as int) == cur,
        hop_distance(n, pre, cur) == 0 <==> next_proposer(n, pre) == cur,
        hop_distance(n, pre, pre) == n - 1,
{
    let m = n as int;
    lemma_hop_cases(n, pre, cur);
    lemma_hop_cases(n, pre, pre);
    if pre < cur {
        vstd::arithmetic::div_mod::lemma_small_mod(cur as nat, m as nat);
    } else {
        vstd::arithmetic::div_mod::lemma_small_mod(cur as nat, m as nat);
        vstd::arithmetic::div_mod::lemma_mod_add_multiples_vanish(cur as int, m);
    }
    if pre + 1 < n {
        vstd::arithmetic::div_mod::lemma_small_mod((pre + 1) as nat, m as nat);
    } else {
        vstd::arithmetic::div_mod::lemma_mod_self_0(m);
    }
}

/// The number of rotation steps from the designated proposer after `pre` to
/// `cur`, among `n` nodes.
pub fn hop(n: u8, pre: u8, cur: u8) -> (h: u8)
    requires
        pre < n,
        cur < n,
    ensures
        h == hop_distance(n, pre, cur),
{
    proof {
        lemma_hop_cases(n, pre, cur);
    }
    if pre < cur {
        cur - (pre + 1)
    } else if pre > cur {
        n - (pre - cur) - 1
    } else {
        n - 1
    }
}

/// What a miner does after it has looked at its tip.
#[derive(Clone, Copy, Debug, PartialEq, Eq, Structural)]
pub enum Decision {
    /// Nothing to propose on this pass.
    Idle,
    /// Build a block on the tip and send it out, after a pause of `wait_ms`
    /// milliseconds.
    Propose { wait_ms: u128 },
}

/// The mathematical value of a [`Miner`].
pub struct MinerView {
    /// The node's identity, below `n`.
    pub id: u8,
    /// The number of nodes.
    pub n: u8,
    /// The pause after a look into an empty inbox, in milliseconds.
    pub poll_interval_ms: u64,
    /// The time from a block to its regular successor, in milliseconds.
    pub block_interval_ms: u64,
    /// The failover wait per rotation step, in milliseconds.
    pub turn_wait_ms: u64,
    /// The node's own view of the chain.
    pub tree: TreeView,
}

impl MinerView {
    /// Whether the miner may take in `block`: its author is one of the nodes
    /// and it can be hashed.
    pub open spec fn admits(self, block: BlockView) -> bool {
        block.miner < self.n && block.hashable()
    }

    /// Whether it is this node's regular turn after `tip`.
    pub open spec fn is_designated(self, tip: BlockView) -> bool {
        next_proposer(self.n, tip.miner) == self.id
    }

    /// The time, in milliseconds since the Unix epoch, from which the
    /// designated proposer builds on `tip`.
    pub open spec fn primary_time(self, tip: BlockView) -> int {
        tip.timestamp * 1000 + self.block_interval_ms
    }

    /// The time, in milliseconds since the Unix epoch, from which this node
    /// stands in for the designated proposer after `tip`.
    pub open spec fn failover_time(self, tip: BlockView) -> int {
        tip.timestamp * 1000 + hop_distance(self.n, tip.miner, self.id) * self.turn_wait_ms
    }

    /// What the miner does at `now_ms`, in milliseconds since the Unix epoch.
    ///
    /// Without a tip it waits for genesis. It never builds on its own block.
    /// Where it is the designated proposer it proposes once the block
    /// interval has passed since the tip. Otherwise it stands in once its
    /// failover time has passed, but never on genesis, whose timestamp is no
    /// clock reading.
    pub open spec fn decision(self, now_ms: u64) -> Decision {
        match self.tree.tip {
            None => Decision::Idle,
            Some(tip) => {
                if tip.miner == self.id {
                    Decision::Idle
                } else if self.is_designated(tip) {
                    if self.primary_time(tip) > now_ms {
                        Decision::Propose { wait_ms: (self.primary_time(tip) - now_ms) as u128 }
                    } else {
                        Decision::Propose { wait_ms: 0 }
                    }
                } else if tip.timestamp == GENESIS_TIMESTAMP {
                    Decision::Idle
                } else if self.failover_time(tip) > now_ms {
                    Decision::Idle
                } else {
                    Decision::Propose { wait_ms: 0 }
                }
            },
        }
    }

    /// The miner is one of its `n` nodes, its tree is well formed, and it
    /// admits its own tip.
    pub open spec fn wf(self) -> bool {
        &&& self.id < self.n
        &&& self.tree.wf()
        &&& self.tree.tip matches Some(tip) ==> self.admits(tip)
    }
}

/// Failover timing. A node that is not the designated proposer builds on a
/// tip only once its failover time has come: the tip's timestamp plus its hop
/// distance times the turn wait. It is at least one hop away, it does not
/// wait any further, and it never stands in on genesis.
pub proof fn lemma_failover_waits_its_turn(miner: MinerView, now_ms: u64)
    requires
        miner.wf(),
        miner.tree.tip matches Some(tip) && !miner.is_designated(tip),
        miner.decision(now_ms) is Propose,
    ensures
        now_ms >= miner.failover_time(miner.tree.tip->0),
        hop_distance(miner.n, (miner.tree.tip->0).miner, miner.id) >= 1,
        (miner.tree.tip->0).timestamp != GENESIS_TIMESTAMP,
        miner.decision(now_ms) == (Decision::Propose { wait_ms: 0 }),
{
    let tip = miner.tree.tip->0;
    lemma_hop_distance(miner.n, tip.miner, miner.id);
}

/// The designated proposer keeps the block interval. It always proposes on
/// another node's tip, and the pause it asks for ends no earlier than one
/// block interval after the tip's timestamp; past that time it asks for none.
pub proof fn lemma_primary_keeps_interval(miner: MinerView, now_ms: u64)
    requires
        miner.wf(),
        miner.tree.tip matches Some(tip) && miner.is_designated(tip) && tip.miner != miner.id,
    ensures
        miner.decision(now_ms) matches Decision::Propose { wait_ms } && now_ms + wait_ms
            >= miner.primary_time(miner.tree.tip->0) && (now_ms >= miner.primary_time(
            miner.tree.tip->0,
        ) ==> wait_ms == 0),
{
}

/// One regular author per height. Until the first failover time after a tip,
/// which is one turn wait after its timestamp, no node but the designated
/// proposer builds on it.
pub proof fn lemma_only_designated_before_failover(miner: MinerView, now_ms: u64)
    requires
        miner.wf(),
        miner.tree.tip matches Some(tip) && now_ms < tip.timestamp * 1000 + miner.turn_wait_ms,
        miner.decision(now_ms) is Propose,
    ensures
        miner.is_designated(miner.tree.tip->0),
{
    let tip = miner.tree.tip->0;
    if !miner.is_designated(tip) {
        lemma_failover_waits_its_turn(miner, now_ms);
        let h = hop_distance(miner.n, tip.miner, miner.id);
        assert(h * miner.turn_wait_ms >= miner.turn_wait_ms) by (nonlinear_arith)
            requires
                h >= 1,
                miner.turn_wait_ms >= 0,
        ;
    }
}

/// The closer a node is to the designated proposer in rotation order, the
/// sooner it stands in.
pub proof fn lemma_closer_stands_in_sooner(near: MinerView, far: MinerView, tip: BlockView)
    requires
        near.n == far.n,
        near.turn_wait_ms == far.turn_wait_ms,
        hop_distance(near.n, tip.miner, near.id) <= hop_distance(far.n, tip.miner, far.id),
    ensures
        near.failover_time(tip) <= far.failover_time(tip),
{
    let a = hop_distance(near.n, tip.miner, near.id);
    let b = hop_distance(far.n, tip.miner, far.id);
    assert(a * near.turn_wait_ms <= b * near.turn_wait_ms) by (nonlinear_arith)
        requires
            a <= b,
            near.turn_wait_ms >= 0,
    ;
}

/// A node that would propose keeps on wanting to as time goes by, for as
/// long as its tip stays the same.
pub proof fn lemma_proposal_stays_due(miner: MinerView, now_ms: u64, later_ms: u64)
    requires
        now_ms <= later_ms,
        miner.decision(now_ms) is Propose,
    ensures
        miner.decision(later_ms) is Propose,
{
}

/// A node does not build on its own block, and without a tip it waits.
pub proof fn lemma_never_twice_in_a_row(miner: MinerView, now_ms: u64)
    requires
        miner.tree.tip matches Some(tip) ==> tip.miner == miner.id,
    ensures
        miner.decision(now_ms) == Decision::Idle,
{
}

/// One node of the rotation: its identity, its timing and its view of the
/// chain.
pub struct Miner {
    id: u8,
    n: u8,
    sleep_ms: u64,
    block_int_ms: u64,
    my_turn_wait_ms: u64,
    block_tree: BlockTree,
}

impl View for Miner {
    type V = MinerView;

    closed spec fn view(&self) -> MinerView {
        MinerView {
            id: self.id,
            n: self.n,
            poll_interval_ms: self.sleep_ms,
            block_interval_ms: self.block_int_ms,
            turn_wait_ms: self.my_turn_wait_ms,
            tree: self.block_tree@,
        }
    }
}

impl Miner {
    /// The representation is sound and the value is well formed.
    pub closed spec fn wf(&self) -> bool {
        self.block_tree.wf() && self@.wf()
    }

    /// A sound miner has a well-formed value.
    pub proof fn lemma_view_wf(&self)
        requires
            self.wf(),
        ensures
            self@.wf(),
    {
    }

    /// Node `id` of `n`, with the standard timing and an empty tree.
    pub fn new(id: u8, n: u8) -> (miner: Miner)
        requires
            id < n,
        ensures
            miner.wf(),
            miner@ == (MinerView {
                id,
                n,
                poll_interval_ms: POLL_INTERVAL_MS,
                block_interval_ms: BLOCK_INTERVAL_MS,
                turn_wait_ms: TURN_WAIT_MS,
                tree: TreeView::empty(),
            }),
    {
        let block_tree = BlockTree::new();
        proof {
            block_tree.lemma_view_wf();
        }
        Miner {
            id,
            n,
            sleep_ms: POLL_INTERVAL_MS,
            block_int_ms: BLOCK_INTERVAL_MS,
            my_turn_wait_ms: TURN_WAIT_MS,
            block_tree,
        }
    }

    /// The node's identity.
    pub fn id(&self) -> (id: u8)
        ensures
            id == self@.id,
    {
        self.id
    }

    /// The number of nodes.
    pub fn n(&self) -> (n: u8)
        ensures
            n == self@.n,
    {
        self.n
    }

    /// The pause after a look into an empty inbox, in milliseconds.
    pub fn poll_interval_ms(&self) -> (millis: u64)
        ensures
            millis == self@.poll_interval_ms,
    {
        self.sleep_ms
    }

    /// The time from a block to its regular successor, in milliseconds.
    pub fn block_interval_ms(&self) -> (millis: u64)
        ensures
            millis == self@.block_interval_ms,
    {
        self.block_int_ms
    }

    /// The failover wait per rotation step, in milliseconds.
    pub fn turn_wait_ms(&self) -> (millis: u64)
        ensures
            millis == self@.turn_wait_ms,
    {
        self.my_turn_wait_ms
    }

    /// The node's view of the chain.
    pub fn tree(&self) -> (tree: &BlockTree)
        ensures
            tree@ == self@.tree,
            self.wf() ==> tree.wf(),
    {
        &self.block_tree
    }

    /// Whether the miner may take in `block`.
    pub fn admits(&self, block: &Block) -> (yes: bool)
        ensures
            yes == self@.admits(block@),
    {
        block.miner < self.n && block.is_hashable()
    }

    /// The first step of a pass: takes a look into the inbox. A block that
    /// has arrived goes into the tree, and the pass goes on at once. With
    /// nothing there the miner asks for a pause of the polling interval.
    pub fn ingest(&mut self, inbound: Option<Block>) -> (pause_ms: Option<u64>)
        requires
            old(self).wf(),
            inbound matches Some(block) ==> old(self)@.admits(block@),
        ensures
            final(self).wf(),
            match inbound {
                Some(block) => {
                    &&& pause_ms is None
                    &&& final(self)@ == (MinerView {
                        tree: old(self)@.tree.insert(block@),
                        ..old(self)@
                    })
                },
                None => {
                    &&& pause_ms == Some(old(self)@.poll_interval_ms)
                    &&& final(self)@ == old(self)@
                },
            },
    {
        match inbound {
            Some(block) => {
                self.store(block);
                None
            },
            None => Some(self.sleep_ms),
        }
    }

    /// Puts an admitted block into the tree.
    fn store(&mut self, block: Block)
        requires
            old(self).wf(),
            old(self)@.admits(block@),
        ensures
            final(self).wf(),
            final(self)@ == (MinerView { tree: old(self)@.tree.insert(block@), ..old(self)@ }),
    {
        self.block_tree.insert(block);
        proof {
            self.block_tree.lemma_view_wf();
        }
    }

    /// The second step of a pass: what to do at `now_ms`, the wall clock's
    /// reading in milliseconds since the Unix epoch.
    pub fn decide(&self, now_ms: u64) -> (decision: Decision)
        requires
            self.wf(),
        ensures
            decision == self@.decision(now_ms),
    {
        let tip = match self.block_tree.tip() {
            Some(tip) => tip,
            None => {
                return Decision::Idle;
            },
        };
        if self.id == tip.miner {
            return Decision::Idle;
        }
        let now: u128 = now_ms as u128;
        let since_epoch_ms: u128 = tip.timestamp as u128 * 1000;
        if self.id == (tip.miner + 1) % self.n {
            let target: u128 = since_epoch_ms + self.block_int_ms as u128;
            if target > now {
                Decision::Propose { wait_ms: target - now }
            } else {
                Decision::Propose { wait_ms: 0 }
            }
        } else {
            if tip.timestamp == GENESIS_TIMESTAMP {
                return Decision::Idle;
            }
            let h = hop(self.n, tip.miner, self.id);
            assert(h as u128 * self.my_turn_wait_ms as u128 <= 255 * 0xffff_ffff_ffff_ffff)
                by (nonlinear_arith)
                requires
                    h <= 255,
                    self.my_turn_wait_ms <= 0xffff_ffff_ffff_ffff,
            ;
            let gap: u128 = h as u128 * self.my_turn_wait_ms as u128;
            if since_epoch_ms + gap > now {
                Decision::Idle
            } else {
                Decision::Propose { wait_ms: 0 }
            }
        }
    }

    /// The last step of a pass that ends in a proposal: builds a block with
    /// the given timestamp on the tip, puts it into the own tree and hands
    /// it out for sending.
    pub fn propose_at(&mut self, timestamp: u64) -> (block: Block)
        requires
            old(self).wf(),
            old(self)@.tree.tip matches Some(tip) && tip.number < u64::MAX,
        ensures
            final(self).wf(),
            block@ == child_view(old(self)@.id, old(self)@.tree.tip->0, timestamp),
            block@.parent.len() == 32,
            final(self)@ == (MinerView { tree: old(self)@.tree.insert(block@), ..old(self)@ }),
    {
        let block = Block::with_timestamp(self.id, self.block_tree.tip().unwrap(), timestamp);
        proof {
            crate::encoding::lemma_encoding_len(block@);
        }
        self.store(block.clone());
        block
    }

    /// As [`Miner::propose_at`], with the wall clock's reading in seconds as
    /// the timestamp. Nothing happens while the clock stands before the
    /// Unix epoch.
    pub fn propose(&mut self) -> (block: Option<Block>)
        requires
            old(self).wf(),
            old(self)@.tree.tip matches Some(tip) && tip.number < u64::MAX,
        ensures
            final(self).wf(),
            match block {
                Some(b) => {
                    &&& b@.parent.len() == 32
                    &&& exists|timestamp: u64|
                        b@ == #[trigger] child_view(
                            old(self)@.id,
                            old(self)@.tree.tip->0,
                            timestamp,
                        )
                    &&& final(self)@ == (MinerView {
                        tree: old(self)@.tree.insert(b@),
                        ..old(self)@
                    })
                },
                None => final(self)@ == old(self)@,
            },
    {
        match crate::clock::unix_seconds() {
            Some(timestamp) => Some(self.propose_at(timestamp)),
            None => None,
        }
    }
}

} // verus!
