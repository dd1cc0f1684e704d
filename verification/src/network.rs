//! The latency router: who gets a block, and after what delay.
//!
//! A [`Network`] knows the number of nodes and a table of delays per ordered
//! pair of sender and receiver. For every block that a miner sends out it
//! says which deliveries to make at once, and keeps the delayed ones until
//! their time has come. Whoever drives the router hands it the blocks and the
//! time of day, and passes on what it releases.

use vstd::prelude::*;
use std::collections::HashMap;
use crate::block::{genesis_view, Block, BlockView};
use crate::schedule::{
    due_count, in_due_order, lemma_due_count, lemma_schedule, released, retained,
    scheduled_views, with_scheduled, DelayQueue, Scheduled, ScheduledView,
};

verus! {

broadcast use vstd::std_specs::hash::group_hash_axioms;

/// One block on its way to one node.
#[derive(Debug)]
pub struct Delivery {
    /// The receiving node.
    pub to: u8,
    /// The delay configured for the link, in milliseconds. With `None` the
    /// block is handed over at once; with `Some`, after that long and without
    /// holding up any other delivery.
    pub delay_ms: Option<u64>,
    /// The block to hand over.
    pub block: Block,
}

/// The mathematical value of a [`Delivery`].
pub struct DeliveryView {
    pub to: u8,
    pub delay_ms: Option<u64>,
    pub block: BlockView,
}

impl View for Delivery {
    type V = DeliveryView;

    open spec fn view(&self) -> DeliveryView {
        DeliveryView { to: self.to, delay_ms: self.delay_ms, block: self.block@ }
    }
}

impl DeliveryView {
    /// The time at which a block sent at `sent_ms` reaches the receiver.
    pub open spec fn arrival(self, sent_ms: int) -> int {
        match self.delay_ms {
            Some(delay) => sent_ms + delay,
            None => sent_ms,
        }
    }

    /// The delivery as it waits in the router when it was sent at `sent_ms`.
    pub open spec fn scheduled(self, sent_ms: u64) -> ScheduledView {
        ScheduledView { due_ms: self.arrival(sent_ms as int) as u128, delivery: self }
    }
}

/// The delay table that a list of `(from, to, milliseconds)` triples stands
/// for. Where a link is listed more than once, the last entry counts.
pub open spec fn delay_table(triples: Seq<(u8, u8, u64)>) -> Map<(u8, u8), u64>
    decreases triples.len(),
{
    if triples.len() == 0 {
        Map::empty()
    } else {
        let last = triples.last();
        delay_table(triples.drop_last()).insert((last.0, last.1), last.2)
    }
}

/// Whether a triple speaks of the link from `from` to `to`.
pub open spec fn names_link(triple: (u8, u8, u64), from: u8, to: u8) -> bool {
    triple.0 == from && triple.1 == to
}

/// A link is in the table of a list of triples exactly if the list names it.
pub proof fn lemma_delay_table_links(triples: Seq<(u8, u8, u64)>, from: u8, to: u8)
    ensures
        delay_table(triples).contains_key((from, to)) <==> exists|i: int|
            0 <= i < triples.len() && #[trigger] names_link(triples[i], from, to),
    decreases triples.len(),
{
    if triples.len() > 0 {
        let rest = triples.drop_last();
        let last = triples.last();
        lemma_delay_table_links(rest, from, to);
        if names_link(last, from, to) {
            assert(names_link(triples[triples.len() - 1], from, to));
        } else {
            if delay_table(rest).contains_key((from, to)) {
                let i = choose|i: int|
                    0 <= i < rest.len() && #[trigger] names_link(rest[i], from, to);
                assert(names_link(triples[i], from, to));
            }
            if exists|i: int|
                0 <= i < triples.len() && #[trigger] names_link(triples[i], from, to) {
                let i = choose|i: int|
                    0 <= i < triples.len() && #[trigger] names_link(triples[i], from, to);
                assert(names_link(rest[i], from, to));
            }
        }
    }
}

/// The delay of a link is that of the last triple that names it.
pub proof fn lemma_delay_table_last_wins(triples: Seq<(u8, u8, u64)>, i: int, from: u8, to: u8)
    requires
        0 <= i < triples.len(),
        names_link(triples[i], from, to),
        forall|j: int| i < j < triples.len() ==> !#[trigger] names_link(triples[j], from, to),
    ensures
        delay_table(triples).contains_key((from, to)),
        delay_table(triples)[(from, to)] == triples[i].2,
    decreases triples.len(),
{
    if i < triples.len() - 1 {
        let rest = triples.drop_last();
        assert(!names_link(triples[triples.len() - 1], from, to));
        assert forall|j: int| i < j < rest.len() implies !#[trigger] names_link(
            rest[j],
            from,
            to,
        ) by {
            assert(!names_link(triples[j], from, to));
        }
        lemma_delay_table_last_wins(rest, i, from, to);
    }
}

/// The mathematical value of a [`Network`].
pub struct NetworkView {
    /// The number of nodes.
    pub n: u8,
    /// The delay in milliseconds of every link that has one configured.
    pub delays: Map<(u8, u8), u64>,
    /// The delayed deliveries that wait for their time, in due order.
    pub pending: Seq<ScheduledView>,
}

impl NetworkView {
    /// The deliveries that wait stand in due order.
    pub open spec fn wf(self) -> bool {
        in_due_order(self.pending)
    }

    /// The delay configured for the link, if there is one.
    pub open spec fn delay(self, from: u8, to: u8) -> Option<u64> {
        if self.delays.contains_key((from, to)) {
            Some(self.delays[(from, to)])
        } else {
            None
        }
    }

    /// The number of nodes that get a block sent by `sender`: all but the
    /// sender itself.
    pub open spec fn recipient_count(self, sender: u8) -> int {
        if sender < self.n {
            self.n - 1
        } else {
            self.n as int
        }
    }

    /// The `i`-th node, in ascending order, among those that get a block
    /// sent by `sender`.
    pub open spec fn recipient(sender: u8, i: int) -> u8 {
        if i < sender {
            i as u8
        } else {
            (i + 1) as u8
        }
    }

    /// Whether a block's fan-out holds a delivery to node `id`.
    pub open spec fn delivers_to(self, block: BlockView, id: u8) -> bool {
        exists|i: int|
            0 <= i < self.fan_out(block).len() && (#[trigger] self.fan_out(block)[i]).to == id
    }

    /// The deliveries that start the simulation: the genesis block to every
    /// node, in ascending order and without delay.
    pub open spec fn genesis(self) -> Seq<DeliveryView> {
        Seq::new(
            self.n as nat,
            |i: int| DeliveryView { to: i as u8, delay_ms: None, block: genesis_view() },
        )
    }

    /// The deliveries of one block: to every node but its author, in
    /// ascending order, each with the delay of its own link.
    pub open spec fn fan_out(self, block: BlockView) -> Seq<DeliveryView> {
        Seq::new(
            self.recipient_count(block.miner) as nat,
            |i: int|
                DeliveryView {
                    to: Self::recipient(block.miner, i),
                    delay_ms: self.delay(block.miner, Self::recipient(block.miner, i)),
                    block,
                },
        )
    }

    /// What becomes of deliveries that are handed to the router one by one
    /// at `now_ms`: the deliveries that wait afterwards, and those to make at
    /// once. A delivery without a delay is to be made at once. One with a
    /// delay, be it zero, waits until that long after `now_ms`.
    pub open spec fn dispatch(self, deliveries: Seq<DeliveryView>, now_ms: u64) -> (
        Seq<ScheduledView>,
        Seq<DeliveryView>,
    )
        decreases deliveries.len(),
    {
        if deliveries.len() == 0 {
            (self.pending, Seq::empty())
        } else {
            let (pending, at_once) = self.dispatch(deliveries.drop_last(), now_ms);
            let delivery = deliveries.last();
            if delivery.delay_ms is Some {
                (with_scheduled(pending, delivery.scheduled(now_ms)), at_once)
            } else {
                (pending, at_once.push(delivery))
            }
        }
    }

    /// The router after it has taken in `block` at `now_ms`.
    pub open spec fn accept(self, block: BlockView, now_ms: u64) -> NetworkView {
        NetworkView { pending: self.dispatch(self.fan_out(block), now_ms).0, ..self }
    }

    /// The deliveries to make at once when `block` comes in at `now_ms`.
    pub open spec fn at_once(self, block: BlockView, now_ms: u64) -> Seq<DeliveryView> {
        self.dispatch(self.fan_out(block), now_ms).1
    }

    /// The router after it has released what is due at `now_ms`.
    pub open spec fn release(self, now_ms: u64) -> NetworkView {
        NetworkView { pending: retained(self.pending, now_ms as int), ..self }
    }
}

/// The deliveries that are made at once: those over a link without a delay.
pub open spec fn without_delay() -> spec_fn(DeliveryView) -> bool {
    |d: DeliveryView| d.delay_ms is None
}

/// Dispatching loses and invents nothing. The deliveries to make at once are
/// those without a delay, in their order. Those with a delay wait, each
/// until its own time, beside what waited before, and all of it in due order.
pub proof fn lemma_dispatch(net: NetworkView, deliveries: Seq<DeliveryView>, now_ms: u64)
    requires
        net.wf(),
    ensures
        in_due_order(net.dispatch(deliveries, now_ms).0),
        net.dispatch(deliveries, now_ms).1 == deliveries.filter(without_delay()),
        forall|i: int|
            0 <= i < deliveries.len() && (#[trigger] deliveries[i]).delay_ms is Some
                ==> net.dispatch(deliveries, now_ms).0.contains(deliveries[i].scheduled(now_ms)),
        forall|e: ScheduledView|
            net.pending.contains(e) ==> #[trigger] net.dispatch(deliveries, now_ms).0.contains(e),
        forall|e: ScheduledView| #[trigger]
            net.dispatch(deliveries, now_ms).0.contains(e) ==> net.pending.contains(e) || exists|
                i: int,
            |
                0 <= i < deliveries.len() && (#[trigger] deliveries[i]).delay_ms is Some && e
                    == deliveries[i].scheduled(now_ms),
    decreases deliveries.len(),
{
    let no_delay = without_delay();
    reveal(Seq::filter);
    if deliveries.len() == 0 {
        assert(deliveries.filter(no_delay) =~= Seq::empty());
    } else {
        let rest = deliveries.drop_last();
        let last = deliveries.last();
        let (pending, at_once) = net.dispatch(rest, now_ms);
        let after = net.dispatch(deliveries, now_ms).0;
        lemma_dispatch(net, rest, now_ms);
        assert(deliveries =~= rest.push(last));
        if last.delay_ms is Some {
            let entry = last.scheduled(now_ms);
            lemma_schedule(pending, entry);
            lemma_due_count(pending, entry.due_ms as int);
            let k = due_count(pending, entry.due_ms as int) as int;
            assert(after[k] == entry);
            assert forall|e: ScheduledView| pending.contains(e) implies after.contains(e) by {
                let i = choose|i: int| 0 <= i < pending.len() && pending[i] == e;
                if i < k {
                    assert(after[i] == e);
                } else {
                    assert(after[i + 1] == e);
                }
            }
            assert forall|e: ScheduledView| after.contains(e) implies pending.contains(e) || e
                == entry by {
                let i = choose|i: int| 0 <= i < after.len() && after[i] == e;
                if i < k {
                    assert(pending[i] == e);
                } else if i > k {
                    assert(pending[i - 1] == e);
                }
            }
        }
        assert forall|i: int|
            0 <= i < deliveries.len() && (#[trigger] deliveries[i]).delay_ms is Some implies after.contains(
            deliveries[i].scheduled(now_ms),
        ) by {
            if i < rest.len() {
                assert(rest[i] == deliveries[i]);
                assert(pending.contains(rest[i].scheduled(now_ms)));
            }
        }
        assert forall|e: ScheduledView| #[trigger] after.contains(e) implies net.pending.contains(
            e,
        ) || exists|i: int|
            0 <= i < deliveries.len() && (#[trigger] deliveries[i]).delay_ms is Some && e
                == deliveries[i].scheduled(now_ms) by {
            if !net.pending.contains(e) {
                if pending.contains(e) {
                    let i = choose|i: int|
                        0 <= i < rest.len() && (#[trigger] rest[i]).delay_ms is Some && e
                            == rest[i].scheduled(now_ms);
                    assert(deliveries[i] == rest[i]);
                } else {
                    assert(deliveries[deliveries.len() - 1] == last);
                }
            }
        }
    }
}

/// Fan-out without mutual hold-up. Of two deliveries of one block that both
/// have a delay, the one with the shorter delay stands in front of the other
/// among the deliveries that wait, whichever node comes first in the fan-out.
pub proof fn lemma_shorter_delay_stands_in_front(
    net: NetworkView,
    block: BlockView,
    now_ms: u64,
    i: int,
    j: int,
)
    requires
        net.wf(),
        0 <= i < net.fan_out(block).len(),
        0 <= j < net.fan_out(block).len(),
        net.fan_out(block)[i].delay_ms matches Some(short) && net.fan_out(block)[j].delay_ms
            matches Some(long) && short < long,
    ensures
        exists|p: int, q: int|
            0 <= p < q < net.accept(block, now_ms).pending.len() && net.accept(
                block,
                now_ms,
            ).pending[p] == net.fan_out(block)[i].scheduled(now_ms) && net.accept(
                block,
                now_ms,
            ).pending[q] == net.fan_out(block)[j].scheduled(now_ms),
{
    let out = net.fan_out(block);
    let after = net.accept(block, now_ms).pending;
    lemma_dispatch(net, out, now_ms);
    let early = out[i].scheduled(now_ms);
    let late = out[j].scheduled(now_ms);
    assert(after.contains(early));
    assert(after.contains(late));
    let p = choose|p: int| 0 <= p < after.len() && after[p] == early;
    let q = choose|q: int| 0 <= q < after.len() && after[q] == late;
    if q <= p {
        assert(after[q].due_ms <= after[p].due_ms);
    }
}

/// A block goes to every node but its author, once each and in ascending
/// order, and to no one else.
pub proof fn lemma_fan_out_recipients(net: NetworkView, block: BlockView)
    ensures
        forall|i: int|
            0 <= i < net.fan_out(block).len() ==> (#[trigger] net.fan_out(block)[i]).to < net.n
                && net.fan_out(block)[i].to != block.miner,
        forall|i: int, j: int|
            0 <= i < j < net.fan_out(block).len() ==> (#[trigger] net.fan_out(block)[i]).to < (
            #[trigger] net.fan_out(block)[j]).to,
        forall|id: u8| #[trigger]
            net.delivers_to(block, id) <==> id < net.n && id != block.miner,
{
    let out = net.fan_out(block);
    assert forall|id: u8| id < net.n && id != block.miner implies #[trigger] net.delivers_to(
        block,
        id,
    ) by {
        let i: int = if id < block.miner {
            id as int
        } else {
            id - 1
        };
        assert(out[i].to == id);
    }
}

/// Links do not affect one another. What a node gets, and after what delay,
/// depends on the delay of its own link alone: two routers that agree on
/// that link make the same delivery to the node, whatever they hold for the
/// other links.
pub proof fn lemma_fan_out_link_independence(
    net: NetworkView,
    other: NetworkView,
    block: BlockView,
    i: int,
)
    requires
        net.n == other.n,
        0 <= i < net.fan_out(block).len(),
        net.delay(block.miner, net.fan_out(block)[i].to) == other.delay(
            block.miner,
            net.fan_out(block)[i].to,
        ),
    ensures
        other.fan_out(block)[i] == net.fan_out(block)[i],
{
}

/// The key under which the delay of a link is kept.
pub open spec fn link_key(from: u8, to: u8) -> u16 {
    (from * 256 + to) as u16
}

/// The router of the simulation.
pub struct Network {
    n: u8,
    artificial_delay: HashMap<u16, u64>,
    pending: DelayQueue,
}

impl View for Network {
    type V = NetworkView;

    closed spec fn view(&self) -> NetworkView {
        NetworkView {
            n: self.n,
            delays: Map::new(
                |link: (u8, u8)| self.artificial_delay@.contains_key(link_key(link.0, link.1)),
                |link: (u8, u8)| self.artificial_delay@[link_key(link.0, link.1)],
            ),
            pending: self.pending@,
        }
    }
}

/// The key of a link.
fn key_of(from: u8, to: u8) -> (key: u16)
    ensures
        key == link_key(from, to),
{
    from as u16 * 256 + to as u16
}

impl Network {
    /// A router for `n` nodes with no delay on any link and nothing that
    /// waits.
    pub fn new(n: u8) -> (network: Network)
        ensures
            network@ == (NetworkView { n, delays: Map::empty(), pending: Seq::empty() }),
    {
        let network = Network { n, artificial_delay: HashMap::new(), pending: DelayQueue::new() };
        assert(network@.delays =~= Map::empty());
        network
    }

    /// The number of nodes.
    pub fn n(&self) -> (n: u8)
        ensures
            n == self@.n,
    {
        self.n
    }

    /// The delay configured for the link from `from` to `to`, if any.
    pub fn delay(&self, from: u8, to: u8) -> (delay: Option<u64>)
        ensures
            delay == self@.delay(from, to),
    {
        match self.artificial_delay.get(&key_of(from, to)) {
            Some(delay) => Some(*delay),
            None => None,
        }
    }

    /// Sets the delay of one link, and leaves the others as they are.
    pub fn set_single_delay(&mut self, from: u8, to: u8, delay: u64)
        ensures
            final(self)@ == (NetworkView {
                delays: old(self)@.delays.insert((from, to), delay),
                ..old(self)@
            }),
    {
        self.artificial_delay.insert(key_of(from, to), delay);
        assert(self@.delays =~= old(self)@.delays.insert((from, to), delay)) by {
            assert forall|link: (u8, u8)| link != (from, to) implies link_key(link.0, link.1)
                != link_key(from, to) by {}
        }
    }

    /// Replaces the whole delay table by the one that the triples
    /// `(from, to, milliseconds)` stand for.
    pub fn set_delay(&mut self, delay: Vec<(u8, u8, u64)>)
        ensures
            final(self)@ == (NetworkView { delays: delay_table(delay@), ..old(self)@ }),
    {
        self.artificial_delay.clear();
        assert(self@.delays =~= Map::empty());
        let mut i: usize = 0;
        while i < delay.len()
            invariant
                i <= delay.len(),
                self@.n == old(self)@.n,
                self@.pending == old(self)@.pending,
                self@.delays == delay_table(delay@.subrange(0, i as int)),
            decreases delay.len() - i,
        {
            let (from, to, millis) = delay[i];
            let ghost before = self@;
            self.set_single_delay(from, to, millis);
            proof {
                let upto = delay@.subrange(0, i + 1);
                assert(upto.drop_last() =~= delay@.subrange(0, i as int));
                assert(upto.last() == delay@[i as int]);
            }
            i += 1;
        }
        assert(delay@.subrange(0, delay.len() as int) =~= delay@);
    }

    /// The deliveries that start the simulation: the genesis block to every
    /// node, without delay.
    pub fn genesis(&self) -> (deliveries: Vec<Delivery>)
        ensures
            deliveries@.len() == self@.genesis().len(),
            forall|i: int|
                0 <= i < deliveries@.len() ==> (#[trigger] deliveries@[i])@ == self@.genesis()[i],
    {
        let mut deliveries: Vec<Delivery> = Vec::new();
        let mut id: u8 = 0;
        while id < self.n
            invariant
                id <= self.n,
                deliveries@.len() == id,
                forall|i: int|
                    0 <= i < id ==> (#[trigger] deliveries@[i])@ == self@.genesis()[i],
            decreases self.n - id,
        {
            deliveries.push(Delivery { to: id, delay_ms: None, block: Block::genesis() });
            id += 1;
        }
        deliveries
    }

    /// The deliveries to make for a block that a miner has sent out.
    pub fn fan_out(&self, block: &Block) -> (deliveries: Vec<Delivery>)
        ensures
            deliveries@.len() == self@.fan_out(block@).len(),
            forall|i: int|
                0 <= i < deliveries@.len() ==> (#[trigger] deliveries@[i])@ == self@.fan_out(
                    block@,
                )[i],
    {
        let mut deliveries: Vec<Delivery> = Vec::new();
        let mut id: u8 = 0;
        while id < self.n
            invariant
                id <= self.n,
                deliveries@.len() == (if block.miner < id {
                    id - 1
                } else {
                    id as int
                }),
                forall|i: int|
                    0 <= i < deliveries@.len() ==> (#[trigger] deliveries@[i])@
                        == self@.fan_out(block@)[i],
            decreases self.n - id,
        {
            if id != block.miner {
                deliveries.push(
                    Delivery {
                        to: id,
                        delay_ms: self.delay(block.miner, id),
                        block: block.clone(),
                    },
                );
            }
            id += 1;
        }
        deliveries
    }

    /// Takes in a block that a miner has sent out at `now_ms`, the wall
    /// clock's reading in milliseconds since the Unix epoch. The deliveries
    /// over links without a delay come back, to be made at once. Those over
    /// links with a delay wait in the router, each until its own time.
    pub fn accept(&mut self, block: &Block, now_ms: u64) -> (at_once: Vec<Delivery>)
        requires
            old(self)@.wf(),
        ensures
            final(self)@.wf(),
            final(self)@ == old(self)@.accept(block@, now_ms),
            at_once@.len() == old(self)@.at_once(block@, now_ms).len(),
            forall|i: int|
                0 <= i < at_once@.len() ==> (#[trigger] at_once@[i])@ == old(self)@.at_once(
                    block@,
                    now_ms,
                )[i],
    {
        let ghost start = self@;
        let ghost all = start.fan_out(block@);
        let mut at_once: Vec<Delivery> = Vec::new();
        let mut id: u8 = 0;
        let ghost mut done: int = 0;
        proof {
            assert(all.subrange(0, 0) =~= Seq::empty());
        }
        while id < self.n
            invariant
                id <= self.n,
                start.wf(),
                all == start.fan_out(block@),
                done == (if block.miner < id {
                    id - 1
                } else {
                    id as int
                }),
                self@.n == start.n,
                self@.delays == start.delays,
                self.pending.wf(),
                self@.pending == start.dispatch(all.subrange(0, done), now_ms).0,
                at_once@.len() == start.dispatch(all.subrange(0, done), now_ms).1.len(),
                forall|i: int|
                    0 <= i < at_once@.len() ==> (#[trigger] at_once@[i])@ == start.dispatch(
                        all.subrange(0, done),
                        now_ms,
                    ).1[i],
            decreases self.n - id,
        {
            if id != block.miner {
                let delay_ms = self.delay(block.miner, id);
                let delivery = Delivery { to: id, delay_ms, block: block.clone() };
                proof {
                    let upto = all.subrange(0, done + 1);
                    assert(upto.drop_last() =~= all.subrange(0, done));
                    assert(upto.last() == delivery@);
                    lemma_dispatch(start, all.subrange(0, done), now_ms);
                    done = done + 1;
                }
                match delay_ms {
                    Some(delay) => {
                        self.pending.schedule(delivery, now_ms as u128 + delay as u128);
                    },
                    None => {
                        at_once.push(delivery);
                    },
                }
            }
            id += 1;
        }
        proof {
            assert(all.subrange(0, done) =~= all);
        }
        at_once
    }

    /// Takes out the deliveries whose time has come at `now_ms`, the wall
    /// clock's reading in milliseconds since the Unix epoch, in due order.
    pub fn release(&mut self, now_ms: u64) -> (due: Vec<Scheduled>)
        requires
            old(self)@.wf(),
        ensures
            final(self)@.wf(),
            final(self)@ == old(self)@.release(now_ms),
            scheduled_views(due@) == released(old(self)@.pending, now_ms as int),
    {
        self.pending.release(now_ms as u128)
    }

    /// The time at which the next delivery that waits falls due, if any.
    pub fn next_due(&self) -> (due_ms: Option<u128>)
        requires
            self@.wf(),
        ensures
            match due_ms {
                Some(due) => self@.pending.len() > 0 && due == self@.pending[0].due_ms
                    && forall|i: int|
                    0 <= i < self@.pending.len() ==> due <= (#[trigger] self@.pending[i]).due_ms,
                None => self@.pending.len() == 0,
            },
    {
        self.pending.next_due()
    }
}

} // verus!
