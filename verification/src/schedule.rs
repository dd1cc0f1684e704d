//! Deliveries that wait for their time, in the order in which they fall due.

use vstd::prelude::*;
use crate::network::{Delivery, DeliveryView};

verus! {

/// A delivery and the time from which it may be made.
#[derive(Debug)]
pub struct Scheduled {
    /// The time from which the delivery is due, in milliseconds since the
    /// Unix epoch.
    pub due_ms: u128,
    /// What to deliver, and to whom.
    pub delivery: Delivery,
}

/// The mathematical value of a [`Scheduled`] delivery.
pub struct ScheduledView {
    pub due_ms: u128,
    pub delivery: DeliveryView,
}

impl View for Scheduled {
    type V = ScheduledView;

    open spec fn view(&self) -> ScheduledView {
        ScheduledView { due_ms: self.due_ms, delivery: self.delivery@ }
    }
}

/// The values of a sequence of scheduled deliveries.
pub open spec fn scheduled_views(entries: Seq<Scheduled>) -> Seq<ScheduledView> {
    Seq::new(entries.len(), |i: int| entries[i]@)
}

/// No entry stands before one that is due earlier.
pub open spec fn in_due_order(pending: Seq<ScheduledView>) -> bool {
    forall|i: int, j: int|
        0 <= i <= j < pending.len() ==> (#[trigger] pending[i]).due_ms <= (
        #[trigger] pending[j]).due_ms
}

/// The number of entries at the front that are due at `now_ms`. In a
/// sequence in due order these are all the entries that are due.
pub open spec fn due_count(pending: Seq<ScheduledView>, now_ms: int) -> nat
    decreases pending.len(),
{
    if pending.len() > 0 && pending[0].due_ms <= now_ms {
        1 + due_count(pending.drop_first(), now_ms)
    } else {
        0
    }
}

/// The pending deliveries after `entry` has joined them: it stands behind
/// everything that is due no later than itself, and before the rest.
pub open spec fn with_scheduled(pending: Seq<ScheduledView>, entry: ScheduledView) -> Seq<
    ScheduledView,
> {
    pending.insert(due_count(pending, entry.due_ms as int) as int, entry)
}

/// The entries that are released at `now_ms`: those at the front that are due.
pub open spec fn released(pending: Seq<ScheduledView>, now_ms: int) -> Seq<ScheduledView> {
    pending.subrange(0, due_count(pending, now_ms) as int)
}

/// The entries that stay behind at `now_ms`.
pub open spec fn retained(pending: Seq<ScheduledView>, now_ms: int) -> Seq<ScheduledView> {
    pending.subrange(due_count(pending, now_ms) as int, pending.len() as int)
}

/// The front entries counted by `due_count` are due, and the one behind
/// them, if there is one, is not.
pub proof fn lemma_due_count(pending: Seq<ScheduledView>, now_ms: int)
    ensures
        due_count(pending, now_ms) <= pending.len(),
        forall|i: int| 0 <= i < due_count(pending, now_ms) ==> (#[trigger] pending[i]).due_ms
            <= now_ms,
        due_count(pending, now_ms) < pending.len() ==> pending[due_count(pending, now_ms) as int].due_ms
            > now_ms,
    decreases pending.len(),
{
    if pending.len() > 0 && pending[0].due_ms <= now_ms {
        let rest = pending.drop_first();
        lemma_due_count(rest, now_ms);
        assert forall|i: int| 0 <= i < due_count(pending, now_ms) implies (
        #[trigger] pending[i]).due_ms <= now_ms by {
            if i > 0 {
                assert(pending[i] == rest[i - 1]);
            }
        }
        if due_count(pending, now_ms) < pending.len() {
            assert(pending[due_count(pending, now_ms) as int] == rest[due_count(rest, now_ms) as int]);
        }
    }
}

/// A run of due entries at the front that ends at the first entry that is
/// not due, or at the end, is what `due_count` counts.
pub proof fn lemma_due_count_is(pending: Seq<ScheduledView>, now_ms: int, k: int)
    requires
        0 <= k <= pending.len(),
        forall|i: int| 0 <= i < k ==> (#[trigger] pending[i]).due_ms <= now_ms,
        k < pending.len() ==> pending[k].due_ms > now_ms,
    ensures
        due_count(pending, now_ms) == k,
    decreases k,
{
    if k > 0 {
        let rest = pending.drop_first();
        assert(pending[0].due_ms <= now_ms);
        assert forall|i: int| 0 <= i < k - 1 implies (#[trigger] rest[i]).due_ms <= now_ms by {
            assert(rest[i] == pending[i + 1]);
        }
        if k < pending.len() {
            assert(rest[k - 1] == pending[k]);
        }
        lemma_due_count_is(rest, now_ms, k - 1);
    }
}

/// Release takes all that is due and nothing else. Of deliveries in due
/// order, those released at `now_ms` are due, those retained are not, and
/// together, in this order, they are what was pending.
pub proof fn lemma_release(pending: Seq<ScheduledView>, now_ms: int)
    requires
        in_due_order(pending),
    ensures
        released(pending, now_ms) + retained(pending, now_ms) == pending,
        forall|i: int|
            0 <= i < released(pending, now_ms).len() ==> (#[trigger] released(
                pending,
                now_ms,
            )[i]).due_ms <= now_ms,
        forall|i: int|
            0 <= i < retained(pending, now_ms).len() ==> (#[trigger] retained(
                pending,
                now_ms,
            )[i]).due_ms > now_ms,
        in_due_order(released(pending, now_ms)),
        in_due_order(retained(pending, now_ms)),
{
    lemma_due_count(pending, now_ms);
    let k = due_count(pending, now_ms) as int;
    assert(released(pending, now_ms) + retained(pending, now_ms) =~= pending);
    assert forall|i: int| 0 <= i < retained(pending, now_ms).len() implies (#[trigger] retained(
        pending,
        now_ms,
    )[i]).due_ms > now_ms by {
        assert(pending[k].due_ms <= pending[k + i].due_ms);
    }
}

/// Whether a delivery that waits is released at `now_ms` depends on its due
/// time alone: it is released if it is due, and retained if it is not.
pub proof fn lemma_released_iff_due(pending: Seq<ScheduledView>, now_ms: int, entry: ScheduledView)
    requires
        in_due_order(pending),
        pending.contains(entry),
    ensures
        released(pending, now_ms).contains(entry) <==> entry.due_ms <= now_ms,
        retained(pending, now_ms).contains(entry) <==> entry.due_ms > now_ms,
{
    lemma_release(pending, now_ms);
    let out = released(pending, now_ms);
    let rest = retained(pending, now_ms);
    let i = choose|i: int| 0 <= i < pending.len() && pending[i] == entry;
    if i < out.len() {
        assert(out[i] == entry);
    } else {
        assert(rest[i - out.len()] == entry);
    }
    if out.contains(entry) {
        let j = choose|j: int| 0 <= j < out.len() && out[j] == entry;
        assert(out[j].due_ms <= now_ms);
    }
    if rest.contains(entry) {
        let j = choose|j: int| 0 <= j < rest.len() && rest[j] == entry;
        assert(rest[j].due_ms > now_ms);
    }
}

/// Scheduling keeps the due order, and adds the entry and nothing else.
pub proof fn lemma_schedule(pending: Seq<ScheduledView>, entry: ScheduledView)
    requires
        in_due_order(pending),
    ensures
        in_due_order(with_scheduled(pending, entry)),
        with_scheduled(pending, entry).len() == pending.len() + 1,
        with_scheduled(pending, entry)[due_count(pending, entry.due_ms as int) as int] == entry,
        with_scheduled(pending, entry).remove(due_count(pending, entry.due_ms as int) as int)
            == pending,
{
    lemma_due_count(pending, entry.due_ms as int);
    let k = due_count(pending, entry.due_ms as int) as int;
    let after = with_scheduled(pending, entry);
    assert forall|i: int, j: int| 0 <= i <= j < after.len() implies (#[trigger] after[i]).due_ms
        <= (#[trigger] after[j]).due_ms by {
        if i < k && j == k {
            assert(pending[i].due_ms <= entry.due_ms);
        } else if i == k && j > k {
            assert(pending[k].due_ms <= pending[j - 1].due_ms);
        } else if i < k && j > k {
            assert(pending[i].due_ms <= pending[j - 1].due_ms);
        } else if i > k {
            assert(pending[i - 1].due_ms <= pending[j - 1].due_ms);
        } else if j < k {
            assert(pending[i].due_ms <= pending[j].due_ms);
        }
    }
    assert(after.remove(k) =~= pending);
}

/// Due time decides, not the order of scheduling. An entry that is
/// scheduled after another but falls due before it stands in front of it.
pub proof fn lemma_earlier_due_overtakes(
    pending: Seq<ScheduledView>,
    first: ScheduledView,
    second: ScheduledView,
)
    requires
        in_due_order(pending),
        second.due_ms < first.due_ms,
    ensures
        ({
            let both = with_scheduled(with_scheduled(pending, first), second);
            let i = due_count(with_scheduled(pending, first), second.due_ms as int) as int;
            let j = due_count(pending, first.due_ms as int) as int + 1;
            0 <= i < j < both.len() && both[i] == second && both[j] == first
        }),
{
    let one = with_scheduled(pending, first);
    lemma_schedule(pending, first);
    lemma_schedule(one, second);
    lemma_due_count(pending, first.due_ms as int);
    lemma_due_count(one, second.due_ms as int);
    let k = due_count(pending, first.due_ms as int) as int;
    let i = due_count(one, second.due_ms as int) as int;
    assert(one[k] == first);
    if i > k {
        assert(one[k].due_ms <= second.due_ms);
    }
}

/// Deliveries that wait for their time. They are kept in due order, and
/// deliveries that are due at the same time in the order of their
/// scheduling.
pub struct DelayQueue {
    pending: Vec<Scheduled>,
}

impl View for DelayQueue {
    type V = Seq<ScheduledView>;

    closed spec fn view(&self) -> Seq<ScheduledView> {
        scheduled_views(self.pending@)
    }
}

impl DelayQueue {
    /// The entries stand in due order.
    pub open spec fn wf(&self) -> bool {
        in_due_order(self@)
    }

    /// A queue with nothing in it.
    pub fn new() -> (queue: DelayQueue)
        ensures
            queue.wf(),
            queue@ == Seq::<ScheduledView>::empty(),
    {
        let queue = DelayQueue { pending: Vec::new() };
        assert(queue@ =~= Seq::<ScheduledView>::empty());
        queue
    }

    /// The number of deliveries that wait.
    pub fn len(&self) -> (len: usize)
        ensures
            len == self@.len(),
    {
        self.pending.len()
    }

    /// The time at which the next delivery falls due, if any waits.
    pub fn next_due(&self) -> (due_ms: Option<u128>)
        requires
            self.wf(),
        ensures
            match due_ms {
                Some(due) => self@.len() > 0 && due == self@[0].due_ms && forall|i: int|
                    0 <= i < self@.len() ==> due <= (#[trigger] self@[i]).due_ms,
                None => self@.len() == 0,
            },
    {
        if self.pending.len() == 0 {
            None
        } else {
            assert(self@[0] == self.pending@[0]@);
            Some(self.pending[0].due_ms)
        }
    }

    /// The number of entries at the front that are due at `now_ms`.
    fn count_due(&self, now_ms: u128) -> (count: usize)
        ensures
            count == due_count(self@, now_ms as int),
            count <= self@.len(),
    {
        let mut count: usize = 0;
        while count < self.pending.len() && self.pending[count].due_ms <= now_ms
            invariant
                count <= self.pending.len(),
                forall|i: int| 0 <= i < count ==> (#[trigger] self@[i]).due_ms <= now_ms,
            decreases self.pending.len() - count,
        {
            assert(self@[count as int] == self.pending@[count as int]@);
            count += 1;
        }
        proof {
            if count < self.pending.len() {
                assert(self@[count as int] == self.pending@[count as int]@);
            }
            lemma_due_count_is(self@, now_ms as int, count as int);
        }
        count
    }

    /// Lets a delivery wait until `due_ms`.
    pub fn schedule(&mut self, delivery: Delivery, due_ms: u128)
        requires
            old(self).wf(),
        ensures
            final(self).wf(),
            final(self)@ == with_scheduled(
                old(self)@,
                ScheduledView { due_ms, delivery: delivery@ },
            ),
    {
        let at = self.count_due(due_ms);
        let entry = Scheduled { due_ms, delivery };
        self.pending.insert(at, entry);
        proof {
            lemma_schedule(old(self)@, entry@);
            assert(self@ =~= with_scheduled(old(self)@, entry@));
        }
    }

    /// Takes out the deliveries that are due at `now_ms`, in due order.
    pub fn release(&mut self, now_ms: u128) -> (due: Vec<Scheduled>)
        requires
            old(self).wf(),
        ensures
            final(self).wf(),
            scheduled_views(due@) == released(old(self)@, now_ms as int),
            final(self)@ == retained(old(self)@, now_ms as int),
    {
        let count = self.count_due(now_ms);
        let mut rest = self.pending.split_off(count);
        std::mem::swap(&mut self.pending, &mut rest);
        proof {
            lemma_release(old(self)@, now_ms as int);
            assert(scheduled_views(rest@) =~= released(old(self)@, now_ms as int));
            assert(self@ =~= retained(old(self)@, now_ms as int));
        }
        rest
    }
}

} // verus!
