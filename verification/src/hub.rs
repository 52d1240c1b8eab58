//! The broadcast hub: one bounded fan-out queue that every session publishes
//! to and reads from through a cursor of its own.
//!
//! The hub keeps a message for as long as a subscriber has yet to receive
//! it, and never more than the newest `CAPACITY`. A subscriber that falls
//! further behind loses the oldest of what it had not yet read; nobody else
//! is affected, and publishing never waits.

use crate::wire::{Message, MessageView};
use std::collections::VecDeque;
use vstd::prelude::*;

verus! {

/// How many messages the hub keeps for subscribers that have not read them.
pub const CAPACITY: usize = 100;

/// What a hub stands for in contracts: for each subscription, the messages
/// it has yet to receive, oldest first.
pub type Pending = Map<int, Seq<MessageView>>;

/// The newest `n` items of `s`, or all of `s` if it has no more than `n`.
pub open spec fn keep_last<T>(s: Seq<T>, n: int) -> Seq<T> {
    if s.len() <= n {
        s
    } else {
        s.subrange(s.len() - n, s.len() as int)
    }
}

/// What is pending after `m` is published: every subscription gets `m`
/// behind what it already had, and one that was `CAPACITY` messages behind
/// loses its oldest.
pub open spec fn published(p: Pending, m: MessageView) -> Pending {
    Map::new(|k: int| p.dom().contains(k), |k: int| keep_last(p[k].push(m), CAPACITY as int))
}

/// What is pending after each of `ms` is published in turn.
pub open spec fn published_all(p: Pending, ms: Seq<MessageView>) -> Pending
    decreases ms.len(),
{
    if ms.len() == 0 {
        p
    } else {
        published(published_all(p, ms.drop_last()), ms.last())
    }
}

/// Whether no subscription has more than `CAPACITY` messages pending.
pub open spec fn within_capacity(p: Pending) -> bool {
    forall|k: int| p.dom().contains(k) ==> (#[trigger] p[k]).len() <= CAPACITY
}

/// A session's place in the hub. It is handed out by `Hub::subscribe` and
/// given back to `Hub::unsubscribe`, and means something only to the hub
/// that handed it out.
#[derive(Debug)]
pub struct Subscription {
    slot: usize,
}

impl View for Subscription {
    type V = int;

    closed spec fn view(&self) -> int {
        self.slot as int
    }
}

/// The hub. It holds once each message that some subscription has yet to
/// receive, and for each subscription how many of them that is. A message
/// that every subscription has received or lost is dropped.
pub struct Hub {
    buffer: VecDeque<Message>,
    lags: Vec<Option<usize>>,
}

/// The views of the buffered messages, oldest first.
spec fn views(buffer: Seq<Message>) -> Seq<MessageView> {
    buffer.map_values(|m: Message| m@)
}

/// The newest `n` items of `s`.
spec fn tail<T>(s: Seq<T>, n: int) -> Seq<T> {
    s.subrange(s.len() - n, s.len() as int)
}

/// What a buffer and the cursors into it stand for.
spec fn model(buffer: Seq<Message>, lags: Seq<Option<usize>>) -> Pending {
    Map::new(
        |k: int| 0 <= k < lags.len() && lags[k] is Some,
        |k: int| tail(views(buffer), lags[k]->0 as int),
    )
}

/// Whether the buffer is within capacity and no cursor reaches behind it.
spec fn consistent(buffer: Seq<Message>, lags: Seq<Option<usize>>) -> bool {
    &&& buffer.len() <= CAPACITY
    &&& forall|k: int| 0 <= k < lags.len() && lags[k] is Some ==> (#[trigger] lags[k])->0
        <= buffer.len()
}

/// How far behind the subscription is that is furthest behind; 0 if there
/// is no subscription.
spec fn longest(lags: Seq<Option<usize>>) -> int
    decreases lags.len(),
{
    if lags.len() == 0 {
        0
    } else {
        let front = longest(lags.drop_last());
        match lags.last() {
            Some(lag) => if lag > front {
                lag as int
            } else {
                front
            },
            None => front,
        }
    }
}

/// No cursor is further behind than `longest`, and one is just that far
/// behind unless `longest` is 0.
proof fn lemma_longest(lags: Seq<Option<usize>>)
    ensures
        longest(lags) >= 0,
        forall|k: int| 0 <= k < lags.len() && lags[k] is Some ==> (#[trigger] lags[k])->0
            <= longest(lags),
        longest(lags) > 0 ==> exists|k: int|
            0 <= k < lags.len() && #[trigger] lags[k] == Some(longest(lags) as usize),
    decreases lags.len(),
{
    if lags.len() > 0 {
        let front = lags.drop_last();
        lemma_longest(front);
        assert forall|k: int| 0 <= k < lags.len() && lags[k] is Some implies (#[trigger] lags[k])->0
            <= longest(lags) by {
            if k < front.len() {
                assert(lags[k] == front[k]);
            }
        }
        if longest(lags) > 0 {
            if lags.last() == Some(longest(lags) as usize) {
                assert(lags[lags.len() - 1] == Some(longest(lags) as usize));
            } else {
                let k = choose|k: int|
                    0 <= k < front.len() && #[trigger] front[k] == Some(longest(front) as usize);
                assert(lags[k] == front[k]);
            }
        }
    }
}

/// Messages that no cursor reaches do not count: dropping them from the
/// front of the buffer changes nothing of what is pending.
proof fn lemma_model_of_tail(buffer: Seq<Message>, lags: Seq<Option<usize>>, n: int)
    requires
        0 <= n <= buffer.len(),
        forall|k: int| 0 <= k < lags.len() && lags[k] is Some ==> (#[trigger] lags[k])->0 <= n,
    ensures
        model(tail(buffer, n), lags) == model(buffer, lags),
{
    let kept = tail(buffer, n);
    assert forall|k: int| 0 <= k < lags.len() && lags[k] is Some implies tail(
        views(kept),
        (#[trigger] lags[k])->0 as int,
    ) == tail(views(buffer), lags[k]->0 as int) by {
        let l = lags[k]->0 as int;
        assert(tail(views(kept), l) =~= tail(views(buffer), l));
    }
    assert(model(kept, lags) =~= model(buffer, lags));
}

/// Finds how far behind the subscription is that is furthest behind.
fn longest_lag(lags: &Vec<Option<usize>>) -> (n: usize)
    ensures
        n == longest(lags@),
{
    let mut n: usize = 0;
    let mut i: usize = 0;
    while i < lags.len()
        invariant
            i <= lags@.len(),
            n == longest(lags@.take(i as int)),
        decreases lags@.len() - i,
    {
        assert(lags@.take(i + 1).drop_last() =~= lags@.take(i as int));
        match lags[i] {
            Some(lag) => {
                if lag > n {
                    n = lag;
                }
            },
            None => {},
        }
        i += 1;
    }
    assert(lags@.take(i as int) =~= lags@);
    n
}

/// Drops from the front of `buffer` the messages that every subscription
/// has received or lost.
fn settle(buffer: &mut VecDeque<Message>, lags: &Vec<Option<usize>>)
    requires
        consistent(old(buffer)@, lags@),
    ensures
        consistent(final(buffer)@, lags@),
        final(buffer)@.len() == longest(lags@),
        model(final(buffer)@, lags@) == model(old(buffer)@, lags@),
{
    let keep: usize = longest_lag(lags);
    proof {
        lemma_longest(lags@);
    }
    let ghost before = buffer@;
    while buffer.len() > keep
        invariant
            keep <= buffer@.len() <= before.len(),
            buffer@ == tail(before, buffer@.len() as int),
        decreases buffer@.len(),
    {
        let _ = buffer.pop_front();
        assert(buffer@ =~= tail(before, buffer@.len() as int));
    }
    proof {
        lemma_model_of_tail(before, lags@, keep as int);
    }
}

impl View for Hub {
    type V = Pending;

    closed spec fn view(&self) -> Pending {
        model(self.buffer@, self.lags@)
    }
}

impl Hub {
    #[verifier::type_invariant]
    spec fn wf(self) -> bool {
        &&& consistent(self.buffer@, self.lags@)
        &&& self.buffer@.len() == longest(self.lags@)
    }

    /// A hub without subscribers.
    pub fn new() -> (hub: Hub)
        ensures
            hub@ == Map::<int, Seq<MessageView>>::empty(),
    {
        let hub = Hub { buffer: VecDeque::new(), lags: Vec::new() };
        assert(hub@ =~= Map::<int, Seq<MessageView>>::empty());
        hub
    }

    /// Takes the hub apart, to put it together again with `restore`.
    fn dismantle(&mut self) -> (parts: (VecDeque<Message>, Vec<Option<usize>>))
        ensures
            parts.0@ == old(self).buffer@,
            parts.1@ == old(self).lags@,
            consistent(parts.0@, parts.1@),
            parts.0@.len() == longest(parts.1@),
            model(parts.0@, parts.1@) == old(self)@,
    {
        proof {
            use_type_invariant(&*self);
        }
        let mut hub = Hub { buffer: VecDeque::new(), lags: Vec::new() };
        std::mem::swap(self, &mut hub);
        (hub.buffer, hub.lags)
    }

    /// Puts the hub together from its parts.
    fn restore(&mut self, buffer: VecDeque<Message>, lags: Vec<Option<usize>>)
        requires
            consistent(buffer@, lags@),
            buffer@.len() == longest(lags@),
        ensures
            final(self)@ == model(buffer@, lags@),
    {
        *self = Hub { buffer, lags };
    }

    /// Registers a new subscriber. It will receive what is published from
    /// now on, and nothing that was published before.
    pub fn subscribe(&mut self) -> (sub: Subscription)
        ensures
            !old(self)@.dom().contains(sub@),
            final(self)@ == old(self)@.insert(sub@, Seq::empty()),
    {
        let (buffer, mut lags) = self.dismantle();
        let ghost before = lags@;
        let n: usize = lags.len();
        let mut slot: usize = 0;
        while slot < n && lags[slot].is_some()
            invariant
                slot <= n,
                n == lags@.len(),
                forall|k: int| 0 <= k < slot ==> lags@[k] is Some,
            decreases n - slot,
        {
            slot += 1;
        }
        if slot < n {
            lags.set(slot, Some(0));
        } else {
            lags.push(Some(0));
        }
        proof {
            lemma_longest_with_newcomer(before, slot as int);
            assert(tail(views(buffer@), 0) =~= Seq::<MessageView>::empty());
            assert(model(buffer@, lags@) =~= model(buffer@, before).insert(
                slot as int,
                Seq::empty(),
            ));
        }
        self.restore(buffer, lags);
        Subscription { slot }
    }

    /// Releases a subscription. What it had pending is dropped; no other
    /// subscription changes.
    pub fn unsubscribe(&mut self, sub: Subscription)
        ensures
            final(self)@ == old(self)@.remove(sub@),
    {
        let (mut buffer, mut lags) = self.dismantle();
        let ghost before = lags@;
        if sub.slot < lags.len() {
            lags.set(sub.slot, None);
        }
        assert(model(buffer@, lags@) =~= model(buffer@, before).remove(sub@));
        settle(&mut buffer, &lags);
        self.restore(buffer, lags);
    }

    /// Publishes `m` to every subscription. It never waits and never fails:
    /// when the buffer is full its oldest message is evicted, and a
    /// subscription that had not read that message loses it.
    pub fn publish(&mut self, m: Message)
        ensures
            final(self)@ == published(old(self)@, m@),
    {
        let (mut buffer, mut lags) = self.dismantle();
        let ghost old_lags = lags@;
        let ghost old_buffer = buffer@;
        if buffer.len() >= CAPACITY {
            let _ = buffer.pop_front();
        }
        buffer.push_back(m);
        let n: usize = lags.len();
        let mut i: usize = 0;
        while i < n
            invariant
                i <= n,
                n == lags@.len(),
                n == old_lags.len(),
                forall|k: int| 0 <= k < i ==> #[trigger] lags@[k] == advanced(old_lags[k]),
                forall|k: int| i <= k < n ==> #[trigger] lags@[k] == old_lags[k],
            decreases n - i,
        {
            match lags[i] {
                Some(lag) => {
                    if lag < CAPACITY {
                        lags.set(i, Some(lag + 1));
                    }
                },
                None => {},
            }
            i += 1;
        }
        proof {
            lemma_publish(old_buffer, old_lags, m, buffer@, lags@);
        }
        settle(&mut buffer, &lags);
        self.restore(buffer, lags);
    }

    /// Hands out the oldest message that `sub` has yet to receive, if there
    /// is one, and moves its cursor past it. Messages come out in the order
    /// in which they were published.
    pub fn receive(&mut self, sub: &Subscription) -> (r: Option<Message>)
        ensures
            match r {
                Some(m) => {
                    &&& old(self)@.dom().contains(sub@)
                    &&& old(self)@[sub@].len() > 0
                    &&& m@ == old(self)@[sub@].first()
                    &&& final(self)@ == old(self)@.insert(sub@, old(self)@[sub@].drop_first())
                },
                None => {
                    &&& final(self)@ == old(self)@
                    &&& old(self)@.dom().contains(sub@) ==> old(self)@[sub@].len() == 0
                },
            },
    {
        proof {
            use_type_invariant(&*self);
        }
        let slot: usize = sub.slot;
        if slot >= self.lags.len() {
            return None;
        }
        let lag: usize = match self.lags[slot] {
            Some(lag) => lag,
            None => {
                return None;
            },
        };
        if lag == 0 {
            return None;
        }
        let m = self.buffer[self.buffer.len() - lag].duplicate();
        let (mut buffer, mut lags) = self.dismantle();
        let ghost before = lags@;
        lags.set(slot, Some(lag - 1));
        proof {
            let v = views(buffer@);
            assert(tail(v, lag - 1) =~= tail(v, lag as int).drop_first());
            assert(model(buffer@, lags@) =~= model(buffer@, before).insert(
                sub@,
                model(buffer@, before)[sub@].drop_first(),
            ));
        }
        settle(&mut buffer, &lags);
        self.restore(buffer, lags);
        Some(m)
    }

    /// How many messages `sub` has yet to receive: never more than
    /// `CAPACITY`, and none for a subscription this hub does not know.
    pub fn backlog(&self, sub: &Subscription) -> (n: usize)
        ensures
            n <= CAPACITY,
            n == (if self@.dom().contains(sub@) {
                self@[sub@].len()
            } else {
                0
            }),
    {
        proof {
            use_type_invariant(self);
        }
        if sub.slot >= self.lags.len() {
            return 0;
        }
        match self.lags[sub.slot] {
            Some(lag) => lag,
            None => 0,
        }
    }

    /// How many messages the hub holds: as many as the subscription that is
    /// furthest behind has yet to receive, none if nobody is subscribed or
    /// everybody has received everything, and never more than `CAPACITY`.
    pub fn held(&self) -> (n: usize)
        ensures
            n <= CAPACITY,
            forall|k: int| self@.dom().contains(k) ==> (#[trigger] self@[k]).len() <= n,
            n > 0 ==> exists|k: int| self@.dom().contains(k) && (#[trigger] self@[k]).len() == n,
    {
        proof {
            use_type_invariant(self);
            lemma_longest(self.lags@);
            if self.buffer@.len() > 0 {
                let k = choose|k: int|
                    0 <= k < self.lags@.len() && #[trigger] self.lags@[k] == Some(
                        longest(self.lags@) as usize,
                    );
                assert(self@.dom().contains(k));
                assert(self@[k].len() == self.buffer@.len());
            }
        }
        self.buffer.len()
    }
}

/// A subscription that starts with nothing pending does not change how far
/// behind the furthest is, whether it takes a free place or a new one.
proof fn lemma_longest_with_newcomer(lags: Seq<Option<usize>>, slot: int)
    requires
        0 <= slot <= lags.len(),
        slot < lags.len() ==> lags[slot] is None,
    ensures
        slot < lags.len() ==> longest(lags.update(slot, Some(0usize))) == longest(lags),
        slot == lags.len() ==> longest(lags.push(Some(0usize))) == longest(lags),
    decreases lags.len(),
{
    if slot == lags.len() {
        assert(lags.push(Some(0usize)).drop_last() =~= lags);
        lemma_longest(lags);
    } else {
        let changed = lags.update(slot, Some(0usize));
        if slot == lags.len() - 1 {
            assert(changed.drop_last() =~= lags.drop_last());
            lemma_longest(lags.drop_last());
        } else {
            lemma_longest_with_newcomer(lags.drop_last(), slot);
            assert(changed.drop_last() =~= lags.drop_last().update(slot, Some(0usize)));
        }
    }
}

/// A cursor after one more message was published: one further behind, but
/// never more than `CAPACITY`.
spec fn advanced(lag: Option<usize>) -> Option<usize> {
    match lag {
        Some(l) => if l < CAPACITY {
            Some((l + 1) as usize)
        } else {
            Some(l)
        },
        None => None,
    }
}

/// Evicting the oldest message of a full buffer, appending `m` and advancing
/// every cursor is what `published` describes.
proof fn lemma_publish(
    buffer: Seq<Message>,
    lags: Seq<Option<usize>>,
    m: Message,
    buffer2: Seq<Message>,
    lags2: Seq<Option<usize>>,
)
    requires
        consistent(buffer, lags),
        buffer2 == (if buffer.len() >= CAPACITY {
            buffer.drop_first()
        } else {
            buffer
        }).push(m),
        lags2.len() == lags.len(),
        forall|k: int| 0 <= k < lags.len() ==> #[trigger] lags2[k] == advanced(lags[k]),
    ensures
        consistent(buffer2, lags2),
        model(buffer2, lags2) == published(model(buffer, lags), m@),
{
    let before = model(buffer, lags);
    let after = model(buffer2, lags2);
    let v = views(buffer);
    let v2 = views(buffer2);
    assert forall|k: int| 0 <= k < lags2.len() && lags2[k] is Some implies (#[trigger] lags2[k])->0
        <= buffer2.len() by {
        assert(lags2[k] == advanced(lags[k]));
        assert(lags[k] is Some);
    }
    assert forall|k: int| before.dom().contains(k) implies #[trigger] after[k] == keep_last(
        before[k].push(m@),
        CAPACITY as int,
    ) by {
        assert(lags2[k] == advanced(lags[k]));
        let l = lags[k]->0 as int;
        assert(l <= buffer.len());
        if l < CAPACITY {
            assert(tail(v2, l + 1) =~= tail(v, l).push(m@));
        } else {
            assert(tail(v2, l) =~= tail(v, l).push(m@).subrange(1, l + 1));
        }
    }
    assert forall|k: int| after.dom().contains(k) <==> before.dom().contains(k) by {
        if 0 <= k < lags.len() {
            assert(lags2[k] == advanced(lags[k]));
        }
    }
    assert(after =~= published(before, m@));
}

} // verus!
