//! In-process publish/subscribe fan-out, one channel per event kind.
//!
//! Every published event is appended to a log; a subscription is a
//! cursor into that log, set at creation to the log's current end, plus
//! an optional mutation-kind filter evaluated per subscriber.  Receiving
//! advances the cursor past the delivered position, so:
//!
//! * an event already published when a subscription is created is never
//!   delivered to it, and
//! * a subscriber that keeps receiving sees each matching event exactly
//!   once, in publication order.
use vstd::prelude::*;

use crate::events::{DealEvent, DealEventV, HandEventPayload, HandEventPayloadV};
use crate::model::{dup_cards, dup_player_event, dup_street_event, MutationType};

verus! {

/// One listener: where its view of the log starts, how far it has read,
/// and which mutation kinds it wants.
#[derive(Clone, Copy, Debug)]
pub struct Subscription {
    pub start: usize,
    pub cursor: usize,
    pub filter: Option<MutationType>,
}

/// Whether a deal announcement passes a subscriber's filter.
pub open spec fn deal_matches(e: DealEventV, f: Option<MutationType>) -> bool {
    match f {
        Option::None => true,
        Option::Some(m) => e.mutation_type == m,
    }
}

/// Whether an update payload passes a subscriber's filter.
pub open spec fn hand_matches(e: HandEventPayloadV, f: Option<MutationType>) -> bool {
    match f {
        Option::None => true,
        Option::Some(m) => e.mutation_type == m,
    }
}

/// Position of the first matching log entry at or after `c`, or the
/// log's length when nothing at or after `c` matches.
pub open spec fn next_deal_match(log: Seq<DealEventV>, c: int, f: Option<MutationType>) -> int
    decreases log.len() - c,
{
    if c >= log.len() {
        log.len() as int
    } else if c < 0 {
        0
    } else if deal_matches(log[c], f) {
        c
    } else {
        next_deal_match(log, c + 1, f)
    }
}

/// Position of the first matching log entry at or after `c`, or the
/// log's length when nothing at or after `c` matches.
pub open spec fn next_hand_match(
    log: Seq<HandEventPayloadV>,
    c: int,
    f: Option<MutationType>,
) -> int
    decreases log.len() - c,
{
    if c >= log.len() {
        log.len() as int
    } else if c < 0 {
        0
    } else if hand_matches(log[c], f) {
        c
    } else {
        next_hand_match(log, c + 1, f)
    }
}

/// What the next delivered position is: no earlier than the cursor, no
/// later than the log's end, matching where it lands, and skipping only
/// entries the filter rejects.
pub proof fn lemma_next_deal_match(log: Seq<DealEventV>, c: int, f: Option<MutationType>)
    requires
        0 <= c <= log.len(),
    ensures
        c <= next_deal_match(log, c, f) <= log.len(),
        next_deal_match(log, c, f) < log.len() ==> deal_matches(
            log[next_deal_match(log, c, f)],
            f,
        ),
        forall|k: int| c <= k < next_deal_match(log, c, f) ==> !deal_matches(#[trigger] log[k], f),
    decreases log.len() - c,
{
    if c < log.len() && !deal_matches(log[c], f) {
        lemma_next_deal_match(log, c + 1, f);
    }
}

/// What the next delivered position is: no earlier than the cursor, no
/// later than the log's end, matching where it lands, and skipping only
/// entries the filter rejects.
pub proof fn lemma_next_hand_match(log: Seq<HandEventPayloadV>, c: int, f: Option<MutationType>)
    requires
        0 <= c <= log.len(),
    ensures
        c <= next_hand_match(log, c, f) <= log.len(),
        next_hand_match(log, c, f) < log.len() ==> hand_matches(
            log[next_hand_match(log, c, f)],
            f,
        ),
        forall|k: int| c <= k < next_hand_match(log, c, f) ==> !hand_matches(#[trigger] log[k], f),
    decreases log.len() - c,
{
    if c < log.len() && !hand_matches(log[c], f) {
        lemma_next_hand_match(log, c + 1, f);
    }
}

/// Isolation: a subscription whose cursor is past a log position never
/// has that position delivered.  In particular a subscriber created
/// after a publish starts with its cursor at the log's end, so the
/// already-published event is never delivered to it.
pub proof fn lemma_deal_isolation(
    log: Seq<DealEventV>,
    c: int,
    f: Option<MutationType>,
    i: int,
)
    requires
        0 <= i < c <= log.len(),
    ensures
        next_deal_match(log, c, f) != i,
{
    lemma_next_deal_match(log, c, f);
}

/// Isolation: a subscription whose cursor is past a log position never
/// has that position delivered.  In particular a subscriber created
/// after a publish starts with its cursor at the log's end, so the
/// already-published event is never delivered to it.
pub proof fn lemma_hand_isolation(
    log: Seq<HandEventPayloadV>,
    c: int,
    f: Option<MutationType>,
    i: int,
)
    requires
        0 <= i < c <= log.len(),
    ensures
        next_hand_match(log, c, f) != i,
{
    lemma_next_hand_match(log, c, f);
}

/// Exactly-once: after a delivery the cursor stands past the delivered
/// position, so every later delivery is at a strictly later position —
/// no event reaches the same subscriber twice.
pub proof fn lemma_deal_delivery_monotone(
    log: Seq<DealEventV>,
    c: int,
    f: Option<MutationType>,
)
    requires
        0 <= c <= log.len(),
        next_deal_match(log, c, f) < log.len(),
    ensures
        next_deal_match(log, next_deal_match(log, c, f) + 1, f) > next_deal_match(log, c, f),
{
    lemma_next_deal_match(log, c, f);
    lemma_next_deal_match(log, next_deal_match(log, c, f) + 1, f);
}

/// Exactly-once: after a delivery the cursor stands past the delivered
/// position, so every later delivery is at a strictly later position —
/// no event reaches the same subscriber twice.
pub proof fn lemma_hand_delivery_monotone(
    log: Seq<HandEventPayloadV>,
    c: int,
    f: Option<MutationType>,
)
    requires
        0 <= c <= log.len(),
        next_hand_match(log, c, f) < log.len(),
    ensures
        next_hand_match(log, next_hand_match(log, c, f) + 1, f) > next_hand_match(log, c, f),
{
    lemma_next_hand_match(log, c, f);
    lemma_next_hand_match(log, next_hand_match(log, c, f) + 1, f);
}

/// Process-local broadcast channels, keyed by event kind.  Constructed
/// explicitly and handed to whoever publishes or subscribes; there is
/// no process-wide instance.
#[derive(Debug)]
pub struct Broadcaster {
    pub deal_log: Vec<DealEvent>,
    pub deal_subs: Vec<Subscription>,
    pub hand_log: Vec<HandEventPayload>,
    pub hand_subs: Vec<Subscription>,
}

impl Broadcaster {
    /// Every subscription's window lies within its log.
    pub open spec fn wf(self) -> bool {
        &&& forall|k: int|
            0 <= k < self.deal_subs@.len() ==> (#[trigger] self.deal_subs@[k]).start
                <= self.deal_subs@[k].cursor <= self.deal_log@.len()
        &&& forall|k: int|
            0 <= k < self.hand_subs@.len() ==> (#[trigger] self.hand_subs@[k]).start
                <= self.hand_subs@[k].cursor <= self.hand_log@.len()
    }

    /// A broadcaster with empty logs and no subscribers.
    pub fn new() -> (b: Broadcaster)
        ensures
            b.wf(),
            b.deal_log@ == Seq::<DealEvent>::empty(),
            b.deal_subs@ == Seq::<Subscription>::empty(),
            b.hand_log@ == Seq::<HandEventPayload>::empty(),
            b.hand_subs@ == Seq::<Subscription>::empty(),
    {
        Broadcaster {
            deal_log: Vec::new(),
            deal_subs: Vec::new(),
            hand_log: Vec::new(),
            hand_subs: Vec::new(),
        }
    }

    /// Open a deal subscription.  It starts at the log's current end:
    /// only what is published afterwards can reach it.
    pub fn subscribe_deal(&mut self, filter: Option<MutationType>) -> (s: usize)
        requires
            old(self).wf(),
        ensures
            final(self).wf(),
            s == old(self).deal_subs@.len(),
            final(self).deal_subs@ == old(self).deal_subs@.push(
                (Subscription {
                    start: old(self).deal_log@.len() as usize,
                    cursor: old(self).deal_log@.len() as usize,
                    filter,
                }),
            ),
            final(self).deal_log == old(self).deal_log,
            final(self).hand_log == old(self).hand_log,
            final(self).hand_subs == old(self).hand_subs,
    {
        let start = self.deal_log.len();
        let s = self.deal_subs.len();
        self.deal_subs.push(Subscription { start, cursor: start, filter });
        s
    }

    /// Open an update subscription.  It starts at the log's current
    /// end: only what is published afterwards can reach it.
    pub fn subscribe_hand(&mut self, filter: Option<MutationType>) -> (s: usize)
        requires
            old(self).wf(),
        ensures
            final(self).wf(),
            s == old(self).hand_subs@.len(),
            final(self).hand_subs@ == old(self).hand_subs@.push(
                (Subscription {
                    start: old(self).hand_log@.len() as usize,
                    cursor: old(self).hand_log@.len() as usize,
                    filter,
                }),
            ),
            final(self).hand_log == old(self).hand_log,
            final(self).deal_log == old(self).deal_log,
            final(self).deal_subs == old(self).deal_subs,
    {
        let start = self.hand_log.len();
        let s = self.hand_subs.len();
        self.hand_subs.push(Subscription { start, cursor: start, filter });
        s
    }

    /// Publish a deal announcement to every live deal subscriber.
    pub fn publish_deal(&mut self, e: DealEvent)
        requires
            old(self).wf(),
        ensures
            final(self).wf(),
            final(self).deal_log@ == old(self).deal_log@.push(e),
            final(self).deal_subs == old(self).deal_subs,
            final(self).hand_log == old(self).hand_log,
            final(self).hand_subs == old(self).hand_subs,
    {
        self.deal_log.push(e);
    }

    /// Publish an update payload to every live update subscriber.
    pub fn publish_hand(&mut self, e: HandEventPayload)
        requires
            old(self).wf(),
        ensures
            final(self).wf(),
            final(self).hand_log@ == old(self).hand_log@.push(e),
            final(self).hand_subs == old(self).hand_subs,
            final(self).deal_log == old(self).deal_log,
            final(self).deal_subs == old(self).deal_subs,
    {
        self.hand_log.push(e);
    }

    /// Deliver the next matching deal announcement to subscription `s`,
    /// advancing its cursor past the delivered position; `None` when the
    /// subscription is unknown or nothing new matches.
    pub fn recv_deal(&mut self, s: usize) -> (r: Option<DealEvent>)
        requires
            old(self).wf(),
        ensures
            final(self).wf(),
            final(self).deal_log == old(self).deal_log,
            final(self).hand_log == old(self).hand_log,
            final(self).hand_subs == old(self).hand_subs,
            s >= old(self).deal_subs@.len() ==> r is None && final(self).deal_subs == old(
                self,
            ).deal_subs,
            s < old(self).deal_subs@.len() ==> ({
                let sub = old(self).deal_subs@[s as int];
                let log = old(self).deal_log.deep_view();
                let ni = next_deal_match(log, sub.cursor as int, sub.filter);
                &&& ni < log.len() ==> (r matches Some(ev) && ev.deep_view() == log[ni]
                    && final(self).deal_subs@ == old(self).deal_subs@.update(
                    s as int,
                    (Subscription { cursor: (ni + 1) as usize, ..sub }),
                ))
                &&& ni == log.len() ==> (r is None && final(self).deal_subs@ == old(
                    self,
                ).deal_subs@.update(s as int, (Subscription { cursor: ni as usize, ..sub })))
            }),
    {
        if s >= self.deal_subs.len() {
            return None;
        }
        let sub = self.deal_subs[s];
        let ghost log = self.deal_log.deep_view();
        proof {
            assert(log.len() == self.deal_log@.len());
            lemma_next_deal_match(log, sub.cursor as int, sub.filter);
        }
        let mut c = sub.cursor;
        while c < self.deal_log.len()
            invariant
                old(self).wf(),
                *self == *old(self),
                s < self.deal_subs@.len(),
                sub == self.deal_subs@[s as int],
                sub.cursor <= c <= self.deal_log@.len(),
                log == self.deal_log.deep_view(),
                log.len() == self.deal_log@.len(),
                next_deal_match(log, sub.cursor as int, sub.filter) == next_deal_match(
                    log,
                    c as int,
                    sub.filter,
                ),
            decreases self.deal_log@.len() - c,
        {
            let e = &self.deal_log[c];
            let hit = match sub.filter {
                Option::None => true,
                Option::Some(m) => e.mutation_type == m,
            };
            if hit {
                let ev = DealEvent { mutation_type: e.mutation_type, id: e.id.clone() };
                self.deal_subs[s] = Subscription { start: sub.start, cursor: c + 1, filter: sub.filter };
                proof {
                    assert(next_deal_match(log, c as int, sub.filter) == c as int);
                    assert(ev.deep_view() == log[c as int]);
                }
                return Some(ev);
            }
            c += 1;
        }
        self.deal_subs[s] = Subscription { start: sub.start, cursor: c, filter: sub.filter };
        return None;
    }

    /// Deliver the next matching update payload to subscription `s`,
    /// advancing its cursor past the delivered position; `None` when the
    /// subscription is unknown or nothing new matches.
    pub fn recv_hand(&mut self, s: usize) -> (r: Option<HandEventPayload>)
        requires
            old(self).wf(),
        ensures
            final(self).wf(),
            final(self).hand_log == old(self).hand_log,
            final(self).deal_log == old(self).deal_log,
            final(self).deal_subs == old(self).deal_subs,
            s >= old(self).hand_subs@.len() ==> r is None && final(self).hand_subs == old(
                self,
            ).hand_subs,
            s < old(self).hand_subs@.len() ==> ({
                let sub = old(self).hand_subs@[s as int];
                let log = old(self).hand_log.deep_view();
                let ni = next_hand_match(log, sub.cursor as int, sub.filter);
                &&& ni < log.len() ==> (r matches Some(ev) && ev.deep_view() == log[ni]
                    && final(self).hand_subs@ == old(self).hand_subs@.update(
                    s as int,
                    (Subscription { cursor: (ni + 1) as usize, ..sub }),
                ))
                &&& ni == log.len() ==> (r is None && final(self).hand_subs@ == old(
                    self,
                ).hand_subs@.update(s as int, (Subscription { cursor: ni as usize, ..sub })))
            }),
    {
        if s >= self.hand_subs.len() {
            return None;
        }
        let sub = self.hand_subs[s];
        let ghost log = self.hand_log.deep_view();
        proof {
            assert(log.len() == self.hand_log@.len());
            lemma_next_hand_match(log, sub.cursor as int, sub.filter);
        }
        let mut c = sub.cursor;
        while c < self.hand_log.len()
            invariant
                old(self).wf(),
                *self == *old(self),
                s < self.hand_subs@.len(),
                sub == self.hand_subs@[s as int],
                sub.cursor <= c <= self.hand_log@.len(),
                log == self.hand_log.deep_view(),
                log.len() == self.hand_log@.len(),
                next_hand_match(log, sub.cursor as int, sub.filter) == next_hand_match(
                    log,
                    c as int,
                    sub.filter,
                ),
            decreases self.hand_log@.len() - c,
        {
            let e = &self.hand_log[c];
            let hit = match sub.filter {
                Option::None => true,
                Option::Some(m) => e.mutation_type == m,
            };
            if hit {
                let street_event = match &e.street_event {
                    Option::Some(se) => Some(dup_street_event(se)),
                    Option::None => None,
                };
                let player_event = match &e.player_event {
                    Option::Some(pe) => Some(dup_player_event(pe)),
                    Option::None => None,
                };
                let cards = match &e.cards {
                    Option::Some(cs) => Some(dup_cards(cs)),
                    Option::None => None,
                };
                let ev = HandEventPayload {
                    mutation_type: e.mutation_type,
                    hand_id: e.hand_id.clone(),
                    street_event,
                    player_event,
                    cards,
                };
                self.hand_subs[s] = Subscription { start: sub.start, cursor: c + 1, filter: sub.filter };
                proof {
                    assert(next_hand_match(log, c as int, sub.filter) == c as int);
                    assert(ev.deep_view() == log[c as int]);
                }
                return Some(ev);
            }
            c += 1;
        }
        self.hand_subs[s] = Subscription { start: sub.start, cursor: c, filter: sub.filter };
        return None;
    }
}

} // verus!

