//! Sums and counts over the model's sequences, with the lemmas that
//! track them through the operations the engine performs: updating one
//! entry, rotating an entry to the back, resetting street bets, and
//! concatenation.
use vstd::prelude::*;

use crate::model::{ActivePlayerV, PlayerInputV, PlayerV};

verus! {

/// Number of entries that have not folded.
pub open spec fn count_active(ps: Seq<ActivePlayerV>) -> int
    decreases ps.len(),
{
    if ps.len() == 0 {
        0
    } else {
        count_active(ps.drop_last()) + if ps.last().is_inactive {
            0int
        } else {
            1int
        }
    }
}

/// Chips contributed during the current street, over all entries.
pub open spec fn sum_bets(ps: Seq<ActivePlayerV>) -> int
    decreases ps.len(),
{
    if ps.len() == 0 {
        0
    } else {
        sum_bets(ps.drop_last()) + ps.last().bet
    }
}

/// Chips still held by the seated players.
pub open spec fn sum_stacks(ps: Seq<PlayerV>) -> int
    decreases ps.len(),
{
    if ps.len() == 0 {
        0
    } else {
        sum_stacks(ps.drop_last()) + ps.last().stack
    }
}

/// Chips a seating list brings to the table.
pub open spec fn sum_inputs(ps: Seq<PlayerInputV>) -> int
    decreases ps.len(),
{
    if ps.len() == 0 {
        0
    } else {
        sum_inputs(ps.drop_last()) + ps.last().stack
    }
}

/// Extending a seating prefix by one seat adds that seat's stack.
pub proof fn lemma_sum_inputs_take_step(ps: Seq<PlayerInputV>, i: int)
    requires
        0 <= i < ps.len(),
    ensures
        sum_inputs(ps.take(i + 1)) == sum_inputs(ps.take(i)) + ps[i].stack,
{
    assert(ps.take(i + 1).drop_last() =~= ps.take(i));
}

/// With no negative stacks, a prefix sum is at most the whole sum.
pub proof fn lemma_sum_inputs_take_le(ps: Seq<PlayerInputV>, i: int)
    requires
        0 <= i <= ps.len(),
        forall|k: int| 0 <= k < ps.len() ==> #[trigger] ps[k].stack >= 0,
    ensures
        sum_inputs(ps.take(i)) <= sum_inputs(ps),
    decreases ps.len() - i,
{
    if i == ps.len() {
        assert(ps.take(i) =~= ps);
    } else {
        lemma_sum_inputs_take_step(ps, i);
        lemma_sum_inputs_take_le(ps, i + 1);
    }
}

pub proof fn lemma_count_active_push(ps: Seq<ActivePlayerV>, x: ActivePlayerV)
    ensures
        count_active(ps.push(x)) == count_active(ps) + if x.is_inactive {
            0int
        } else {
            1int
        },
{
    assert(ps.push(x).drop_last() =~= ps);
}

pub proof fn lemma_sum_bets_push(ps: Seq<ActivePlayerV>, x: ActivePlayerV)
    ensures
        sum_bets(ps.push(x)) == sum_bets(ps) + x.bet,
{
    assert(ps.push(x).drop_last() =~= ps);
}

pub proof fn lemma_sum_stacks_push(ps: Seq<PlayerV>, x: PlayerV)
    ensures
        sum_stacks(ps.push(x)) == sum_stacks(ps) + x.stack,
{
    assert(ps.push(x).drop_last() =~= ps);
}

pub proof fn lemma_count_active_update(ps: Seq<ActivePlayerV>, i: int, x: ActivePlayerV)
    requires
        0 <= i < ps.len(),
    ensures
        count_active(ps.update(i, x)) == count_active(ps) - (if ps[i].is_inactive {
            0int
        } else {
            1int
        }) + (if x.is_inactive {
            0int
        } else {
            1int
        }),
    decreases ps.len(),
{
    if i == ps.len() - 1 {
        assert(ps.update(i, x).drop_last() =~= ps.drop_last());
    } else {
        assert(ps.update(i, x).drop_last() =~= ps.drop_last().update(i, x));
        lemma_count_active_update(ps.drop_last(), i, x);
    }
}

pub proof fn lemma_sum_bets_update(ps: Seq<ActivePlayerV>, i: int, x: ActivePlayerV)
    requires
        0 <= i < ps.len(),
    ensures
        sum_bets(ps.update(i, x)) == sum_bets(ps) - ps[i].bet + x.bet,
    decreases ps.len(),
{
    if i == ps.len() - 1 {
        assert(ps.update(i, x).drop_last() =~= ps.drop_last());
    } else {
        assert(ps.update(i, x).drop_last() =~= ps.drop_last().update(i, x));
        lemma_sum_bets_update(ps.drop_last(), i, x);
    }
}

pub proof fn lemma_sum_stacks_update(ps: Seq<PlayerV>, i: int, x: PlayerV)
    requires
        0 <= i < ps.len(),
    ensures
        sum_stacks(ps.update(i, x)) == sum_stacks(ps) - ps[i].stack + x.stack,
    decreases ps.len(),
{
    if i == ps.len() - 1 {
        assert(ps.update(i, x).drop_last() =~= ps.drop_last());
    } else {
        assert(ps.update(i, x).drop_last() =~= ps.drop_last().update(i, x));
        lemma_sum_stacks_update(ps.drop_last(), i, x);
    }
}

pub proof fn lemma_count_active_remove(ps: Seq<ActivePlayerV>, i: int)
    requires
        0 <= i < ps.len(),
    ensures
        count_active(ps.remove(i)) == count_active(ps) - if ps[i].is_inactive {
            0int
        } else {
            1int
        },
    decreases ps.len(),
{
    if i == ps.len() - 1 {
        assert(ps.remove(i) =~= ps.drop_last());
    } else {
        assert(ps.remove(i).drop_last() =~= ps.drop_last().remove(i));
        assert(ps.remove(i).last() == ps.last());
        lemma_count_active_remove(ps.drop_last(), i);
    }
}

pub proof fn lemma_sum_bets_remove(ps: Seq<ActivePlayerV>, i: int)
    requires
        0 <= i < ps.len(),
    ensures
        sum_bets(ps.remove(i)) == sum_bets(ps) - ps[i].bet,
    decreases ps.len(),
{
    if i == ps.len() - 1 {
        assert(ps.remove(i) =~= ps.drop_last());
    } else {
        assert(ps.remove(i).drop_last() =~= ps.drop_last().remove(i));
        assert(ps.remove(i).last() == ps.last());
        lemma_sum_bets_remove(ps.drop_last(), i);
    }
}

pub proof fn lemma_sum_stacks_remove(ps: Seq<PlayerV>, i: int)
    requires
        0 <= i < ps.len(),
    ensures
        sum_stacks(ps.remove(i)) == sum_stacks(ps) - ps[i].stack,
    decreases ps.len(),
{
    if i == ps.len() - 1 {
        assert(ps.remove(i) =~= ps.drop_last());
    } else {
        assert(ps.remove(i).drop_last() =~= ps.drop_last().remove(i));
        assert(ps.remove(i).last() == ps.last());
        lemma_sum_stacks_remove(ps.drop_last(), i);
    }
}

/// Rotating one entry to the back changes neither count nor bet total.
pub proof fn lemma_rotation_preserves_tallies(ps: Seq<ActivePlayerV>, i: int)
    requires
        0 <= i < ps.len(),
    ensures
        count_active(ps.remove(i).push(ps[i])) == count_active(ps),
        sum_bets(ps.remove(i).push(ps[i])) == sum_bets(ps),
{
    lemma_count_active_remove(ps, i);
    lemma_sum_bets_remove(ps, i);
    lemma_count_active_push(ps.remove(i), ps[i]);
    lemma_sum_bets_push(ps.remove(i), ps[i]);
}

pub proof fn lemma_count_active_nonneg(ps: Seq<ActivePlayerV>)
    ensures
        0 <= count_active(ps) <= ps.len(),
    decreases ps.len(),
{
    if ps.len() > 0 {
        lemma_count_active_nonneg(ps.drop_last());
    }
}

pub proof fn lemma_sum_bets_nonneg(ps: Seq<ActivePlayerV>)
    requires
        forall|k: int| 0 <= k < ps.len() ==> #[trigger] ps[k].bet >= 0,
    ensures
        sum_bets(ps) >= 0,
    decreases ps.len(),
{
    if ps.len() > 0 {
        lemma_sum_bets_nonneg(ps.drop_last());
    }
}

pub proof fn lemma_sum_stacks_nonneg(ps: Seq<PlayerV>)
    requires
        forall|k: int| 0 <= k < ps.len() ==> #[trigger] ps[k].stack >= 0,
    ensures
        sum_stacks(ps) >= 0,
    decreases ps.len(),
{
    if ps.len() > 0 {
        lemma_sum_stacks_nonneg(ps.drop_last());
    }
}

/// With no negative bets, one entry's bet is at most the total.
pub proof fn lemma_bet_le_sum(ps: Seq<ActivePlayerV>, i: int)
    requires
        0 <= i < ps.len(),
        forall|k: int| 0 <= k < ps.len() ==> #[trigger] ps[k].bet >= 0,
    ensures
        ps[i].bet <= sum_bets(ps),
    decreases ps.len(),
{
    if i == ps.len() - 1 {
        lemma_sum_bets_nonneg(ps.drop_last());
    } else {
        lemma_bet_le_sum(ps.drop_last(), i);
    }
}

/// With no negative stacks, one player's stack is at most the total.
pub proof fn lemma_stack_le_sum(ps: Seq<PlayerV>, i: int)
    requires
        0 <= i < ps.len(),
        forall|k: int| 0 <= k < ps.len() ==> #[trigger] ps[k].stack >= 0,
    ensures
        ps[i].stack <= sum_stacks(ps),
    decreases ps.len(),
{
    if i == ps.len() - 1 {
        lemma_sum_stacks_nonneg(ps.drop_last());
    } else {
        lemma_stack_le_sum(ps.drop_last(), i);
    }
}

pub proof fn lemma_count_active_add(a: Seq<ActivePlayerV>, b: Seq<ActivePlayerV>)
    ensures
        count_active(a + b) == count_active(a) + count_active(b),
    decreases b.len(),
{
    if b.len() == 0 {
        assert(a + b =~= a);
    } else {
        assert((a + b).drop_last() =~= a + b.drop_last());
        assert((a + b).last() == b.last());
        lemma_count_active_add(a, b.drop_last());
    }
}

pub proof fn lemma_sum_bets_add(a: Seq<ActivePlayerV>, b: Seq<ActivePlayerV>)
    ensures
        sum_bets(a + b) == sum_bets(a) + sum_bets(b),
    decreases b.len(),
{
    if b.len() == 0 {
        assert(a + b =~= a);
    } else {
        assert((a + b).drop_last() =~= a + b.drop_last());
        assert((a + b).last() == b.last());
        lemma_sum_bets_add(a, b.drop_last());
    }
}

} // verus!
