//! Predicates over a hand's mathematical value: which street follows
//! which, when a betting street is settled, when the hand is over, and
//! the well-formedness invariant every live hand maintains.
//!
//! Two points the model pins down explicitly:
//!
//! * A street is *settled* when every player still in the hand has
//!   matched the highest street bet **and** has taken at least one turn
//!   on the street.  The two blind posts recorded when the hand starts
//!   are forced and do not count as turns, which is why the big blind
//!   keeps the option to act before the preflop street can close.
//! * A player that folds stays in every later turn-order snapshot,
//!   marked inactive; an inactive entry never becomes active again.
use vstd::prelude::*;

use crate::model::{ActivePlayerV, HandV, PlayerEventV, PlayerV, StreetEventV, StreetType};
use crate::sums::{count_active, sum_bets, sum_stacks};

verus! {

/// Position of a street in the fixed playing order.
pub open spec fn street_num(st: StreetType) -> int {
    match st {
        StreetType::Preflop => 0,
        StreetType::Flop => 1,
        StreetType::Turn => 2,
        StreetType::River => 3,
    }
}

/// The street dealt after `st`; after the river the order would wrap,
/// which is exactly when a hand terminates instead.
pub open spec fn street_after(st: StreetType) -> StreetType {
    match st {
        StreetType::Preflop => StreetType::Flop,
        StreetType::Flop => StreetType::Turn,
        StreetType::Turn => StreetType::River,
        StreetType::River => StreetType::Preflop,
    }
}

/// The id sequence of a turn-order list.
pub open spec fn active_ids(ps: Seq<ActivePlayerV>) -> Seq<Seq<char>> {
    ps.map_values(|p: ActivePlayerV| p.id)
}

/// The id sequence of the seated players.
pub open spec fn player_ids(ps: Seq<PlayerV>) -> Seq<Seq<char>> {
    ps.map_values(|p: PlayerV| p.id)
}

/// Every player still in the hand has matched the highest street bet:
/// all non-folded entries carry the same street bet.
pub open spec fn all_active_bets_equal(ps: Seq<ActivePlayerV>) -> bool {
    forall|i: int, j: int|
        #![trigger ps[i], ps[j]]
        0 <= i < ps.len() && 0 <= j < ps.len() && !ps[i].is_inactive && !ps[j].is_inactive
            ==> ps[i].bet == ps[j].bet
}

/// Whether the log records a voluntary turn by `id` on street `st`.
/// The first two entries are the forced blind posts and do not count.
pub open spec fn has_acted(pes: Seq<PlayerEventV>, st: StreetType, id: Seq<char>) -> bool {
    exists|k: int|
        2 <= k < pes.len() && #[trigger] pes[k].street_type == st && pes[k].player_id == id
}

/// Every non-folded entry of `ps` has taken a turn on street `st`.
pub open spec fn all_have_acted(
    pes: Seq<PlayerEventV>,
    st: StreetType,
    ps: Seq<ActivePlayerV>,
) -> bool {
    forall|i: int|
        0 <= i < ps.len() && !(#[trigger] ps[i]).is_inactive ==> has_acted(pes, st, ps[i].id)
}

/// A folded entry of `xs` is still folded wherever its id appears in `ys`.
pub open spec fn inactive_monotone(xs: Seq<ActivePlayerV>, ys: Seq<ActivePlayerV>) -> bool {
    forall|i: int, j: int|
        0 <= i < xs.len() && 0 <= j < ys.len() && (#[trigger] xs[i]).is_inactive
            && (#[trigger] ys[j]).id == xs[i].id ==> ys[j].is_inactive
}

/// How one betting snapshot may follow another: the street stays or
/// advances by exactly one, and no folded player comes back.
pub open spec fn street_step(a: StreetEventV, b: StreetEventV) -> bool {
    &&& (b.street_type == a.street_type || street_num(b.street_type) == street_num(a.street_type)
        + 1)
    &&& inactive_monotone(a.current_active_players, b.current_active_players)
}

impl HandV {
    /// The hand's current betting state: the latest snapshot.
    pub open spec fn cur_street(self) -> StreetEventV {
        self.street_events.last()
    }

    /// Chips on the table: what the players still hold plus the pot.
    /// Constant across every action of a live hand.
    pub open spec fn chips(self) -> int {
        sum_stacks(self.players) + self.cur_street().pot
    }

    /// The current street is settled: bets level and everyone has acted.
    pub open spec fn street_settled(self) -> bool {
        &&& all_active_bets_equal(self.cur_street().current_active_players)
        &&& all_have_acted(
            self.player_events,
            self.cur_street().street_type,
            self.cur_street().current_active_players,
        )
    }

    /// The hand is over: only one player is left in it, or the river
    /// street is settled and play would otherwise wrap around.
    pub open spec fn closed(self) -> bool {
        ||| count_active(self.cur_street().current_active_players) <= 1
        ||| (self.street_settled() && self.cur_street().street_type == StreetType::River)
    }

    /// Well-formedness of a hand produced by the engine.
    pub open spec fn wf(self) -> bool {
        &&& self.street_events.len() >= 1
        &&& self.player_events.len() >= 2
        &&& self.player_events[0].street_type == StreetType::Preflop
        &&& self.player_events[1].street_type == StreetType::Preflop
        &&& self.street_events[0].street_type == StreetType::Preflop
        &&& forall|k: int|
            0 <= k < self.player_events.len() ==> street_num(
                (#[trigger] self.player_events[k]).street_type,
            ) <= street_num(self.cur_street().street_type)
        &&& forall|k: int|
            0 <= k < self.street_events.len() - 1 ==> street_step(
                #[trigger] self.street_events[k],
                self.street_events[k + 1],
            )
        &&& player_ids(self.players).no_duplicates()
        &&& active_ids(self.cur_street().current_active_players).no_duplicates()
        &&& self.cur_street().current_active_players.len() == self.players.len()
        &&& forall|id: Seq<char>|
            #[trigger] active_ids(self.cur_street().current_active_players).contains(id)
                <==> player_ids(self.players).contains(id)
        &&& forall|k: int|
            0 <= k < self.players.len() ==> (#[trigger] self.players[k]).stack >= 0
                && self.players[k].score >= 0
        &&& forall|k: int|
            0 <= k < self.cur_street().current_active_players.len() ==> (
            #[trigger] self.cur_street().current_active_players[k]).bet >= 0
                && self.cur_street().current_active_players[k].stack >= 0
        &&& sum_bets(self.cur_street().current_active_players) <= self.cur_street().pot
        &&& self.chips() <= u64::MAX
        &&& count_active(self.cur_street().current_active_players) >= 1
    }
}

} // verus!
