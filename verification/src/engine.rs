//! The hand engine: seeding a hand from a dealing-service result, and
//! applying one player action — the single entry point of turn play.
use vstd::prelude::*;

use crate::events::{HandEventPayload, HandEventPayloadV};
use crate::ids::fresh_hand_id;
use crate::model::{
    dup_active_list, dup_player_event, dup_street_event, dup_string_list, ActivePlayer,
    ActivePlayerV, DealInput, DealResult, DealtSeatV, EngineError, Hand, HandV, MutationType,
    Player, PlayerAction, PlayerEvent, PlayerEventV, PlayerInput, PlayerInputV, PlayerV,
    StreetEvent, StreetEventV, StreetType, BIG_BLIND, SMALL_BLIND,
};
use crate::rotation::{
    advance, blind_of, build_active, find_active, is_first_match, lemma_build_active_ids,
    lemma_build_active_tallies, lemma_ids_multiset_eq, lemma_rotate_multiset,
    lemma_sort_order_ids, lemma_sort_order_tallies, sort_active_players, sort_order,
};
use crate::state::{
    active_ids, all_active_bets_equal, all_have_acted, has_acted, inactive_monotone, player_ids,
    street_after, street_num, street_step,
};
use crate::sums::{
    count_active, lemma_bet_le_sum, lemma_count_active_nonneg, lemma_count_active_update,
    lemma_rotation_preserves_tallies, lemma_stack_le_sum, lemma_sum_bets_update,
    lemma_sum_inputs_take_le, lemma_sum_inputs_take_step, lemma_sum_stacks_push,
    lemma_sum_stacks_update, sum_bets, sum_inputs, sum_stacks,
};
use crate::winner::{find_player, is_first_player_match, is_winner_idx, resolve};

verus! {

/// The id sequence of a seating list.
pub open spec fn input_ids(ps: Seq<PlayerInputV>) -> Seq<Seq<char>> {
    ps.map_values(|p: PlayerInputV| p.id)
}

/// Some seated player carries the id.
pub open spec fn has_player(ps: Seq<PlayerV>, id: Seq<char>) -> bool {
    exists|i: int| 0 <= i < ps.len() && (#[trigger] ps[i]).id == id
}

/// A seating list a hand can be started from: at least two seats, no
/// seat repeated, the blind seats able to post their blinds, and a
/// total that fits the chip ledger.
pub open spec fn seating_ok(ps: Seq<PlayerInputV>) -> bool {
    &&& ps.len() >= 2
    &&& input_ids(ps).no_duplicates()
    &&& ps[0].stack >= SMALL_BLIND
    &&& ps[1].stack >= BIG_BLIND
    &&& sum_inputs(ps) <= u64::MAX
}

/// The seated players of a fresh hand: each seat's id and stack after
/// its blind, joined with what the dealing service produced for it.
pub open spec fn seeded_players(ps: Seq<PlayerInputV>, hs: Seq<DealtSeatV>) -> Seq<PlayerV> {
    Seq::new(
        ps.len(),
        |i: int|
            PlayerV {
                id: ps[i].id,
                stack: ps[i].stack - blind_of(i),
                cards: hs[i].cards,
                score: hs[i].score,
                description: hs[i].description,
            },
    )
}

/// One turn-order entry after the actor's move: the street bet grows by
/// the amount, and a fold marks the entry inactive for good.
pub open spec fn updated_entry(e: ActivePlayerV, act: PlayerAction, amt: int) -> ActivePlayerV {
    ActivePlayerV {
        id: e.id,
        bet: e.bet + amt,
        stack: e.stack,
        is_inactive: e.is_inactive || act == PlayerAction::Fold,
        is_big_blind: e.is_big_blind,
    }
}

/// The turn-order list after the actor's move.
pub open spec fn updated_list(
    ps: Seq<ActivePlayerV>,
    ai: int,
    act: PlayerAction,
    amt: int,
) -> Seq<ActivePlayerV> {
    ps.update(ai, updated_entry(ps[ai], act, amt))
}

/// Street bets start over when a new street opens.
pub open spec fn reset_bets(ps: Seq<ActivePlayerV>) -> Seq<ActivePlayerV> {
    ps.map_values(|p: ActivePlayerV| (ActivePlayerV { bet: 0, ..p }))
}

/// The pot after a move: only a bet adds chips.
pub open spec fn pot_after(pot: int, act: PlayerAction, amt: int) -> int {
    pot + if act == PlayerAction::Bet {
        amt
    } else {
        0
    }
}

/// Why a located action is refused: the actor has already folded, a bet
/// exceeds the actor's stack, or a check or fold carries chips.
pub open spec fn action_rejected(h: HandV, pi: int, ai: int, act: PlayerAction, amt: int) -> bool {
    ||| h.cur_street().current_active_players[ai].is_inactive
    ||| (act == PlayerAction::Bet && amt > h.players[pi].stack)
    ||| (act != PlayerAction::Bet && amt != 0)
}

/// Whether all still-active street bets are level.
pub fn bets_equal(list: &Vec<ActivePlayer>) -> (r: bool)
    ensures
        r == all_active_bets_equal(list.deep_view()),
{
    let ghost a = list.deep_view();
    let mut reference: Option<usize> = None;
    let mut i: usize = 0;
    while i < list.len()
        invariant
            i <= list.len(),
            a == list.deep_view(),
            match reference {
                Some(j) => {
                    &&& 0 <= j < i
                    &&& !a[j as int].is_inactive
                    &&& forall|k: int|
                        0 <= k < i && !(#[trigger] a[k]).is_inactive ==> a[k].bet == a[j as int].bet
                },
                None => forall|k: int| 0 <= k < i ==> (#[trigger] a[k]).is_inactive,
            },
        decreases list.len() - i,
    {
        if !list[i].is_inactive {
            match reference {
                Some(j) => {
                    if list[i].bet != list[j].bet {
                        proof {
                            assert(!a[i as int].is_inactive && !a[j as int].is_inactive
                                && a[i as int].bet != a[j as int].bet);
                        }
                        return false;
                    }
                },
                None => {
                    reference = Some(i);
                },
            }
        }
        i += 1;
    }
    true
}

/// Whether every still-active entry has taken a turn on the street.
pub fn all_acted(pes: &Vec<PlayerEvent>, st: StreetType, list: &Vec<ActivePlayer>) -> (r: bool)
    ensures
        r == all_have_acted(pes.deep_view(), st, list.deep_view()),
{
    let ghost a = list.deep_view();
    let mut i: usize = 0;
    while i < list.len()
        invariant
            i <= list.len(),
            a == list.deep_view(),
            forall|k: int|
                0 <= k < i && !(#[trigger] a[k]).is_inactive ==> has_acted(
                    pes.deep_view(),
                    st,
                    a[k].id,
                ),
        decreases list.len() - i,
    {
        if !list[i].is_inactive {
            if !acted_on_street(pes, st, &list[i].id) {
                proof {
                    assert(!a[i as int].is_inactive && !has_acted(
                        pes.deep_view(),
                        st,
                        a[i as int].id,
                    ));
                }
                return false;
            }
        }
        i += 1;
    }
    true
}

/// Whether the log records a voluntary turn by `id` on street `st`.
pub fn acted_on_street(pes: &Vec<PlayerEvent>, st: StreetType, id: &String) -> (r: bool)
    ensures
        r == has_acted(pes.deep_view(), st, id@),
{
    let ghost l = pes.deep_view();
    if pes.len() < 2 {
        return false;
    }
    let mut k: usize = 2;
    while k < pes.len()
        invariant
            2 <= k <= pes.len(),
            l == pes.deep_view(),
            pes.deep_view().len() >= 2,
            forall|j: int|
                2 <= j < k ==> !((#[trigger] l[j]).street_type == st && l[j].player_id == id@),
        decreases pes.len() - k,
    {
        if pes[k].street_type == st && pes[k].player_id == *id {
            proof {
                assert(l[k as int].street_type == st && l[k as int].player_id == id@);
            }
            return true;
        }
        k += 1;
    }
    false
}

/// Number of still-active entries of the order.
pub fn count_active_entries(list: &Vec<ActivePlayer>) -> (n: usize)
    ensures
        n as int == count_active(list.deep_view()),
{
    let ghost a = list.deep_view();
    proof {
        lemma_count_active_nonneg(a);
    }
    let mut n: usize = 0;
    let mut i: usize = 0;
    while i < list.len()
        invariant
            i <= list.len(),
            a == list.deep_view(),
            n as int == count_active(a.take(i as int)),
            n <= i,
        decreases list.len() - i,
    {
        if !list[i].is_inactive {
            n += 1;
        }
        proof {
            assert(a.take((i + 1) as int).drop_last() =~= a.take(i as int));
        }
        i += 1;
    }
    proof {
        assert(a.take(a.len() as int) =~= a);
    }
    n
}

/// Whether two seats share an id.
pub fn has_duplicate_ids(ps: &Vec<PlayerInput>) -> (r: bool)
    ensures
        r == !input_ids(ps.deep_view()).no_duplicates(),
{
    let ghost ids = input_ids(ps.deep_view());
    let mut i: usize = 1;
    while i < ps.len()
        invariant
            1 <= i <= ps.len() || ps.len() == 0,
            ids == input_ids(ps.deep_view()),
            forall|a: int, b: int| 0 <= b < a < i ==> ids[a] != ids[b],
        decreases ps.len() - i,
    {
        let mut j: usize = 0;
        while j < i
            invariant
                0 <= j <= i < ps.len(),
                ids == input_ids(ps.deep_view()),
                forall|a: int, b: int| 0 <= b < a < i ==> ids[a] != ids[b],
                forall|b: int| 0 <= b < j ==> ids[i as int] != ids[b],
            decreases i - j,
        {
            if ps[i].id == ps[j].id {
                proof {
                    assert(ids[i as int] == ids[j as int] && i != j);
                }
                return true;
            }
            j += 1;
        }
        i += 1;
    }
    false
}

/// The chips a seating list brings, or `None` when the total does not
/// fit the chip ledger.
pub fn total_stacks(ps: &Vec<PlayerInput>) -> (r: Option<u64>)
    ensures
        r matches Some(t) ==> t as int == sum_inputs(ps.deep_view()),
        r is None ==> sum_inputs(ps.deep_view()) > u64::MAX,
{
    let ghost s = ps.deep_view();
    proof {
        assert forall|k: int| 0 <= k < s.len() implies #[trigger] s[k].stack >= 0 by {}
    }
    let mut t: u64 = 0;
    let mut i: usize = 0;
    while i < ps.len()
        invariant
            i <= ps.len(),
            s == ps.deep_view(),
            forall|k: int| 0 <= k < s.len() ==> #[trigger] s[k].stack >= 0,
            t as int == sum_inputs(s.take(i as int)),
        decreases ps.len() - i,
    {
        let v = ps[i].stack;
        proof {
            lemma_sum_inputs_take_step(s, i as int);
        }
        if v > u64::MAX - t {
            proof {
                lemma_sum_inputs_take_le(s, (i + 1) as int);
            }
            return None;
        }
        t = t + v;
        i += 1;
    }
    proof {
        assert(s.take(s.len() as int) =~= s);
    }
    Some(t)
}

/// Stack total of a fresh hand's players: the seats' chips less the
/// two blinds that moved to the pot.
pub proof fn lemma_seeded_players_sum(ps: Seq<PlayerInputV>, hs: Seq<DealtSeatV>)
    requires
        ps.len() >= 2,
        hs.len() == ps.len(),
    ensures
        seeded_players(ps, hs).len() == ps.len(),
        sum_stacks(seeded_players(ps, hs)) == sum_inputs(ps) - SMALL_BLIND - BIG_BLIND,
    decreases ps.len(),
{
    let sp = seeded_players(ps, hs);
    if ps.len() == 2 {
        let s1 = sp.drop_last();
        let s0 = s1.drop_last();
        assert(s0 =~= Seq::<PlayerV>::empty());
        assert(sum_stacks(sp) == sum_stacks(s1) + sp[1].stack);
        assert(sum_stacks(s1) == sum_stacks(s0) + sp[0].stack);
        let i1 = ps.drop_last();
        let i0 = i1.drop_last();
        assert(i0 =~= Seq::<PlayerInputV>::empty());
        assert(sum_inputs(ps) == sum_inputs(i1) + ps[1].stack);
        assert(sum_inputs(i1) == sum_inputs(i0) + ps[0].stack);
    } else {
        assert(seeded_players(ps.drop_last(), hs.drop_last()) =~= sp.drop_last());
        lemma_seeded_players_sum(ps.drop_last(), hs.drop_last());
        assert(sum_stacks(sp) == sum_stacks(sp.drop_last()) + sp.last().stack);
        assert(sp.last().stack == ps.last().stack);
        assert(sum_inputs(ps) == sum_inputs(ps.drop_last()) + ps.last().stack);
    }
}

/// Seed a fresh hand from a seating list and a dealing-service result.
///
/// The first two seats post the blinds, the turn order is the
/// normalized seating order, the pot opens with the blinds, and one
/// player event per blind-posting seat is recorded.  A seating list a
/// hand cannot be started from is refused as an invalid action; a deal
/// result that does not cover the seating is a service error.
pub fn start_hand(input: DealInput, deal: DealResult) -> (r: Result<Hand, EngineError>)
    ensures
        (r matches Err(e) && e == EngineError::InvalidAction) <==> !seating_ok(input@.players),
        (r matches Err(e) && e == EngineError::ExternalServiceError) <==> (seating_ok(
            input@.players,
        ) && deal@.hands.len() != input@.players.len()),
        r is Ok <==> (seating_ok(input@.players) && deal@.hands.len() == input@.players.len()),
        r matches Ok(h) ==> ({
            let ps = input@.players;
            let hv = h.deep_view();
            &&& hv.id.len() == 36
            &&& hv.table_id == input@.table_id
            &&& hv.players == seeded_players(ps, deal@.hands)
            &&& hv.cards == deal@.board
            &&& hv.player_events.len() == 2
            &&& hv.player_events[0] == (PlayerEventV {
                player_id: ps[0].id,
                action: PlayerAction::Bet,
                amount: SMALL_BLIND as int,
                street_type: StreetType::Preflop,
                current_stack: ps[0].stack - SMALL_BLIND,
                current_pot: SMALL_BLIND as int,
            })
            &&& hv.player_events[1] == (PlayerEventV {
                player_id: ps[1].id,
                action: PlayerAction::Bet,
                amount: BIG_BLIND as int,
                street_type: StreetType::Preflop,
                current_stack: ps[1].stack - BIG_BLIND,
                current_pot: SMALL_BLIND + BIG_BLIND,
            })
            &&& hv.street_events.len() == 1
            &&& hv.street_events[0] == (StreetEventV {
                street_type: StreetType::Preflop,
                current_active_players: sort_order(build_active(ps)),
                pot: SMALL_BLIND + BIG_BLIND,
            })
            &&& hv.wf()
            &&& !hv.closed()
            &&& hv.chips() == sum_inputs(ps)
        }),
{
    let ghost ps = input.players.deep_view();
    let n = input.players.len();
    if n < 2 {
        return Err(EngineError::InvalidAction);
    }
    if has_duplicate_ids(&input.players) {
        return Err(EngineError::InvalidAction);
    }
    if input.players[0].stack < SMALL_BLIND {
        return Err(EngineError::InvalidAction);
    }
    if input.players[1].stack < BIG_BLIND {
        return Err(EngineError::InvalidAction);
    }
    if total_stacks(&input.players).is_none() {
        return Err(EngineError::InvalidAction);
    }
    if deal.hands.len() != n {
        return Err(EngineError::ExternalServiceError);
    }
    let ghost hs = deal.hands.deep_view();
    let mut players: Vec<Player> = Vec::new();
    let mut i: usize = 0;
    while i < n
        invariant
            i <= n,
            n == input.players@.len(),
            ps == input.players.deep_view(),
            hs == deal.hands.deep_view(),
            hs.len() == ps.len() == n,
            ps[0].stack >= SMALL_BLIND,
            ps[1].stack >= BIG_BLIND,
            players.deep_view() == seeded_players(ps, hs).take(i as int),
        decreases n - i,
    {
        let pin = &input.players[i];
        let seat = &deal.hands[i];
        let stack = if i == 0 {
            pin.stack - SMALL_BLIND
        } else if i == 1 {
            pin.stack - BIG_BLIND
        } else {
            pin.stack
        };
        let p = Player {
            id: pin.id.clone(),
            stack,
            cards: dup_string_list(&seat.cards),
            score: seat.score,
            description: seat.description.clone(),
        };
        proof {
            assert(p.deep_view() == seeded_players(ps, hs)[i as int]);
        }
        let ghost prev = players.deep_view();
        players.push(p);
        proof {
            assert(prev.len() == i as int);
            assert(players@.len() == prev.len() + 1);
            assert(players.deep_view() =~= seeded_players(ps, hs).take((i + 1) as int));
        }
        i += 1;
    }
    proof {
        assert(seeded_players(ps, hs).take(n as int) =~= seeded_players(ps, hs));
    }
    let pe0 = PlayerEvent {
        player_id: input.players[0].id.clone(),
        action: PlayerAction::Bet,
        amount: SMALL_BLIND,
        street_type: StreetType::Preflop,
        current_stack: input.players[0].stack - SMALL_BLIND,
        current_pot: SMALL_BLIND,
    };
    let pe1 = PlayerEvent {
        player_id: input.players[1].id.clone(),
        action: PlayerAction::Bet,
        amount: BIG_BLIND,
        street_type: StreetType::Preflop,
        current_stack: input.players[1].stack - BIG_BLIND,
        current_pot: SMALL_BLIND + BIG_BLIND,
    };
    let mut player_events: Vec<PlayerEvent> = Vec::new();
    player_events.push(pe0);
    player_events.push(pe1);
    let active = sort_active_players(input.players);
    let se = StreetEvent {
        street_type: StreetType::Preflop,
        current_active_players: active,
        pot: SMALL_BLIND + BIG_BLIND,
    };
    let mut street_events: Vec<StreetEvent> = Vec::new();
    street_events.push(se);
    let hand = Hand {
        id: fresh_hand_id(),
        table_id: input.table_id,
        players,
        cards: deal.board,
        player_events,
        street_events,
    };
    proof {
        lemma_start_hand_wf(hand.deep_view(), ps, hs);
    }
    Ok(hand)
}

/// The hand [`start_hand`] assembles is well formed, open for play, and
/// carries exactly the chips the seating brought.
proof fn lemma_start_hand_wf(hv: HandV, ps: Seq<PlayerInputV>, hs: Seq<DealtSeatV>)
    requires
        seating_ok(ps),
        hs.len() == ps.len(),
        hv.players == seeded_players(ps, hs),
        hv.player_events.len() == 2,
        hv.player_events[0].street_type == StreetType::Preflop,
        hv.player_events[1].street_type == StreetType::Preflop,
        hv.street_events.len() == 1,
        hv.street_events[0] == (StreetEventV {
            street_type: StreetType::Preflop,
            current_active_players: sort_order(build_active(ps)),
            pot: SMALL_BLIND + BIG_BLIND,
        }),
        forall|k: int| 0 <= k < hv.players.len() ==> (#[trigger] hv.players[k]).stack >= 0,
        forall|k: int| 0 <= k < hv.players.len() ==> (#[trigger] hv.players[k]).score >= 0,
        forall|k: int|
            0 <= k < hv.cur_street().current_active_players.len() ==> (
            #[trigger] hv.cur_street().current_active_players[k]).bet >= 0
                && hv.cur_street().current_active_players[k].stack >= 0,
    ensures
        hv.wf(),
        !hv.closed(),
        hv.chips() == sum_inputs(ps),
{
    let b = build_active(ps);
    let sorted = sort_order(b);
    lemma_build_active_tallies(ps);
    lemma_sort_order_tallies(b);
    lemma_build_active_ids(ps);
    lemma_sort_order_ids(b);
    lemma_ids_multiset_eq(active_ids(sorted), active_ids(b));
    lemma_seeded_players_sum(ps, hs);
    assert(player_ids(hv.players) =~= input_ids(ps));
    assert(active_ids(b) =~= input_ids(ps));
    assert(forall|id: Seq<char>|
        #[trigger] active_ids(sorted).contains(id) <==> player_ids(hv.players).contains(id));
    assert(hv.cur_street() == hv.street_events[0]);
    assert(sum_bets(sorted) == SMALL_BLIND + BIG_BLIND);
    assert(count_active(sorted) == ps.len());
    assert(hv.chips() == sum_stacks(hv.players) + (SMALL_BLIND + BIG_BLIND) as int);
    assert(hv.wf());
    // a fresh hand is open: at least two players are in it, and no one
    // has taken a voluntary turn on the opening street yet
    assert(count_active(sorted) >= 2);
    assert(forall|k: int|
        0 <= k < sorted.len() ==> !(#[trigger] sorted[k]).is_inactive) by {
        assert(forall|k: int| 0 <= k < b.len() ==> !(#[trigger] b[k]).is_inactive);
    }
    assert(!sorted[0].is_inactive);
    assert(!has_acted(hv.player_events, StreetType::Preflop, sorted[0].id));
    assert(!hv.street_settled());
    assert(!hv.closed());
}

/// The street dealt next.
pub fn next_street(st: StreetType) -> (r: StreetType)
    ensures
        r == street_after(st),
{
    match st {
        StreetType::Preflop => StreetType::Flop,
        StreetType::Flop => StreetType::Turn,
        StreetType::Turn => StreetType::River,
        StreetType::River => StreetType::Preflop,
    }
}

impl Hand {
    /// Whether the hand is over: one player left in it, or the river
    /// settled.  A closed hand takes no further action; it stays as a
    /// historical record, and play continues in its successor.
    pub fn is_closed(&self) -> (r: bool)
        requires
            self.deep_view().wf(),
        ensures
            r == self.deep_view().closed(),
    {
        let n_se = self.street_events.len();
        let list = &self.street_events[n_se - 1].current_active_players;
        let st = self.street_events[n_se - 1].street_type;
        let n_act = count_active_entries(list);
        if n_act <= 1 {
            proof {
                lemma_count_active_nonneg(self.deep_view().cur_street().current_active_players);
            }
            return true;
        }
        let settled = bets_equal(list) && all_acted(&self.player_events, st, list);
        settled && st == StreetType::River
    }
}

/// What [`apply_action`] hands back on success: the payload to
/// broadcast for a hand that goes on, or the winner and the rotated
/// seating for the next hand when this one ended.
#[derive(Debug)]
pub enum ActionOutcome {
    Updated { payload: HandEventPayload },
    Completed { winner_id: String, next_input: DealInput },
}

/// A seating list with the pot paid out: each seat keeps its stack,
/// and the seat whose id is the winner's gains the pot.
pub open spec fn paid_seating(ps: Seq<PlayerV>, winner: Seq<char>, pot: int) -> Seq<PlayerInputV> {
    Seq::new(
        ps.len(),
        |i: int|
            PlayerInputV {
                id: ps[i].id,
                stack: ps[i].stack + if ps[i].id == winner {
                    pot
                } else {
                    0
                },
            },
    )
}

/// The seating of the next hand: the button rotates — the first seat
/// moves to the back — and the winner's seat carries the pot.
pub open spec fn next_seating(players: Seq<PlayerV>, winner: Seq<char>, pot: int) -> Seq<
    PlayerInputV,
> {
    paid_seating(players.drop_first().push(players.first()), winner, pot)
}

/// Paying out to an id nobody holds changes no stack.
pub proof fn lemma_paid_seating_absent(ps: Seq<PlayerV>, winner: Seq<char>, pot: int)
    requires
        forall|k: int| 0 <= k < ps.len() ==> (#[trigger] ps[k]).id != winner,
    ensures
        sum_inputs(paid_seating(ps, winner, pot)) == sum_stacks(ps),
    decreases ps.len(),
{
    if ps.len() > 0 {
        assert(paid_seating(ps.drop_last(), winner, pot) =~= paid_seating(
            ps,
            winner,
            pot,
        ).drop_last());
        lemma_paid_seating_absent(ps.drop_last(), winner, pot);
    }
}

/// Paying out to an id exactly one seat holds adds exactly the pot.
pub proof fn lemma_paid_seating_present(ps: Seq<PlayerV>, winner: Seq<char>, pot: int)
    requires
        player_ids(ps).no_duplicates(),
        exists|k: int| 0 <= k < ps.len() && (#[trigger] ps[k]).id == winner,
    ensures
        sum_inputs(paid_seating(ps, winner, pot)) == sum_stacks(ps) + pot,
    decreases ps.len(),
{
    assert(paid_seating(ps.drop_last(), winner, pot) =~= paid_seating(ps, winner, pot).drop_last());
    assert(player_ids(ps.drop_last()) =~= player_ids(ps).take(ps.len() - 1));
    if ps.last().id == winner {
        assert forall|k: int| 0 <= k < ps.drop_last().len() implies (#[trigger] ps.drop_last()[k]).id
            != winner by {
            assert(player_ids(ps)[k] != player_ids(ps)[ps.len() - 1]);
        }
        lemma_paid_seating_absent(ps.drop_last(), winner, pot);
    } else {
        let k = choose|k: int| 0 <= k < ps.len() && (#[trigger] ps[k]).id == winner;
        assert(ps.drop_last()[k] == ps[k]);
        lemma_paid_seating_present(ps.drop_last(), winner, pot);
    }
}

/// Rotating the first seat to the back changes no tally of stacks.
pub proof fn lemma_rotate_first_sum(ps: Seq<PlayerV>)
    requires
        ps.len() >= 1,
    ensures
        sum_stacks(ps.drop_first().push(ps.first())) == sum_stacks(ps),
{
    assert(ps.drop_first() =~= ps.remove(0));
    crate::sums::lemma_sum_stacks_remove(ps, 0);
    lemma_sum_stacks_push(ps.remove(0), ps[0]);
}

/// Rotation changes neither whether the street bets are level nor
/// whether everyone still in has acted.
/// Where each entry of the rotated list comes from: positions before
/// the rotated entry keep theirs, later ones shift down by one, and the
/// rotated entry lands at the back.
pub open spec fn rot_src(len: int, i: int, j: int) -> int {
    if j < i {
        j
    } else if j < len - 1 {
        j + 1
    } else {
        i
    }
}

/// Where each original entry lands after the rotation.
pub open spec fn rot_dst(len: int, i: int, k: int) -> int {
    if k < i {
        k
    } else if k == i {
        len - 1
    } else {
        k - 1
    }
}

/// The pointwise content of a rotated list.
pub proof fn lemma_rotation_pointwise(base: Seq<ActivePlayerV>, i: int)
    requires
        0 <= i < base.len(),
    ensures
        base.remove(i).push(base[i]).len() == base.len(),
        forall|j: int|
            0 <= j < base.len() ==> #[trigger] base.remove(i).push(base[i])[j] == base[rot_src(
                base.len() as int,
                i,
                j,
            )],
        forall|k: int|
            0 <= k < base.len() ==> #[trigger] base[k] == base.remove(i).push(base[i])[rot_dst(
                base.len() as int,
                i,
                k,
            )],
{
    let r = base.remove(i).push(base[i]);
    assert forall|j: int| 0 <= j < base.len() implies #[trigger] r[j] == base[rot_src(
        base.len() as int,
        i,
        j,
    )] by {}
    assert forall|k: int| 0 <= k < base.len() implies #[trigger] base[k] == r[rot_dst(
        base.len() as int,
        i,
        k,
    )] by {}
}

/// Rotation changes neither whether the street bets are level nor
/// whether everyone still in has acted.
pub proof fn lemma_settled_rotation(
    pes: Seq<PlayerEventV>,
    st: StreetType,
    base: Seq<ActivePlayerV>,
    i: int,
)
    requires
        0 <= i < base.len(),
    ensures
        all_active_bets_equal(base.remove(i).push(base[i])) == all_active_bets_equal(base),
        all_have_acted(pes, st, base.remove(i).push(base[i])) == all_have_acted(pes, st, base),
{
    let n = base.len() as int;
    let r = base.remove(i).push(base[i]);
    lemma_rotation_pointwise(base, i);
    if all_active_bets_equal(base) {
        assert forall|p: int, q: int|
            0 <= p < r.len() && 0 <= q < r.len() && !r[p].is_inactive && !r[q].is_inactive implies
            r[p].bet == r[q].bet by {
            assert(r[p] == base[rot_src(n, i, p)]);
            assert(r[q] == base[rot_src(n, i, q)]);
        }
        assert(all_active_bets_equal(r));
    }
    if all_active_bets_equal(r) {
        assert forall|p: int, q: int|
            0 <= p < base.len() && 0 <= q < base.len() && !base[p].is_inactive
                && !base[q].is_inactive implies base[p].bet == base[q].bet by {
            assert(base[p] == r[rot_dst(n, i, p)]);
            assert(base[q] == r[rot_dst(n, i, q)]);
        }
        assert(all_active_bets_equal(base));
    }
    if all_have_acted(pes, st, base) {
        assert forall|j: int| 0 <= j < r.len() && !(#[trigger] r[j]).is_inactive implies has_acted(
            pes,
            st,
            r[j].id,
        ) by {
            assert(r[j] == base[rot_src(n, i, j)]);
        }
    }
    if all_have_acted(pes, st, r) {
        assert forall|k: int| 0 <= k < base.len() && !(#[trigger] base[k]).is_inactive implies
            has_acted(pes, st, base[k].id) by {
            assert(base[k] == r[rot_dst(n, i, k)]);
        }
    }
}

/// Opening a new street resets every bet and nothing else.
pub proof fn lemma_reset_bets_tallies(ps: Seq<ActivePlayerV>)
    ensures
        reset_bets(ps).len() == ps.len(),
        sum_bets(reset_bets(ps)) == 0,
        count_active(reset_bets(ps)) == count_active(ps),
    decreases ps.len(),
{
    if ps.len() > 0 {
        assert(reset_bets(ps.drop_last()) =~= reset_bets(ps).drop_last());
        lemma_reset_bets_tallies(ps.drop_last());
    }
}

/// A list with at least one active player has an active entry.
pub proof fn lemma_count_pos_exists(ps: Seq<ActivePlayerV>)
    requires
        count_active(ps) >= 1,
    ensures
        exists|k: int| 0 <= k < ps.len() && !(#[trigger] ps[k]).is_inactive,
    decreases ps.len(),
{
    if !ps.last().is_inactive {
        assert(!ps[ps.len() - 1].is_inactive);
    } else {
        lemma_count_pos_exists(ps.drop_last());
        let k = choose|k: int|
            0 <= k < ps.drop_last().len() && !(#[trigger] ps.drop_last()[k]).is_inactive;
        assert(!ps[k].is_inactive);
    }
}

/// No folded player of the acted-on street comes back in the list the
/// action produces, rotated or not.
pub proof fn lemma_step_inactive_monotone(
    cur: Seq<ActivePlayerV>,
    ai: int,
    act: PlayerAction,
    amt: int,
    settled: bool,
)
    requires
        0 <= ai < cur.len(),
        !cur[ai].is_inactive,
        active_ids(cur).no_duplicates(),
    ensures
        ({
            let upd = updated_list(cur, ai, act, amt);
            let base = if settled {
                reset_bets(upd)
            } else {
                upd
            };
            &&& inactive_monotone(cur, upd)
            &&& inactive_monotone(cur, base.remove(ai).push(base[ai]))
        }),
{
    let upd = updated_list(cur, ai, act, amt);
    let base = if settled {
        reset_bets(upd)
    } else {
        upd
    };
    let rot = base.remove(ai).push(base[ai]);
    assert(base.len() == cur.len());
    assert forall|k: int|
        0 <= k < base.len() implies (#[trigger] base[k]).id == cur[k].id && (base[k].is_inactive
        == (upd[k]).is_inactive) by {}
    assert forall|p: int, q: int|
        0 <= p < cur.len() && 0 <= q < upd.len() && (#[trigger] cur[p]).is_inactive && (
        #[trigger] upd[q]).id == cur[p].id implies upd[q].is_inactive by {
        assert(active_ids(cur)[q] == active_ids(cur)[p]);
        assert(q == p);
        assert(q != ai);
    }
    assert forall|i: int, j: int|
        0 <= i < cur.len() && 0 <= j < rot.len() && (#[trigger] cur[i]).is_inactive && (
        #[trigger] rot[j]).id == cur[i].id implies rot[j].is_inactive by {
        lemma_rotation_pointwise(base, ai);
        let k = rot_src(base.len() as int, ai, j);
        assert(rot[j] == base[k]);
        assert(active_ids(cur)[k] == active_ids(cur)[i]);
        assert(k == i);
        assert(k != ai);
    }
}

/// The player event one action records.
pub open spec fn acted_event(h0: HandV, pi: int, act: PlayerAction, amt: int) -> PlayerEventV {
    PlayerEventV {
        player_id: h0.players[pi].id,
        action: act,
        amount: amt,
        street_type: h0.cur_street().street_type,
        current_stack: h0.players[pi].stack - amt,
        current_pot: pot_after(h0.cur_street().pot, act, amt),
    }
}

/// The turn-order list after one action's bet and fold marking.
pub open spec fn acted_upd(h0: HandV, ai: int, act: PlayerAction, amt: int) -> Seq<ActivePlayerV> {
    updated_list(h0.cur_street().current_active_players, ai, act, amt)
}

/// Whether the action settles the street: every player still in has
/// matched the level street bet and has taken a turn on it.
pub open spec fn acted_settled(h0: HandV, pi: int, ai: int, act: PlayerAction, amt: int) -> bool {
    &&& all_active_bets_equal(acted_upd(h0, ai, act, amt))
    &&& all_have_acted(
        h0.player_events.push(acted_event(h0, pi, act, amt)),
        h0.cur_street().street_type,
        acted_upd(h0, ai, act, amt),
    )
}

/// Whether the action ends the hand: one player left in it, or the
/// river settles and the street order would wrap.
pub open spec fn acted_over(h0: HandV, pi: int, ai: int, act: PlayerAction, amt: int) -> bool {
    ||| count_active(acted_upd(h0, ai, act, amt)) == 1
    ||| (acted_settled(h0, pi, ai, act, amt) && h0.cur_street().street_type == StreetType::River)
}

/// The snapshot a non-terminating action opens: the next street with
/// bets reset when the street settled, else the same street; either
/// way the actor rotates to the back and the pot carries forward.
pub open spec fn opened_street(
    h0: HandV,
    pi: int,
    ai: int,
    act: PlayerAction,
    amt: int,
) -> StreetEventV {
    let settled = acted_settled(h0, pi, ai, act, amt);
    let upd = acted_upd(h0, ai, act, amt);
    let base = if settled {
        reset_bets(upd)
    } else {
        upd
    };
    StreetEventV {
        street_type: if settled {
            street_after(h0.cur_street().street_type)
        } else {
            h0.cur_street().street_type
        },
        current_active_players: base.remove(ai).push(base[ai]),
        pot: pot_after(h0.cur_street().pot, act, amt),
    }
}

/// The final snapshot a terminating action records: the same street
/// with the action's bet and fold marking applied.
pub open spec fn closing_street(h0: HandV, ai: int, act: PlayerAction, amt: int) -> StreetEventV {
    StreetEventV {
        street_type: h0.cur_street().street_type,
        current_active_players: acted_upd(h0, ai, act, amt),
        pot: pot_after(h0.cur_street().pot, act, amt),
    }
}

/// Everything one successful action does to a hand, and what it hands
/// back.  `pi` and `ai` locate the actor among the players and in the
/// current turn order.
pub open spec fn action_applied(
    h0: HandV,
    h1: HandV,
    pi: int,
    ai: int,
    act: PlayerAction,
    amt: int,
    out: ActionOutcome,
) -> bool {
    let ev = acted_event(h0, pi, act, amt);
    let upd = acted_upd(h0, ai, act, amt);
    let pot1 = pot_after(h0.cur_street().pot, act, amt);
    &&& h1.id == h0.id
    &&& h1.table_id == h0.table_id
    &&& h1.cards == h0.cards
    &&& h1.players == h0.players.update(
        pi,
        (PlayerV { stack: h0.players[pi].stack - amt, ..h0.players[pi] }),
    )
    &&& h1.player_events == h0.player_events.push(ev)
    &&& h0.player_events.is_prefix_of(h1.player_events)
    &&& h0.street_events.is_prefix_of(h1.street_events)
    &&& h1.wf()
    &&& (act == PlayerAction::Fold ==> count_active(h1.cur_street().current_active_players)
        == count_active(h0.cur_street().current_active_players) - 1)
    &&& if acted_over(h0, pi, ai, act, amt) {
        &&& h1.street_events == h0.street_events.push(closing_street(h0, ai, act, amt))
        &&& h1.closed()
        &&& out matches ActionOutcome::Completed { winner_id, next_input } && (exists|wi: int|
            is_winner_idx(upd, h1.players, wi) && winner_id@ == upd[wi].id) && (forall|wi: int|
            is_winner_idx(upd, h1.players, wi) ==> next_input@.players == next_seating(
                h1.players,
                upd[wi].id,
                pot1,
            )) && next_input@.table_id == h0.table_id && sum_inputs(next_input@.players)
            == h0.chips()
    } else {
        &&& h1.street_events == h0.street_events.push(opened_street(h0, pi, ai, act, amt))
        &&& !h1.closed()
        &&& h1.chips() == h0.chips()
        &&& h1.cur_street().current_active_players.last().id == h0.players[pi].id
        &&& out matches ActionOutcome::Updated { payload } && payload@ == (HandEventPayloadV {
            mutation_type: MutationType::Updated,
            hand_id: h0.id,
            street_event: Some(opened_street(h0, pi, ai, act, amt)),
            player_event: Some(ev),
            cards: Option::None,
        })
    }
}

/// The rotated seating for the next hand, with the pot paid out to the
/// winner's seat.
fn build_next_seating(players: &Vec<Player>, winner_id: &String, pot: u64) -> (r: Vec<PlayerInput>)
    requires
        players.deep_view().len() >= 1,
        sum_stacks(players.deep_view()) + pot <= u64::MAX,
    ensures
        r.deep_view() == next_seating(players.deep_view(), winner_id@, pot as int),
{
    let ghost ps = players.deep_view();
    let ghost rotated = ps.drop_first().push(ps.first());
    let ghost target = next_seating(ps, winner_id@, pot as int);
    proof {
        assert forall|k: int| 0 <= k < ps.len() implies #[trigger] ps[k].stack >= 0 by {}
        assert forall|k: int| 0 <= k < rotated.len() implies #[trigger] rotated[k].stack >= 0 by {
            if k < ps.len() - 1 {
                assert(rotated[k] == ps[k + 1]);
            } else {
                assert(rotated[k] == ps[0]);
            }
        }
        lemma_rotate_first_sum(ps);
    }
    let n = players.len();
    let mut r: Vec<PlayerInput> = Vec::new();
    let mut i: usize = 0;
    while i < n
        invariant
            i <= n,
            n == players@.len(),
            ps == players.deep_view(),
            rotated == ps.drop_first().push(ps.first()),
            target == next_seating(ps, winner_id@, pot as int),
            sum_stacks(rotated) + pot <= u64::MAX,
            forall|k: int| 0 <= k < rotated.len() ==> #[trigger] rotated[k].stack >= 0,
            r.deep_view() == target.take(i as int),
        decreases n - i,
    {
        let src = if i + 1 < n {
            i + 1
        } else {
            0
        };
        let p = &players[src];
        proof {
            assert(rotated[i as int] == ps[src as int]);
            lemma_stack_le_sum(rotated, i as int);
        }
        let stack = if p.id == *winner_id {
            p.stack + pot
        } else {
            p.stack
        };
        let seat = PlayerInput { id: p.id.clone(), stack };
        proof {
            assert(seat.deep_view() == target[i as int]);
        }
        let ghost prev = r.deep_view();
        r.push(seat);
        proof {
            assert(prev.len() == i as int);
            assert(r@.len() == prev.len() + 1);
            assert(r.deep_view() =~= target.take((i + 1) as int));
        }
        i += 1;
    }
    proof {
        assert(target.take(target.len() as int) =~= target);
    }
    r
}

/// A copy of the order with every street bet cleared.
fn reset_street_bets(list: Vec<ActivePlayer>) -> (r: Vec<ActivePlayer>)
    ensures
        r.deep_view() == reset_bets(list.deep_view()),
{
    let ghost a = list.deep_view();
    let ghost target = reset_bets(a);
    let mut r: Vec<ActivePlayer> = Vec::new();
    let mut i: usize = 0;
    while i < list.len()
        invariant
            i <= list.len(),
            a == list.deep_view(),
            target == reset_bets(a),
            r.deep_view() == target.take(i as int),
        decreases list.len() - i,
    {
        let e = &list[i];
        let c = ActivePlayer {
            id: e.id.clone(),
            bet: 0,
            stack: e.stack,
            is_inactive: e.is_inactive,
            is_big_blind: e.is_big_blind,
        };
        proof {
            assert(c.deep_view() == target[i as int]);
        }
        let ghost prev = r.deep_view();
        r.push(c);
        proof {
            assert(prev.len() == i as int);
            assert(r@.len() == prev.len() + 1);
            assert(r.deep_view() =~= target.take((i + 1) as int));
        }
        i += 1;
    }
    proof {
        assert(target.take(target.len() as int) =~= target);
    }
    r
}

/// Apply one player action to a live hand: the single entry point of
/// turn play.
///
/// The actor's stack moves by the bet amount, a player event is
/// appended, the turn order is updated, and exactly one new street
/// snapshot is appended.  If the hand goes on, the outcome carries the
/// payload to broadcast; if it ended, the outcome names the winner and
/// the rotated seating — with the pot paid to the winner's seat — from
/// which the caller seeds the next hand.
///
/// An unknown actor is refused without any change, as is an action by
/// a folded player, a bet above the actor's stack, or a check or fold
/// that carries chips.
#[verifier::rlimit(100)]
pub fn apply_action(
    hand: &mut Hand,
    player_id: &String,
    action: PlayerAction,
    amount: u64,
) -> (r: Result<ActionOutcome, EngineError>)
    requires
        old(hand).deep_view().wf(),
        !old(hand).deep_view().closed(),
    ensures
        (r matches Err(e) && e == EngineError::PlayerNotFound) <==> !has_player(
            old(hand).deep_view().players,
            player_id@,
        ),
        r matches Err(e) ==> ((e == EngineError::PlayerNotFound || e == EngineError::InvalidAction)
            && final(hand).deep_view() == old(hand).deep_view()),
        forall|pi: int, ai: int|
            is_first_player_match(old(hand).deep_view().players, player_id@, pi) && is_first_match(
                old(hand).deep_view().cur_street().current_active_players,
                player_id@,
                ai,
            ) ==> ({
                &&& ((r matches Err(e) && e == EngineError::InvalidAction) <==> action_rejected(
                    old(hand).deep_view(),
                    pi,
                    ai,
                    action,
                    amount as int,
                ))
                &&& (r matches Ok(out) ==> action_applied(
                    old(hand).deep_view(),
                    final(hand).deep_view(),
                    pi,
                    ai,
                    action,
                    amount as int,
                    out,
                ))
            }),
{
    let ghost h0 = hand.deep_view();
    let pi = match find_player(&hand.players, player_id) {
        Some(i) => i,
        None => {
            return Err(EngineError::PlayerNotFound);
        },
    };
    proof {
        assert(h0.players[pi as int].id == player_id@);
        assert(has_player(h0.players, player_id@));
        assert(h0.street_events.len() >= 1);
    }
    let n_se = hand.street_events.len();
    let ghost curp = h0.cur_street().current_active_players;
    let ai = match find_active(&hand.street_events[n_se - 1].current_active_players, player_id) {
        Some(i) => i,
        None => {
            proof {
                // the actor is seated, so the order holds an entry for them
                assert(player_ids(h0.players)[pi as int] == player_id@);
                assert(player_ids(h0.players).contains(player_id@));
                assert(active_ids(curp).contains(player_id@));
                let j = choose|j: int|
                    0 <= j < active_ids(curp).len() && active_ids(curp)[j] == player_id@;
                assert(curp[j].id == player_id@);
                assert(false);
            }
            return Err(EngineError::PlayerNotFound);
        },
    };
    proof {
        assert(is_first_match(curp, player_id@, ai as int));
        assert forall|pi2: int, ai2: int|
            is_first_player_match(h0.players, player_id@, pi2) && is_first_match(
                curp,
                player_id@,
                ai2,
            ) implies (pi2 == pi as int && ai2 == ai as int) by {}
    }
    let actor_folded = hand.street_events[n_se - 1].current_active_players[ai].is_inactive;
    let st = hand.street_events[n_se - 1].street_type;
    let pot0 = hand.street_events[n_se - 1].pot;
    let p_stack = hand.players[pi].stack;
    if actor_folded {
        return Err(EngineError::InvalidAction);
    }
    if action == PlayerAction::Bet {
        if amount > p_stack {
            return Err(EngineError::InvalidAction);
        }
    } else {
        if amount != 0 {
            return Err(EngineError::InvalidAction);
        }
    }
    proof {
        // the new bet and the new pot stay within the chip ledger
        lemma_bet_le_sum(curp, ai as int);
        lemma_stack_le_sum(h0.players, pi as int);
        assert(curp[ai as int].bet + amount <= u64::MAX);
        assert(h0.cur_street().pot + amount <= u64::MAX);
    }
    let pot1 = if action == PlayerAction::Bet {
        pot0 + amount
    } else {
        pot0
    };
    let new_stack = p_stack - amount;
    let mut p = hand.players.remove(pi);
    p.stack = new_stack;
    hand.players.insert(pi, p);
    proof {
        assert(hand.players.deep_view() =~= h0.players.update(
            pi as int,
            (PlayerV { stack: h0.players[pi as int].stack - amount, ..h0.players[pi as int] }),
        ));
    }
    let ghost evv = acted_event(h0, pi as int, action, amount as int);
    let ev = PlayerEvent {
        player_id: player_id.clone(),
        action: action,
        amount: amount,
        street_type: st,
        current_stack: new_stack,
        current_pot: pot1,
    };
    proof {
        assert(ev.deep_view() == evv);
    }
    let ev_out = dup_player_event(&ev);
    let ghost pe_prev = hand.player_events.deep_view();
    hand.player_events.push(ev);
    proof {
        assert(pe_prev == h0.player_events);
        assert(hand.player_events@.len() == pe_prev.len() + 1);
        assert(hand.player_events.deep_view() =~= h0.player_events.push(evv));
    }
    let ghost upd = acted_upd(h0, ai as int, action, amount as int);
    let mut list = dup_active_list(&hand.street_events[n_se - 1].current_active_players);
    proof {
        assert(list.deep_view() == curp);
        assert(list@.len() == curp.len());
    }
    let mut e = list.remove(ai);
    e.bet = e.bet + amount;
    if action == PlayerAction::Fold {
        e.is_inactive = true;
    }
    list.insert(ai, e);
    proof {
        assert(e.deep_view() == updated_entry(curp[ai as int], action, amount as int));
        assert(list.deep_view() =~= upd);
    }
    let settled = bets_equal(&list) && all_acted(&hand.player_events, st, &list);
    let n_act = count_active_entries(&list);
    let game_over = n_act == 1 || (settled && st == StreetType::River);
    proof {
        assert(settled == acted_settled(h0, pi as int, ai as int, action, amount as int));
        assert(game_over == acted_over(h0, pi as int, ai as int, action, amount as int));
        assert(action_setting(h0, pi as int, ai as int, action, amount as int));
    }
    if !game_over {
        let nst = if settled {
            next_street(st)
        } else {
            st
        };
        let ghost base = if settled {
            reset_bets(upd)
        } else {
            upd
        };
        let base_vec = if settled {
            reset_street_bets(list)
        } else {
            list
        };
        proof {
            assert(base_vec.deep_view() == base);
            assert(base.len() == upd.len() == curp.len());
            assert forall|k: int| 0 <= k < base.len() implies (#[trigger] base[k]).id
                == curp[k].id by {}
            assert(base[ai as int].id == player_id@);
            assert(is_first_match(base, player_id@, ai as int));
        }
        let rotated = advance(base_vec, player_id);
        let ghost sev = opened_street(h0, pi as int, ai as int, action, amount as int);
        proof {
            assert(rotated.deep_view() == base.remove(ai as int).push(base[ai as int]));
        }
        let se = StreetEvent { street_type: nst, current_active_players: rotated, pot: pot1 };
        proof {
            assert(se.deep_view() == sev);
        }
        let se_out = dup_street_event(&se);
        let ghost se_prev = hand.street_events.deep_view();
        hand.street_events.push(se);
        proof {
            assert(se_prev == h0.street_events);
            assert(hand.street_events@.len() == se_prev.len() + 1);
            assert(hand.street_events.deep_view() =~= h0.street_events.push(sev));
        }
        let payload = HandEventPayload {
            mutation_type: MutationType::Updated,
            hand_id: hand.id.clone(),
            street_event: Some(se_out),
            player_event: Some(ev_out),
            cards: None,
        };
        let outcome = ActionOutcome::Updated { payload };
        proof {
            lemma_apply_wf_updated(
                h0,
                hand.deep_view(),
                pi as int,
                ai as int,
                action,
                amount as int,
            );
            assert(h0.player_events.is_prefix_of(hand.deep_view().player_events)) by {
                assert(h0.player_events =~= hand.deep_view().player_events.take(
                    h0.player_events.len() as int,
                ));
            }
            assert(h0.street_events.is_prefix_of(hand.deep_view().street_events)) by {
                assert(h0.street_events =~= hand.deep_view().street_events.take(
                    h0.street_events.len() as int,
                ));
            }
            assert(action_applied(
                h0,
                hand.deep_view(),
                pi as int,
                ai as int,
                action,
                amount as int,
                outcome,
            ));
        }
        Ok(outcome)
    } else {
        proof {
            lemma_count_active_update(
                curp,
                ai as int,
                updated_entry(curp[ai as int], action, amount as int),
            );
            assert(count_active(curp) >= 2);
            assert(count_active(upd) >= 1);
            // the pot paid on top of the remaining stacks fits the ledger
            lemma_sum_stacks_update(
                h0.players,
                pi as int,
                (PlayerV { stack: h0.players[pi as int].stack - amount, ..h0.players[pi as int] }),
            );
            assert(sum_stacks(hand.players.deep_view()) + pot1 <= u64::MAX);
            assert(hand.players.deep_view().len() >= 1);
        }
        let w = resolve(&list, &hand.players);
        let winner_id = list[w].id.clone();
        let next_players = build_next_seating(&hand.players, &winner_id, pot1);
        let next_input = DealInput { table_id: hand.table_id.clone(), players: next_players };
        let ghost h1players = hand.players.deep_view();
        let se = StreetEvent { street_type: st, current_active_players: list, pot: pot1 };
        let ghost sev = closing_street(h0, ai as int, action, amount as int);
        proof {
            assert(se.deep_view() == sev);
        }
        let ghost se_prev = hand.street_events.deep_view();
        hand.street_events.push(se);
        let outcome = ActionOutcome::Completed { winner_id, next_input };
        proof {
            assert(se_prev == h0.street_events);
            assert(hand.street_events@.len() == se_prev.len() + 1);
            assert(hand.street_events.deep_view() =~= h0.street_events.push(sev));
            lemma_apply_wf_completed(
                h0,
                hand.deep_view(),
                pi as int,
                ai as int,
                action,
                amount as int,
            );
            assert(h0.player_events.is_prefix_of(hand.deep_view().player_events)) by {
                assert(h0.player_events =~= hand.deep_view().player_events.take(
                    h0.player_events.len() as int,
                ));
            }
            assert(h0.street_events.is_prefix_of(hand.deep_view().street_events)) by {
                assert(h0.street_events =~= hand.deep_view().street_events.take(
                    h0.street_events.len() as int,
                ));
            }
            lemma_apply_completed_outcome(
                h0,
                hand.deep_view(),
                pi as int,
                ai as int,
                action,
                amount as int,
                outcome,
                w as int,
            );
            assert(action_applied(
                h0,
                hand.deep_view(),
                pi as int,
                ai as int,
                action,
                amount as int,
                outcome,
            ));
        }
        Ok(outcome)
    }
}

/// Shared premises of the two preservation lemmas: a live well-formed
/// hand, the actor located and still in the hand, and an amount the
/// action may carry.
pub open spec fn action_setting(h0: HandV, pi: int, ai: int, act: PlayerAction, amt: int) -> bool {
    &&& h0.wf()
    &&& !h0.closed()
    &&& 0 <= pi < h0.players.len()
    &&& 0 <= ai < h0.cur_street().current_active_players.len()
    &&& h0.cur_street().current_active_players[ai].id == h0.players[pi].id
    &&& !h0.cur_street().current_active_players[ai].is_inactive
    &&& (act == PlayerAction::Bet ==> 0 <= amt <= h0.players[pi].stack)
    &&& (act != PlayerAction::Bet ==> amt == 0)
}

/// A non-terminating action leaves a well-formed, still-open hand with
/// the same chips on the table and the actor at the back of the order.
proof fn lemma_apply_wf_updated(h0: HandV, h1: HandV, pi: int, ai: int, act: PlayerAction, amt: int)
    requires
        action_setting(h0, pi, ai, act, amt),
        !acted_over(h0, pi, ai, act, amt),
        h1.id == h0.id,
        h1.table_id == h0.table_id,
        h1.cards == h0.cards,
        h1.players == h0.players.update(
            pi,
            (PlayerV { stack: h0.players[pi].stack - amt, ..h0.players[pi] }),
        ),
        h1.player_events == h0.player_events.push(acted_event(h0, pi, act, amt)),
        h1.street_events == h0.street_events.push(opened_street(h0, pi, ai, act, amt)),
    ensures
        h1.wf(),
        !h1.closed(),
        h1.chips() == h0.chips(),
        act == PlayerAction::Fold ==> count_active(h1.cur_street().current_active_players)
            == count_active(h0.cur_street().current_active_players) - 1,
        h1.cur_street().current_active_players.last().id == h0.players[pi].id,
{
    let curp = h0.cur_street().current_active_players;
    let st = h0.cur_street().street_type;
    let ev = acted_event(h0, pi, act, amt);
    let pes1 = h0.player_events.push(ev);
    let upd = acted_upd(h0, ai, act, amt);
    let settled = acted_settled(h0, pi, ai, act, amt);
    let base = if settled {
        reset_bets(upd)
    } else {
        upd
    };
    let rot = base.remove(ai).push(base[ai]);
    let se = opened_street(h0, pi, ai, act, amt);
    let nst = se.street_type;
    let pot1 = pot_after(h0.cur_street().pot, act, amt);
    let n = curp.len() as int;
    assert(h1.cur_street() == se);
    assert(h1.street_events[0] == h0.street_events[0]);
    assert(h1.player_events[0] == h0.player_events[0]);
    assert(h1.player_events[1] == h0.player_events[1]);
    // tallies
    lemma_count_active_update(curp, ai, updated_entry(curp[ai], act, amt));
    lemma_sum_bets_update(curp, ai, updated_entry(curp[ai], act, amt));
    lemma_reset_bets_tallies(upd);
    assert(base.len() == n);
    lemma_rotation_preserves_tallies(base, ai);
    lemma_rotation_pointwise(base, ai);
    lemma_sum_stacks_update(
        h0.players,
        pi,
        (PlayerV { stack: h0.players[pi].stack - amt, ..h0.players[pi] }),
    );
    lemma_count_active_nonneg(upd);
    // the street either stays or advances by one
    if settled {
        assert(st != StreetType::River);
        assert(street_num(nst) == street_num(st) + 1);
    }
    // ids are a permutation of the old order's
    assert(active_ids(upd) =~= active_ids(curp));
    assert(active_ids(base) =~= active_ids(upd));
    assert(active_ids(rot) =~= active_ids(base).remove(ai).push(active_ids(base)[ai]));
    lemma_rotate_multiset(active_ids(base), ai);
    lemma_ids_multiset_eq(active_ids(rot), active_ids(curp));
    assert(player_ids(h1.players) =~= player_ids(h0.players));
    // entry bounds carry over pointwise
    assert forall|k: int| 0 <= k < n implies (#[trigger] rot[k]).bet >= 0 && rot[k].stack >= 0 by {
        assert(rot[k] == base[rot_src(n, ai, k)]);
    }
    // the pot covers the street bets
    if settled {
        assert(sum_bets(rot) == 0);
        crate::sums::lemma_sum_bets_nonneg(curp);
        assert(pot1 >= 0);
    } else {
        assert(sum_bets(rot) == sum_bets(curp) + amt);
    }
    // chip conservation
    assert(sum_stacks(h1.players) == sum_stacks(h0.players) - amt);
    assert(h1.chips() == h0.chips());
    // at least two players remain in the hand
    assert(count_active(curp) >= 2);
    assert(count_active(upd) >= 1);
    assert(count_active(upd) != 1);
    assert(count_active(rot) >= 2);
    // no folded player re-enters
    lemma_step_inactive_monotone(curp, ai, act, amt, settled);
    assert(street_step(h0.street_events[h0.street_events.len() - 1], se));
    assert forall|k: int|
        0 <= k < h1.street_events.len() - 1 implies street_step(
        #[trigger] h1.street_events[k],
        h1.street_events[k + 1],
    ) by {
        if k < h0.street_events.len() - 1 {
            assert(h1.street_events[k] == h0.street_events[k]);
            assert(h1.street_events[k + 1] == h0.street_events[k + 1]);
            assert(street_step(h0.street_events[k], h0.street_events[k + 1]));
        } else {
            assert(h1.street_events[k] == h0.street_events[h0.street_events.len() - 1]);
            assert(h1.street_events[k + 1] == se);
        }
    }
    assert forall|k: int|
        0 <= k < h1.player_events.len() implies street_num(
        (#[trigger] h1.player_events[k]).street_type,
    ) <= street_num(nst) by {
        if k < h0.player_events.len() {
            assert(h1.player_events[k] == h0.player_events[k]);
        } else {
            assert(h1.player_events[k] == ev);
        }
    }
    assert(h1.wf());
    // the hand stays open
    if settled {
        lemma_count_pos_exists(rot);
        let k = choose|k: int| 0 <= k < rot.len() && !(#[trigger] rot[k]).is_inactive;
        assert forall|j: int|
            2 <= j < pes1.len() implies !((#[trigger] pes1[j]).street_type == nst
            && pes1[j].player_id == rot[k].id) by {
            if j < h0.player_events.len() {
                assert(pes1[j] == h0.player_events[j]);
                assert(street_num(h0.player_events[j].street_type) <= street_num(st));
            } else {
                assert(pes1[j] == ev);
            }
        }
        assert(!has_acted(pes1, nst, rot[k].id));
        assert(!h1.street_settled());
    } else {
        lemma_settled_rotation(pes1, st, base, ai);
        assert(!h1.street_settled());
    }
    assert(!h1.closed());
    assert(rot.last() == base[ai]);
}

/// A terminating action leaves a well-formed, closed hand whose final
/// snapshot records the action, with the chips accounted for.
proof fn lemma_apply_wf_completed(
    h0: HandV,
    h1: HandV,
    pi: int,
    ai: int,
    act: PlayerAction,
    amt: int,
)
    requires
        action_setting(h0, pi, ai, act, amt),
        acted_over(h0, pi, ai, act, amt),
        h1.id == h0.id,
        h1.table_id == h0.table_id,
        h1.cards == h0.cards,
        h1.players == h0.players.update(
            pi,
            (PlayerV { stack: h0.players[pi].stack - amt, ..h0.players[pi] }),
        ),
        h1.player_events == h0.player_events.push(acted_event(h0, pi, act, amt)),
        h1.street_events == h0.street_events.push(closing_street(h0, ai, act, amt)),
    ensures
        h1.wf(),
        h1.closed(),
        sum_stacks(h1.players) + pot_after(h0.cur_street().pot, act, amt) == h0.chips(),
        act == PlayerAction::Fold ==> count_active(h1.cur_street().current_active_players)
            == count_active(h0.cur_street().current_active_players) - 1,
        count_active(acted_upd(h0, ai, act, amt)) >= 1,
{
    let curp = h0.cur_street().current_active_players;
    let st = h0.cur_street().street_type;
    let ev = acted_event(h0, pi, act, amt);
    let pes1 = h0.player_events.push(ev);
    let upd = acted_upd(h0, ai, act, amt);
    let se = closing_street(h0, ai, act, amt);
    let pot1 = pot_after(h0.cur_street().pot, act, amt);
    assert(h1.cur_street() == se);
    assert(h1.street_events[0] == h0.street_events[0]);
    assert(h1.player_events[0] == h0.player_events[0]);
    assert(h1.player_events[1] == h0.player_events[1]);
    lemma_count_active_update(curp, ai, updated_entry(curp[ai], act, amt));
    lemma_sum_bets_update(curp, ai, updated_entry(curp[ai], act, amt));
    lemma_sum_stacks_update(
        h0.players,
        pi,
        (PlayerV { stack: h0.players[pi].stack - amt, ..h0.players[pi] }),
    );
    assert(active_ids(upd) =~= active_ids(curp));
    assert(player_ids(h1.players) =~= player_ids(h0.players));
    assert(sum_bets(upd) == sum_bets(curp) + amt);
    assert(sum_stacks(h1.players) == sum_stacks(h0.players) - amt);
    assert(count_active(curp) >= 2);
    assert(count_active(upd) >= 1);
    lemma_step_inactive_monotone(curp, ai, act, amt, false);
    assert(street_step(h0.street_events[h0.street_events.len() - 1], se));
    assert forall|k: int|
        0 <= k < h1.street_events.len() - 1 implies street_step(
        #[trigger] h1.street_events[k],
        h1.street_events[k + 1],
    ) by {
        if k < h0.street_events.len() - 1 {
            assert(h1.street_events[k] == h0.street_events[k]);
            assert(h1.street_events[k + 1] == h0.street_events[k + 1]);
            assert(street_step(h0.street_events[k], h0.street_events[k + 1]));
        } else {
            assert(h1.street_events[k] == h0.street_events[h0.street_events.len() - 1]);
            assert(h1.street_events[k + 1] == se);
        }
    }
    assert forall|k: int|
        0 <= k < h1.player_events.len() implies street_num(
        (#[trigger] h1.player_events[k]).street_type,
    ) <= street_num(st) by {
        if k < h0.player_events.len() {
            assert(h1.player_events[k] == h0.player_events[k]);
        } else {
            assert(h1.player_events[k] == ev);
        }
    }
    assert(h1.wf());
    if count_active(upd) == 1 {
        assert(h1.closed());
    } else {
        assert(acted_settled(h0, pi, ai, act, amt) && st == StreetType::River);
        assert(h1.street_settled());
        assert(h1.closed());
    }
}

/// What a terminating action hands back is exactly what the contract
/// promises: the winner is the resolved position, and the next seating
/// carries every chip of the closed hand.
proof fn lemma_apply_completed_outcome(
    h0: HandV,
    h1: HandV,
    pi: int,
    ai: int,
    act: PlayerAction,
    amt: int,
    out: ActionOutcome,
    w: int,
)
    requires
        action_setting(h0, pi, ai, act, amt),
        h1.players == h0.players.update(
            pi,
            (PlayerV { stack: h0.players[pi].stack - amt, ..h0.players[pi] }),
        ),
        is_winner_idx(acted_upd(h0, ai, act, amt), h1.players, w),
        sum_stacks(h1.players) + pot_after(h0.cur_street().pot, act, amt) == h0.chips(),
        out matches ActionOutcome::Completed { winner_id, next_input } && winner_id@ == acted_upd(
            h0,
            ai,
            act,
            amt,
        )[w].id && next_input@.players == next_seating(
            h1.players,
            winner_id@,
            pot_after(h0.cur_street().pot, act, amt),
        ) && next_input@.table_id == h0.table_id,
    ensures
        out matches ActionOutcome::Completed { winner_id, next_input } && (exists|wi: int|
            is_winner_idx(acted_upd(h0, ai, act, amt), h1.players, wi) && winner_id@ == acted_upd(
                h0,
                ai,
                act,
                amt,
            )[wi].id) && (forall|wi: int|
            is_winner_idx(acted_upd(h0, ai, act, amt), h1.players, wi) ==> next_input@.players
                == next_seating(
                h1.players,
                acted_upd(h0, ai, act, amt)[wi].id,
                pot_after(h0.cur_street().pot, act, amt),
            )) && next_input@.table_id == h0.table_id && sum_inputs(next_input@.players)
            == h0.chips(),
{
    let curp = h0.cur_street().current_active_players;
    let upd = acted_upd(h0, ai, act, amt);
    let pot1 = pot_after(h0.cur_street().pot, act, amt);
    let winner = upd[w].id;
    assert forall|wi: int| is_winner_idx(upd, h1.players, wi) implies wi == w by {
        crate::winner::lemma_winner_unique(upd, h1.players, wi, w);
    }
    // the winner holds a seat
    assert(active_ids(upd) =~= active_ids(curp));
    assert(active_ids(curp)[w] == winner);
    assert(active_ids(curp).contains(winner));
    assert(player_ids(h0.players).contains(winner));
    let i = choose|i: int|
        0 <= i < player_ids(h0.players).len() && player_ids(h0.players)[i] == winner;
    assert(h1.players[i].id == winner);
    lemma_count_active_nonneg(curp);
    assert(h1.players.len() >= 2);
    let rot1 = h1.players.drop_first().push(h1.players.first());
    if i == 0 {
        assert(rot1[h1.players.len() - 1].id == winner);
    } else {
        assert(rot1[i - 1] == h1.players[i]);
    }
    assert(exists|k: int| 0 <= k < rot1.len() && (#[trigger] rot1[k]).id == winner);
    // the rotated seating keeps every seat exactly once
    assert(player_ids(h1.players) =~= player_ids(h0.players));
    assert(player_ids(rot1) =~= player_ids(h1.players).remove(0).push(player_ids(h1.players)[0]));
    lemma_rotate_multiset(player_ids(h1.players), 0);
    lemma_ids_multiset_eq(player_ids(rot1), player_ids(h1.players));
    lemma_rotate_first_sum(h1.players);
    lemma_paid_seating_present(rot1, winner, pot1);
    assert(sum_inputs(next_seating(h1.players, winner, pot1)) == sum_stacks(h1.players) + pot1);
}

} // verus!

