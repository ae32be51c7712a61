//! Turn-order utilities: building the initial active-player order from a
//! seating list, normalizing it so the blind seats act last, advancing
//! the turn pointer by rotating the actor to the back, and asking who
//! the final entry of an order is.
use vstd::prelude::*;

use vstd::seq_lib::group_to_multiset_ensures;
use vstd::seq_lib::lemma_seq_union_to_multiset_commutative;

use crate::model::{ActivePlayer, ActivePlayerV, PlayerInput, PlayerInputV, BIG_BLIND, SMALL_BLIND};
use crate::state::active_ids;
use crate::sums::{
    count_active, lemma_count_active_add, lemma_sum_bets_add, sum_bets,
};

verus! {

/// Forced contribution of seat `i` when a hand starts.
pub open spec fn blind_of(i: int) -> int {
    if i == 0 {
        SMALL_BLIND as int
    } else if i == 1 {
        BIG_BLIND as int
    } else {
        0
    }
}

/// The initial active-player order in seating order: seat 0 posts the
/// small blind, seat 1 posts the big blind and is marked as such, every
/// other seat starts with no street bet.
pub open spec fn build_active(ps: Seq<PlayerInputV>) -> Seq<ActivePlayerV> {
    Seq::new(
        ps.len(),
        |i: int|
            ActivePlayerV {
                id: ps[i].id,
                bet: blind_of(i),
                stack: ps[i].stack - blind_of(i),
                is_inactive: false,
                is_big_blind: i == 1,
            },
    )
}

/// Seat normalization: with more than two seats the two blind seats
/// move to the back, so the seat after the big blind acts first and the
/// big blind acts last.  Heads-up the seating order is kept as is.
pub open spec fn sort_order(s: Seq<ActivePlayerV>) -> Seq<ActivePlayerV> {
    if s.len() == 2 {
        s
    } else {
        s.skip(2) + s.take(2)
    }
}

/// `i` is the position of the first entry of `ps` with id `id`.
pub open spec fn is_first_match(ps: Seq<ActivePlayerV>, id: Seq<char>, i: int) -> bool {
    &&& 0 <= i < ps.len()
    &&& ps[i].id == id
    &&& forall|j: int| 0 <= j < i ==> (#[trigger] ps[j]).id != id
}

/// Position of the first entry with the given id, if any.
pub fn find_active(list: &Vec<ActivePlayer>, id: &String) -> (r: Option<usize>)
    ensures
        match r {
            Some(i) => is_first_match(list.deep_view(), id@, i as int),
            None => forall|j: int|
                0 <= j < list.deep_view().len() ==> (#[trigger] list.deep_view()[j]).id != id@,
        },
{
    let mut i: usize = 0;
    while i < list.len()
        invariant
            i <= list.len(),
            forall|j: int| 0 <= j < i ==> (#[trigger] list.deep_view()[j]).id != id@,
        decreases list.len() - i,
    {
        if list[i].id == *id {
            return Some(i);
        }
        i += 1;
    }
    None
}

/// Whether `actor_id` is the id of the final entry of the order.
pub fn is_last_actor(list: &Vec<ActivePlayer>, actor_id: &String) -> (r: bool)
    ensures
        r == (list.deep_view().len() > 0 && list.deep_view().last().id == actor_id@),
{
    if list.len() == 0 {
        false
    } else {
        list[list.len() - 1].id == *actor_id
    }
}

/// Advance the turn: the first entry with the actor's id moves to the
/// back of the order; every other relative position is unchanged.
pub fn advance(list: Vec<ActivePlayer>, actor_id: &String) -> (r: Vec<ActivePlayer>)
    requires
        exists|i: int|
            0 <= i < list.deep_view().len() && (#[trigger] list.deep_view()[i]).id == actor_id@,
    ensures
        forall|i: int|
            is_first_match(list.deep_view(), actor_id@, i) ==> r.deep_view()
                == list.deep_view().remove(i).push(list.deep_view()[i]),
{
    let ghost l0 = list.deep_view();
    let mut list = list;
    let found = find_active(&list, actor_id);
    match found {
        Some(fi) => {
            let entry = list.remove(fi);
            list.push(entry);
            proof {
                assert(list.deep_view() =~= l0.remove(fi as int).push(l0[fi as int]));
                assert forall|i: int| is_first_match(l0, actor_id@, i) implies list.deep_view()
                    == l0.remove(i).push(l0[i]) by {
                    if i < fi {
                        assert(l0[i].id != actor_id@);
                    } else if i > fi {
                        assert(l0[fi as int].id != actor_id@);
                    }
                }
            }
            list
        },
        None => {
            proof {
                assert(false);
            }
            list
        },
    }
}

/// The initial order for a fresh hand, before seat normalization.
pub fn build_active_players(players: Vec<PlayerInput>) -> (r: Vec<ActivePlayer>)
    requires
        players.deep_view().len() >= 1 ==> players.deep_view()[0].stack >= SMALL_BLIND,
        players.deep_view().len() >= 2 ==> players.deep_view()[1].stack >= BIG_BLIND,
    ensures
        r.deep_view() == build_active(players.deep_view()),
{
    let ghost ps = players.deep_view();
    let mut r: Vec<ActivePlayer> = Vec::new();
    let mut i: usize = 0;
    while i < players.len()
        invariant
            i <= players.len(),
            ps == players.deep_view(),
            ps.len() >= 1 ==> ps[0].stack >= SMALL_BLIND,
            ps.len() >= 2 ==> ps[1].stack >= BIG_BLIND,
            r.deep_view() == build_active(ps).take(i as int),
        decreases players.len() - i,
    {
        let p = &players[i];
        let entry = if i == 0 {
            ActivePlayer {
                id: p.id.clone(),
                bet: SMALL_BLIND,
                stack: p.stack - SMALL_BLIND,
                is_inactive: false,
                is_big_blind: false,
            }
        } else if i == 1 {
            ActivePlayer {
                id: p.id.clone(),
                bet: BIG_BLIND,
                stack: p.stack - BIG_BLIND,
                is_inactive: false,
                is_big_blind: true,
            }
        } else {
            ActivePlayer {
                id: p.id.clone(),
                bet: 0,
                stack: p.stack,
                is_inactive: false,
                is_big_blind: false,
            }
        };
        proof {
            assert(entry.deep_view() == build_active(ps)[i as int]);
        }
        let ghost prev = r.deep_view();
        r.push(entry);
        proof {
            assert(ps.len() == players@.len());
            assert(prev.len() == i as int);
            assert(r@.len() == prev.len() + 1);
            assert(r.deep_view().len() == i + 1);
            assert forall|j: int| 0 <= j < i + 1 implies r.deep_view()[j] == build_active(ps)[j] by {
                if j < i {
                    assert(r.deep_view()[j] == build_active(ps).take(i as int)[j]);
                }
            }
            assert(r.deep_view() =~= build_active(ps).take((i + 1) as int));
        }
        i += 1;
    }
    proof {
        assert(build_active(ps).take(ps.len() as int) =~= build_active(ps));
    }
    r
}

/// The normalized initial order: [`build_active`] then [`sort_order`].
pub fn sort_active_players(players: Vec<PlayerInput>) -> (r: Vec<ActivePlayer>)
    requires
        players.deep_view().len() >= 2,
        players.deep_view()[0].stack >= SMALL_BLIND,
        players.deep_view()[1].stack >= BIG_BLIND,
    ensures
        r.deep_view() == sort_order(build_active(players.deep_view())),
{
    let ghost ps = players.deep_view();
    let mut list = build_active_players(players);
    if list.len() != 2 {
        let ghost b = build_active(ps);
        proof {
            assert(list@.len() == list.deep_view().len());
            assert(list.deep_view().len() == ps.len());
        }
        let head0 = list.remove(0);
        let head1 = list.remove(0);
        list.push(head0);
        list.push(head1);
        proof {
            assert(list.deep_view() =~= b.skip(2) + b.take(2));
        }
    }
    list
}

/// Tallies of the initial order: the blinds are the whole pot, and
/// every seat starts active.
pub proof fn lemma_build_active_tallies(ps: Seq<PlayerInputV>)
    requires
        ps.len() >= 2,
    ensures
        sum_bets(build_active(ps)) == SMALL_BLIND + BIG_BLIND,
        count_active(build_active(ps)) == ps.len(),
    decreases ps.len(),
{
    let b = build_active(ps);
    if ps.len() == 2 {
        let b1 = b.drop_last();
        let b0 = b1.drop_last();
        assert(b0 =~= Seq::<ActivePlayerV>::empty());
        assert(sum_bets(b) == sum_bets(b1) + b[1].bet);
        assert(sum_bets(b1) == sum_bets(b0) + b[0].bet);
        assert(count_active(b) == count_active(b1) + 1);
        assert(count_active(b1) == count_active(b0) + 1);
    } else {
        assert(build_active(ps.drop_last()) =~= b.drop_last());
        lemma_build_active_tallies(ps.drop_last());
        assert(sum_bets(b) == sum_bets(b.drop_last()) + b.last().bet);
        assert(b.last().bet == 0);
        assert(count_active(b) == count_active(b.drop_last()) + 1);
    }
}

/// Seat normalization permutes the order, so it changes no tally.
pub proof fn lemma_sort_order_tallies(s: Seq<ActivePlayerV>)
    requires
        s.len() >= 2,
    ensures
        sum_bets(sort_order(s)) == sum_bets(s),
        count_active(sort_order(s)) == count_active(s),
        sort_order(s).len() == s.len(),
{
    if s.len() != 2 {
        assert(s =~= s.take(2) + s.skip(2));
        lemma_sum_bets_add(s.take(2), s.skip(2));
        lemma_sum_bets_add(s.skip(2), s.take(2));
        lemma_count_active_add(s.take(2), s.skip(2));
        lemma_count_active_add(s.skip(2), s.take(2));
    }
}

/// The ids of the initial order are the seating ids, in order.
pub proof fn lemma_build_active_ids(ps: Seq<PlayerInputV>)
    ensures
        active_ids(build_active(ps)) =~= ps.map_values(|p: PlayerInputV| p.id),
{
}

/// Two id sequences with the same multiset agree on length, membership
/// and freedom from duplicates.
pub proof fn lemma_ids_multiset_eq(x: Seq<Seq<char>>, y: Seq<Seq<char>>)
    requires
        x.to_multiset() == y.to_multiset(),
    ensures
        x.len() == y.len(),
        forall|e: Seq<char>| x.contains(e) <==> y.contains(e),
        x.no_duplicates() <==> y.no_duplicates(),
{
    broadcast use group_to_multiset_ensures;

    assert(x.len() == x.to_multiset().len());
    assert(y.len() == y.to_multiset().len());
    assert forall|e: Seq<char>| x.contains(e) implies y.contains(e) by {
        assert(x.to_multiset().count(e) > 0);
    }
    assert forall|e: Seq<char>| y.contains(e) implies x.contains(e) by {
        assert(y.to_multiset().count(e) > 0);
    }
    if x.no_duplicates() {
        x.lemma_multiset_has_no_duplicates();
        y.lemma_multiset_has_no_duplicates_conv();
    }
    if y.no_duplicates() {
        y.lemma_multiset_has_no_duplicates();
        x.lemma_multiset_has_no_duplicates_conv();
    }
}

/// Seat normalization permutes the id sequence.
pub proof fn lemma_sort_order_ids(s: Seq<ActivePlayerV>)
    requires
        s.len() >= 2,
    ensures
        active_ids(sort_order(s)).to_multiset() == active_ids(s).to_multiset(),
{
    if s.len() != 2 {
        let ids = active_ids(s);
        assert(active_ids(sort_order(s)) =~= ids.skip(2) + ids.take(2));
        assert(ids =~= ids.take(2) + ids.skip(2));
        lemma_seq_union_to_multiset_commutative(ids.skip(2), ids.take(2));
    }
}

/// Rotating one element to the back permutes a sequence.
pub proof fn lemma_rotate_multiset<A>(x: Seq<A>, i: int)
    requires
        0 <= i < x.len(),
    ensures
        x.remove(i).push(x[i]).to_multiset() == x.to_multiset(),
{
    broadcast use group_to_multiset_ensures;

    assert(x.to_multiset().contains(x[i]));
    assert(x.remove(i).push(x[i]).to_multiset() =~= x.to_multiset());
}

} // verus!
