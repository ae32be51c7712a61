//! Winner resolution.  With one player left in the hand that player
//! collects the pot unconditionally; otherwise the non-folded player
//! with the numerically greatest rank wins.  Equal ranks are broken
//! deterministically in favour of the earliest entry of the turn-order
//! list.
use vstd::prelude::*;

use crate::model::{ActivePlayer, ActivePlayerV, Player, PlayerV};
use crate::sums::count_active;

verus! {

/// Rank of the first seated player with the given id; zero when no
/// seated player carries it.
pub open spec fn score_of(ps: Seq<PlayerV>, id: Seq<char>) -> int
    decreases ps.len(),
{
    if ps.len() == 0 {
        0
    } else if ps[0].id == id {
        ps[0].score
    } else {
        score_of(ps.drop_first(), id)
    }
}

/// `i` is the position of the first seated player with id `id`.
pub open spec fn is_first_player_match(ps: Seq<PlayerV>, id: Seq<char>, i: int) -> bool {
    &&& 0 <= i < ps.len()
    &&& ps[i].id == id
    &&& forall|j: int| 0 <= j < i ==> (#[trigger] ps[j]).id != id
}

/// `w` points at the winning entry: a non-folded entry whose rank no
/// other non-folded entry beats, and that strictly beats every earlier
/// non-folded entry — the first of the best.
pub open spec fn is_winner_idx(
    active: Seq<ActivePlayerV>,
    players: Seq<PlayerV>,
    w: int,
) -> bool {
    &&& 0 <= w < active.len()
    &&& !active[w].is_inactive
    &&& forall|j: int|
        0 <= j < active.len() && !(#[trigger] active[j]).is_inactive ==> score_of(
            players,
            active[j].id,
        ) <= score_of(players, active[w].id)
    &&& forall|j: int|
        0 <= j < w && !(#[trigger] active[j]).is_inactive ==> score_of(players, active[j].id)
            < score_of(players, active[w].id)
}

/// The winning position is unique: the tie-break is deterministic.
pub proof fn lemma_winner_unique(
    active: Seq<ActivePlayerV>,
    players: Seq<PlayerV>,
    w1: int,
    w2: int,
)
    requires
        is_winner_idx(active, players, w1),
        is_winner_idx(active, players, w2),
    ensures
        w1 == w2,
{
}

/// The rank of the first match is the rank [`score_of`] names.
pub proof fn lemma_score_of_first(ps: Seq<PlayerV>, id: Seq<char>, i: int)
    requires
        is_first_player_match(ps, id, i),
    ensures
        score_of(ps, id) == ps[i].score,
    decreases i,
{
    if i > 0 {
        assert(ps.drop_first()[i - 1] == ps[i]);
        assert(forall|j: int| 0 <= j < i - 1 ==> (#[trigger] ps.drop_first()[j]).id != id);
        lemma_score_of_first(ps.drop_first(), id, i - 1);
    }
}

/// With no match at all, [`score_of`] is zero.
pub proof fn lemma_score_of_missing(ps: Seq<PlayerV>, id: Seq<char>)
    requires
        forall|j: int| 0 <= j < ps.len() ==> (#[trigger] ps[j]).id != id,
    ensures
        score_of(ps, id) == 0,
    decreases ps.len(),
{
    if ps.len() > 0 {
        assert(forall|j: int|
            0 <= j < ps.drop_first().len() ==> (#[trigger] ps.drop_first()[j]).id != id);
        lemma_score_of_missing(ps.drop_first(), id);
    }
}

/// A list whose entries have all folded counts no active player.
pub proof fn lemma_all_inactive_count_zero(ps: Seq<ActivePlayerV>)
    requires
        forall|j: int| 0 <= j < ps.len() ==> (#[trigger] ps[j]).is_inactive,
    ensures
        count_active(ps) == 0,
    decreases ps.len(),
{
    if ps.len() > 0 {
        lemma_all_inactive_count_zero(ps.drop_last());
    }
}

/// Position of the first seated player with the given id, if any.
pub fn find_player(players: &Vec<Player>, id: &String) -> (r: Option<usize>)
    ensures
        match r {
            Some(i) => is_first_player_match(players.deep_view(), id@, i as int),
            None => forall|j: int|
                0 <= j < players.deep_view().len() ==> (#[trigger] players.deep_view()[j]).id
                    != id@,
        },
{
    let mut i: usize = 0;
    while i < players.len()
        invariant
            i <= players.len(),
            forall|j: int| 0 <= j < i ==> (#[trigger] players.deep_view()[j]).id != id@,
        decreases players.len() - i,
    {
        if players[i].id == *id {
            return Some(i);
        }
        i += 1;
    }
    None
}

/// Rank of the player with the given id, zero for an unknown id.
pub fn score_lookup(players: &Vec<Player>, id: &String) -> (r: u64)
    ensures
        r as int == score_of(players.deep_view(), id@),
{
    match find_player(players, id) {
        Some(i) => {
            proof {
                lemma_score_of_first(players.deep_view(), id@, i as int);
            }
            players[i].score
        },
        None => {
            proof {
                lemma_score_of_missing(players.deep_view(), id@);
            }
            0
        },
    }
}

/// Who collects the pot: the position in the turn-order list of the
/// sole remaining player, or at showdown the first non-folded entry of
/// greatest rank.
pub fn resolve(active: &Vec<ActivePlayer>, players: &Vec<Player>) -> (w: usize)
    requires
        count_active(active.deep_view()) >= 1,
    ensures
        is_winner_idx(active.deep_view(), players.deep_view(), w as int),
{
    let ghost a = active.deep_view();
    let mut best: Option<usize> = None;
    let mut best_score: u64 = 0;
    let mut i: usize = 0;
    while i < active.len()
        invariant
            i <= active.len(),
            a == active.deep_view(),
            match best {
                Some(b) => {
                    &&& 0 <= b < i
                    &&& !a[b as int].is_inactive
                    &&& best_score as int == score_of(players.deep_view(), a[b as int].id)
                    &&& forall|j: int|
                        0 <= j < i && !(#[trigger] a[j]).is_inactive ==> score_of(
                            players.deep_view(),
                            a[j].id,
                        ) <= best_score as int
                    &&& forall|j: int|
                        0 <= j < b && !(#[trigger] a[j]).is_inactive ==> score_of(
                            players.deep_view(),
                            a[j].id,
                        ) < best_score as int
                },
                None => forall|j: int| 0 <= j < i ==> (#[trigger] a[j]).is_inactive,
            },
        decreases active.len() - i,
    {
        if !active[i].is_inactive {
            let s = score_lookup(players, &active[i].id);
            match best {
                Some(_) => {
                    if s > best_score {
                        best = Some(i);
                        best_score = s;
                    }
                },
                None => {
                    best = Some(i);
                    best_score = s;
                },
            }
        }
        i += 1;
    }
    match best {
        Some(b) => b,
        None => {
            proof {
                lemma_all_inactive_count_zero(a);
            }
            0
        },
    }
}

} // verus!
