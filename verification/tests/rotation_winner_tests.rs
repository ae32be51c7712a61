use unlimited_poker::model::{ActivePlayer, Player, PlayerInput};
use unlimited_poker::rotation::{advance, build_active_players, is_last_actor, sort_active_players};
use unlimited_poker::winner::resolve;

fn seat(id: &str, stack: u64) -> PlayerInput {
    PlayerInput { id: id.to_string(), stack }
}

fn entry(id: &str, inactive: bool) -> ActivePlayer {
    ActivePlayer {
        id: id.to_string(),
        bet: 0,
        stack: 100,
        is_inactive: inactive,
        is_big_blind: false,
    }
}

fn player(id: &str, score: u64) -> Player {
    Player {
        id: id.to_string(),
        stack: 100,
        cards: vec![],
        score,
        description: String::new(),
    }
}

#[test]
fn test_build_active_players_posts_the_blinds() {
    let list = build_active_players(vec![seat("a", 100), seat("b", 100), seat("c", 100)]);
    assert_eq!(list.len(), 3);
    assert_eq!(list[0].id, "a");
    assert_eq!(list[0].bet, 10);
    assert_eq!(list[0].stack, 90);
    assert!(!list[0].is_big_blind);
    assert_eq!(list[1].bet, 20);
    assert_eq!(list[1].stack, 80);
    assert!(list[1].is_big_blind);
    assert_eq!(list[2].bet, 0);
    assert_eq!(list[2].stack, 100);
    assert!(list.iter().all(|e| !e.is_inactive));
}

#[test]
fn test_sort_active_players_moves_blind_seats_last() {
    let list = sort_active_players(vec![
        seat("a", 100),
        seat("b", 100),
        seat("c", 100),
        seat("d", 100),
    ]);
    let ids: Vec<&str> = list.iter().map(|e| e.id.as_str()).collect();
    assert_eq!(ids, vec!["c", "d", "a", "b"]);
}

#[test]
fn test_sort_active_players_heads_up_unchanged() {
    let list = sort_active_players(vec![seat("a", 100), seat("b", 100)]);
    let ids: Vec<&str> = list.iter().map(|e| e.id.as_str()).collect();
    assert_eq!(ids, vec!["a", "b"]);
}

#[test]
fn test_advance_moves_actor_to_the_back() {
    let list = vec![entry("a", false), entry("b", false), entry("c", false)];
    let rotated = advance(list, &"b".to_string());
    let ids: Vec<&str> = rotated.iter().map(|e| e.id.as_str()).collect();
    assert_eq!(ids, vec!["a", "c", "b"]);
}

#[test]
fn test_is_last_actor() {
    let list = vec![entry("a", false), entry("b", false)];
    assert!(is_last_actor(&list, &"b".to_string()));
    assert!(!is_last_actor(&list, &"a".to_string()));
    assert!(!is_last_actor(&Vec::new(), &"a".to_string()));
}

#[test]
fn test_resolve_picks_the_greatest_rank() {
    let active = vec![entry("a", false), entry("b", false), entry("c", false)];
    let players = vec![player("a", 4), player("b", 9), player("c", 7)];
    assert_eq!(resolve(&active, &players), 1);
}

#[test]
fn test_resolve_skips_folded_players() {
    let active = vec![entry("a", false), entry("b", true), entry("c", false)];
    let players = vec![player("a", 4), player("b", 9), player("c", 7)];
    assert_eq!(resolve(&active, &players), 2);
}

#[test]
fn test_resolve_breaks_ties_toward_the_earlier_seat() {
    let active = vec![entry("a", false), entry("b", false), entry("c", false)];
    let players = vec![player("a", 7), player("b", 9), player("c", 9)];
    assert_eq!(resolve(&active, &players), 1);
}

#[test]
fn test_resolve_sole_survivor_needs_no_ranks() {
    let active = vec![entry("a", true), entry("b", false), entry("c", true)];
    // the folded seats hold the greater ranks; the survivor still wins
    let players = vec![player("a", 9), player("b", 1), player("c", 8)];
    assert_eq!(resolve(&active, &players), 1);
}
