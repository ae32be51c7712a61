use unlimited_poker::engine::{apply_action, start_hand, ActionOutcome};
use unlimited_poker::model::{
    DealInput, DealResult, DealtSeat, EngineError, Hand, PlayerAction, PlayerInput, StreetType,
};

fn seat(id: &str, stack: u64) -> PlayerInput {
    PlayerInput { id: id.to_string(), stack }
}

fn deal_input(seats: &[(&str, u64)]) -> DealInput {
    DealInput {
        players: seats.iter().map(|(id, s)| seat(id, *s)).collect(),
        table_id: "table-1".to_string(),
    }
}

fn deal_result(scores: &[u64]) -> DealResult {
    DealResult {
        board: unlimited_poker::model::Cards {
            flop: vec!["Ah".to_string(), "Kd".to_string(), "7c".to_string()],
            turn: "2s".to_string(),
            river: "9h".to_string(),
        },
        hands: scores
            .iter()
            .map(|s| DealtSeat {
                score: *s,
                cards: vec!["Qs".to_string(), "Jd".to_string()],
                description: "a holding".to_string(),
            })
            .collect(),
    }
}

fn chips_on_table(hand: &Hand) -> u64 {
    let stacks: u64 = hand.players.iter().map(|p| p.stack).sum();
    stacks + hand.street_events.last().unwrap().pot
}

fn order_ids(hand: &Hand) -> Vec<String> {
    hand.street_events
        .last()
        .unwrap()
        .current_active_players
        .iter()
        .map(|a| a.id.clone())
        .collect()
}

fn active_count(hand: &Hand) -> usize {
    hand.street_events
        .last()
        .unwrap()
        .current_active_players
        .iter()
        .filter(|a| !a.is_inactive)
        .count()
}

#[test]
fn test_start_hand_three_seats() {
    let hand = start_hand(
        deal_input(&[("a", 100), ("b", 100), ("c", 100)]),
        deal_result(&[5, 9, 1]),
    )
    .unwrap();
    assert_eq!(hand.id.len(), 36);
    assert_eq!(hand.table_id, "table-1");
    assert_eq!(hand.players.len(), 3);
    assert_eq!(hand.players[0].stack, 90);
    assert_eq!(hand.players[1].stack, 80);
    assert_eq!(hand.players[2].stack, 100);
    assert_eq!(hand.players[1].score, 9);
    assert_eq!(hand.players[2].cards, vec!["Qs".to_string(), "Jd".to_string()]);
    assert_eq!(hand.cards.flop.len(), 3);
    assert_eq!(hand.cards.river, "9h");
    // the two blind posts are on record
    assert_eq!(hand.player_events.len(), 2);
    assert_eq!(hand.player_events[0].player_id, "a");
    assert_eq!(hand.player_events[0].amount, 10);
    assert_eq!(hand.player_events[0].current_stack, 90);
    assert_eq!(hand.player_events[0].current_pot, 10);
    assert_eq!(hand.player_events[1].player_id, "b");
    assert_eq!(hand.player_events[1].amount, 20);
    assert_eq!(hand.player_events[1].current_stack, 80);
    assert_eq!(hand.player_events[1].current_pot, 30);
    assert_eq!(hand.player_events[1].action, PlayerAction::Bet);
    // one opening street: blinds in the pot, blind seats act last
    assert_eq!(hand.street_events.len(), 1);
    let se = &hand.street_events[0];
    assert_eq!(se.street_type, StreetType::Preflop);
    assert_eq!(se.pot, 30);
    assert_eq!(order_ids(&hand), vec!["c", "a", "b"]);
    assert_eq!(se.current_active_players[0].bet, 0);
    assert_eq!(se.current_active_players[1].bet, 10);
    assert_eq!(se.current_active_players[2].bet, 20);
    assert!(se.current_active_players[2].is_big_blind);
    assert!(!se.current_active_players[1].is_big_blind);
    assert_eq!(chips_on_table(&hand), 300);
    assert!(!hand.is_closed());
}

#[test]
fn test_start_hand_heads_up_keeps_seating_order() {
    let hand = start_hand(deal_input(&[("a", 100), ("b", 100)]), deal_result(&[1, 2])).unwrap();
    assert_eq!(order_ids(&hand), vec!["a", "b"]);
    assert_eq!(hand.street_events[0].current_active_players[0].bet, 10);
    assert_eq!(hand.street_events[0].current_active_players[1].bet, 20);
}

#[test]
fn test_start_hand_rejects_short_seating() {
    assert_eq!(
        start_hand(deal_input(&[("a", 100)]), deal_result(&[1])).unwrap_err(),
        EngineError::InvalidAction
    );
}

#[test]
fn test_start_hand_rejects_duplicate_ids() {
    assert_eq!(
        start_hand(
            deal_input(&[("a", 100), ("a", 100), ("b", 100)]),
            deal_result(&[1, 2, 3])
        )
        .unwrap_err(),
        EngineError::InvalidAction
    );
}

#[test]
fn test_start_hand_rejects_unpayable_blinds() {
    assert_eq!(
        start_hand(deal_input(&[("a", 9), ("b", 100)]), deal_result(&[1, 2])).unwrap_err(),
        EngineError::InvalidAction
    );
    assert_eq!(
        start_hand(deal_input(&[("a", 100), ("b", 19)]), deal_result(&[1, 2])).unwrap_err(),
        EngineError::InvalidAction
    );
}

#[test]
fn test_start_hand_rejects_mismatched_deal() {
    assert_eq!(
        start_hand(deal_input(&[("a", 100), ("b", 100)]), deal_result(&[1, 2, 3])).unwrap_err(),
        EngineError::ExternalServiceError
    );
}

#[test]
fn test_full_hand_to_showdown() {
    // Three seats of 100; seat 0 posts 10, seat 1 posts 20.  Seat 2
    // folds, seat 0 calls 10, seat 1 checks; the preflop street closes
    // with pot 40 and two players in the hand.  Both check down the
    // flop, turn and river; at showdown the higher rank wins the pot,
    // and a new seating rotated by one is produced.
    let mut hand = start_hand(
        deal_input(&[("a", 100), ("b", 100), ("c", 100)]),
        deal_result(&[5, 9, 1]),
    )
    .unwrap();
    let c = "c".to_string();
    let a = "a".to_string();
    let b = "b".to_string();

    // seat 2 folds
    let r = apply_action(&mut hand, &c, PlayerAction::Fold, 0).unwrap();
    assert!(matches!(r, ActionOutcome::Updated { .. }));
    assert_eq!(active_count(&hand), 2);
    assert_eq!(hand.street_events.last().unwrap().street_type, StreetType::Preflop);
    assert_eq!(hand.street_events.last().unwrap().pot, 30);
    assert_eq!(order_ids(&hand), vec!["a", "b", "c"]);
    assert_eq!(chips_on_table(&hand), 300);

    // seat 0 calls 10
    let r = apply_action(&mut hand, &a, PlayerAction::Bet, 10).unwrap();
    assert!(matches!(r, ActionOutcome::Updated { .. }));
    assert_eq!(hand.street_events.last().unwrap().street_type, StreetType::Preflop);
    assert_eq!(hand.street_events.last().unwrap().pot, 40);
    assert_eq!(hand.players[0].stack, 80);
    assert_eq!(order_ids(&hand), vec!["b", "c", "a"]);
    assert_eq!(chips_on_table(&hand), 300);

    // seat 1 checks: the street closes, bets reset, pot carries
    let r = apply_action(&mut hand, &b, PlayerAction::Check, 0).unwrap();
    let last = hand.street_events.last().unwrap();
    assert_eq!(last.street_type, StreetType::Flop);
    assert_eq!(last.pot, 40);
    assert!(last.current_active_players.iter().all(|p| p.bet == 0));
    assert_eq!(order_ids(&hand), vec!["c", "a", "b"]);
    match r {
        ActionOutcome::Updated { payload } => {
            let se = payload.street_event.unwrap();
            assert_eq!(se.street_type, StreetType::Flop);
            assert_eq!(se.pot, 40);
            let pe = payload.player_event.unwrap();
            assert_eq!(pe.player_id, "b");
            assert_eq!(pe.action, PlayerAction::Check);
        },
        ActionOutcome::Completed { .. } => panic!("hand ended early"),
    }

    // both players check down the flop, the turn and the river
    apply_action(&mut hand, &a, PlayerAction::Check, 0).unwrap();
    apply_action(&mut hand, &b, PlayerAction::Check, 0).unwrap();
    assert_eq!(hand.street_events.last().unwrap().street_type, StreetType::Turn);
    apply_action(&mut hand, &a, PlayerAction::Check, 0).unwrap();
    apply_action(&mut hand, &b, PlayerAction::Check, 0).unwrap();
    assert_eq!(hand.street_events.last().unwrap().street_type, StreetType::River);
    apply_action(&mut hand, &a, PlayerAction::Check, 0).unwrap();
    assert_eq!(hand.street_events.last().unwrap().pot, 40);
    assert!(!hand.is_closed());

    let r = apply_action(&mut hand, &b, PlayerAction::Check, 0).unwrap();
    match r {
        ActionOutcome::Completed { winner_id, next_input } => {
            // seat 1 holds the greater rank
            assert_eq!(winner_id, "b");
            assert_eq!(next_input.table_id, "table-1");
            let seats: Vec<(String, u64)> = next_input
                .players
                .iter()
                .map(|p| (p.id.clone(), p.stack))
                .collect();
            // seating rotated one position; the winner carries 80 + 40
            assert_eq!(
                seats,
                vec![
                    ("b".to_string(), 120),
                    ("c".to_string(), 100),
                    ("a".to_string(), 80)
                ]
            );
            let total: u64 = next_input.players.iter().map(|p| p.stack).sum();
            assert_eq!(total, 300);
        },
        ActionOutcome::Updated { .. } => panic!("hand should have ended"),
    }
    assert!(hand.is_closed());
    // the closed hand keeps its own players untouched by the payout
    assert_eq!(hand.players[1].stack, 80);
    assert_eq!(hand.player_events.len(), 11);
    assert_eq!(hand.street_events.len(), 10);
}

#[test]
fn test_single_survivor_wins_without_showdown() {
    // Heads-up, pot 30 from the blinds.  The stronger rank folds:
    // the sole survivor collects the pot with no rank comparison.
    let mut hand =
        start_hand(deal_input(&[("a", 100), ("b", 100)]), deal_result(&[9, 1])).unwrap();
    let a = "a".to_string();
    let r = apply_action(&mut hand, &a, PlayerAction::Fold, 0).unwrap();
    match r {
        ActionOutcome::Completed { winner_id, next_input } => {
            assert_eq!(winner_id, "b");
            let seats: Vec<(String, u64)> = next_input
                .players
                .iter()
                .map(|p| (p.id.clone(), p.stack))
                .collect();
            // b's stack grows by exactly the pot of 30
            assert_eq!(seats, vec![("b".to_string(), 110), ("a".to_string(), 90)]);
        },
        ActionOutcome::Updated { .. } => panic!("hand should have ended"),
    }
    assert!(hand.is_closed());
    assert_eq!(active_count(&hand), 1);
}

#[test]
fn test_fold_reduces_active_count_by_one() {
    let mut hand = start_hand(
        deal_input(&[("a", 100), ("b", 100), ("c", 100), ("d", 100)]),
        deal_result(&[1, 2, 3, 4]),
    )
    .unwrap();
    assert_eq!(active_count(&hand), 4);
    apply_action(&mut hand, &"c".to_string(), PlayerAction::Fold, 0).unwrap();
    assert_eq!(active_count(&hand), 3);
    apply_action(&mut hand, &"d".to_string(), PlayerAction::Fold, 0).unwrap();
    assert_eq!(active_count(&hand), 2);
}

#[test]
fn test_chips_conserved_across_actions() {
    let mut hand = start_hand(
        deal_input(&[("a", 100), ("b", 150), ("c", 75)]),
        deal_result(&[3, 2, 1]),
    )
    .unwrap();
    assert_eq!(chips_on_table(&hand), 325);
    apply_action(&mut hand, &"c".to_string(), PlayerAction::Bet, 20).unwrap();
    assert_eq!(chips_on_table(&hand), 325);
    apply_action(&mut hand, &"a".to_string(), PlayerAction::Bet, 10).unwrap();
    assert_eq!(chips_on_table(&hand), 325);
    apply_action(&mut hand, &"b".to_string(), PlayerAction::Fold, 0).unwrap();
    assert_eq!(chips_on_table(&hand), 325);
}

#[test]
fn test_event_logs_are_append_only() {
    let mut hand = start_hand(
        deal_input(&[("a", 100), ("b", 100), ("c", 100)]),
        deal_result(&[1, 2, 3]),
    )
    .unwrap();
    let mut prev_pe = hand.player_events.clone();
    let mut prev_se = hand.street_events.clone();
    let moves = [
        ("c", PlayerAction::Bet, 20),
        ("a", PlayerAction::Bet, 10),
        ("b", PlayerAction::Check, 0),
        ("a", PlayerAction::Check, 0),
    ];
    for (who, action, amount) in moves {
        apply_action(&mut hand, &who.to_string(), action, amount).unwrap();
        assert!(hand.player_events.len() > prev_pe.len());
        assert!(hand.street_events.len() > prev_se.len());
        assert_eq!(&hand.player_events[..prev_pe.len()], &prev_pe[..]);
        assert_eq!(&hand.street_events[..prev_se.len()], &prev_se[..]);
        prev_pe = hand.player_events.clone();
        prev_se = hand.street_events.clone();
    }
}

#[test]
fn test_actor_rotates_to_the_back() {
    let mut hand = start_hand(
        deal_input(&[("a", 100), ("b", 100), ("c", 100)]),
        deal_result(&[1, 2, 3]),
    )
    .unwrap();
    for who in ["c", "a", "b", "a"] {
        let r = apply_action(&mut hand, &who.to_string(), PlayerAction::Check, 0);
        // checks before the bets level are still fine here: the big
        // blind's bet is the reference only once everyone has acted
        if r.is_ok() {
            assert_eq!(order_ids(&hand).last().unwrap(), who);
        }
    }
}

#[test]
fn test_unknown_player_is_refused() {
    let mut hand =
        start_hand(deal_input(&[("a", 100), ("b", 100)]), deal_result(&[1, 2])).unwrap();
    let before = hand.clone();
    let r = apply_action(&mut hand, &"zz".to_string(), PlayerAction::Check, 0);
    assert_eq!(r.unwrap_err(), EngineError::PlayerNotFound);
    assert_eq!(hand, before);
}

#[test]
fn test_overdrawn_bet_is_refused() {
    let mut hand =
        start_hand(deal_input(&[("a", 100), ("b", 100)]), deal_result(&[1, 2])).unwrap();
    let before = hand.clone();
    let r = apply_action(&mut hand, &"a".to_string(), PlayerAction::Bet, 91);
    assert_eq!(r.unwrap_err(), EngineError::InvalidAction);
    assert_eq!(hand, before);
    // the stack itself may go all in
    let r = apply_action(&mut hand, &"a".to_string(), PlayerAction::Bet, 90);
    assert!(r.is_ok());
}

#[test]
fn test_check_and_fold_carry_no_chips() {
    let mut hand =
        start_hand(deal_input(&[("a", 100), ("b", 100)]), deal_result(&[1, 2])).unwrap();
    let before = hand.clone();
    assert_eq!(
        apply_action(&mut hand, &"a".to_string(), PlayerAction::Check, 5).unwrap_err(),
        EngineError::InvalidAction
    );
    assert_eq!(
        apply_action(&mut hand, &"a".to_string(), PlayerAction::Fold, 5).unwrap_err(),
        EngineError::InvalidAction
    );
    assert_eq!(hand, before);
}

#[test]
fn test_folded_player_may_not_act() {
    let mut hand = start_hand(
        deal_input(&[("a", 100), ("b", 100), ("c", 100)]),
        deal_result(&[1, 2, 3]),
    )
    .unwrap();
    apply_action(&mut hand, &"c".to_string(), PlayerAction::Fold, 0).unwrap();
    assert_eq!(
        apply_action(&mut hand, &"c".to_string(), PlayerAction::Check, 0).unwrap_err(),
        EngineError::InvalidAction
    );
}

#[test]
fn test_fresh_hand_ids_are_uuid_shaped() {
    let h1 = start_hand(deal_input(&[("a", 100), ("b", 100)]), deal_result(&[1, 2])).unwrap();
    let h2 = start_hand(deal_input(&[("a", 100), ("b", 100)]), deal_result(&[1, 2])).unwrap();
    assert_eq!(h1.id.len(), 36);
    assert_eq!(h2.id.len(), 36);
    assert_ne!(h1.id, h2.id);
}
