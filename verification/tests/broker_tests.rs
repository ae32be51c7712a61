use unlimited_poker::broker::Broadcaster;
use unlimited_poker::events::{DealEvent, HandEventPayload};
use unlimited_poker::model::MutationType;

fn deal_event(id: &str) -> DealEvent {
    DealEvent { mutation_type: MutationType::Created, id: id.to_string() }
}

fn hand_payload(kind: MutationType, hand_id: &str) -> HandEventPayload {
    HandEventPayload {
        mutation_type: kind,
        hand_id: hand_id.to_string(),
        street_event: None,
        player_event: None,
        cards: None,
    }
}

#[test]
fn test_late_subscriber_misses_earlier_publish() {
    let mut b = Broadcaster::new();
    b.publish_deal(deal_event("h1"));
    let s = b.subscribe_deal(None);
    assert_eq!(b.recv_deal(s), None);
    // but it does see what comes afterwards
    b.publish_deal(deal_event("h2"));
    assert_eq!(b.recv_deal(s).unwrap().id, "h2");
}

#[test]
fn test_early_subscriber_receives_exactly_once() {
    let mut b = Broadcaster::new();
    let s = b.subscribe_deal(None);
    b.publish_deal(deal_event("h1"));
    let got = b.recv_deal(s).unwrap();
    assert_eq!(got.id, "h1");
    assert_eq!(got.mutation_type, MutationType::Created);
    assert_eq!(b.recv_deal(s), None);
    assert_eq!(b.recv_deal(s), None);
}

#[test]
fn test_events_arrive_in_publication_order() {
    let mut b = Broadcaster::new();
    let s = b.subscribe_hand(None);
    b.publish_hand(hand_payload(MutationType::Created, "h1"));
    b.publish_hand(hand_payload(MutationType::Updated, "h1"));
    b.publish_hand(hand_payload(MutationType::Updated, "h2"));
    assert_eq!(b.recv_hand(s).unwrap().mutation_type, MutationType::Created);
    let second = b.recv_hand(s).unwrap();
    assert_eq!(second.mutation_type, MutationType::Updated);
    assert_eq!(second.hand_id, "h1");
    assert_eq!(b.recv_hand(s).unwrap().hand_id, "h2");
    assert_eq!(b.recv_hand(s), None);
}

#[test]
fn test_filter_is_evaluated_per_subscriber() {
    let mut b = Broadcaster::new();
    let all = b.subscribe_hand(None);
    let updates_only = b.subscribe_hand(Some(MutationType::Updated));
    b.publish_hand(hand_payload(MutationType::Created, "h1"));
    b.publish_hand(hand_payload(MutationType::Updated, "h1"));
    assert_eq!(b.recv_hand(all).unwrap().mutation_type, MutationType::Created);
    assert_eq!(b.recv_hand(all).unwrap().mutation_type, MutationType::Updated);
    // the filtered subscriber skips what it does not want, once and for all
    assert_eq!(b.recv_hand(updates_only).unwrap().mutation_type, MutationType::Updated);
    assert_eq!(b.recv_hand(updates_only), None);
}

#[test]
fn test_unknown_subscription_receives_nothing() {
    let mut b = Broadcaster::new();
    b.publish_deal(deal_event("h1"));
    assert_eq!(b.recv_deal(7), None);
}

#[test]
fn test_channels_are_independent() {
    let mut b = Broadcaster::new();
    let sd = b.subscribe_deal(None);
    let sh = b.subscribe_hand(None);
    b.publish_deal(deal_event("h1"));
    assert_eq!(b.recv_hand(sh), None);
    assert_eq!(b.recv_deal(sd).unwrap().id, "h1");
}

#[test]
fn test_payload_is_delivered_intact() {
    let mut b = Broadcaster::new();
    let s = b.subscribe_hand(None);
    let mut payload = hand_payload(MutationType::Updated, "h9");
    payload.street_event = Some(unlimited_poker::model::StreetEvent {
        street_type: unlimited_poker::model::StreetType::Flop,
        current_active_players: vec![unlimited_poker::model::ActivePlayer {
            id: "a".to_string(),
            bet: 10,
            stack: 90,
            is_inactive: false,
            is_big_blind: false,
        }],
        pot: 40,
    });
    b.publish_hand(payload.clone());
    let got = b.recv_hand(s).unwrap();
    assert_eq!(got, payload);
}
