//! The two event kinds the engine emits: a deal announcement for a
//! freshly seeded hand, and an update payload carrying the latest
//! street and player events of a running hand.
use vstd::prelude::*;

use crate::model::{
    Cards, CardsV, MutationType, PlayerEvent, PlayerEventV, StreetEvent, StreetEventV,
};

verus! {

/// Announcement that a hand was created.
#[derive(Clone, Debug, PartialEq)]
pub struct DealEvent {
    pub mutation_type: MutationType,
    pub id: String,
}

/// Mathematical value of [`DealEvent`].
pub ghost struct DealEventV {
    pub mutation_type: MutationType,
    pub id: Seq<char>,
}

impl View for DealEvent {
    type V = DealEventV;

    open spec fn view(&self) -> DealEventV {
        DealEventV { mutation_type: self.mutation_type, id: self.id@ }
    }
}

impl DeepView for DealEvent {
    type V = DealEventV;

    open spec fn deep_view(&self) -> DealEventV {
        self.view()
    }
}

/// Update within an existing hand: the street snapshot that was opened
/// and the player event that was recorded by one action.
#[derive(Clone, Debug, PartialEq)]
pub struct HandEventPayload {
    pub mutation_type: MutationType,
    pub hand_id: String,
    pub street_event: Option<StreetEvent>,
    pub player_event: Option<PlayerEvent>,
    pub cards: Option<Cards>,
}

/// Mathematical value of [`HandEventPayload`].
pub ghost struct HandEventPayloadV {
    pub mutation_type: MutationType,
    pub hand_id: Seq<char>,
    pub street_event: Option<StreetEventV>,
    pub player_event: Option<PlayerEventV>,
    pub cards: Option<CardsV>,
}

impl View for HandEventPayload {
    type V = HandEventPayloadV;

    open spec fn view(&self) -> HandEventPayloadV {
        HandEventPayloadV {
            mutation_type: self.mutation_type,
            hand_id: self.hand_id@,
            street_event: self.street_event.deep_view(),
            player_event: self.player_event.deep_view(),
            cards: self.cards.deep_view(),
        }
    }
}

impl DeepView for HandEventPayload {
    type V = HandEventPayloadV;

    open spec fn deep_view(&self) -> HandEventPayloadV {
        self.view()
    }
}

} // verus!
