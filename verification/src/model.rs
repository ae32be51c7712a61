//! Data model of a hand: players, the dealt board, the append-only event
//! logs, and the mathematical views the contracts are stated over.
//!
//! Monetary amounts are whole chips (`u64`); the hand-ranking service's
//! strength of a seat is an integer rank (`u64`, higher is stronger).
use vstd::prelude::*;

verus! {

/// Chips the first seat must post before play starts.
pub const SMALL_BLIND: u64 = 10;

/// Chips the second seat must post before play starts.
pub const BIG_BLIND: u64 = 20;

/// One player's move on their turn.
#[derive(Clone, Copy, Debug, PartialEq, Eq, Structural)]
pub enum PlayerAction {
    Bet,
    Check,
    Fold,
}

/// One betting round within a hand.
#[derive(Clone, Copy, Debug, PartialEq, Eq, Structural)]
pub enum StreetType {
    Preflop,
    Flop,
    Turn,
    River,
}

/// Whether an emitted event announces a freshly created hand or an
/// update within an existing one.
#[derive(Clone, Copy, Debug, PartialEq, Eq, Structural)]
pub enum MutationType {
    Created,
    Updated,
}

/// Why a request was rejected.
#[derive(Clone, Copy, Debug, PartialEq, Eq, Structural)]
pub enum EngineError {
    /// The action names a player that is not seated in the hand.
    PlayerNotFound,
    /// No hand with the requested id exists.
    HandNotFound,
    /// The action itself is malformed: a bet above the player's stack,
    /// a non-zero amount on a check or fold, an action by a folded
    /// player, or a seating list a hand cannot be started from.
    InvalidAction,
    /// The dealing service failed or returned a result that does not
    /// match the requested seating.
    ExternalServiceError,
}

/// The dealt community cards: three flop cards, the turn and the river.
#[derive(Clone, Debug, PartialEq)]
pub struct Cards {
    pub flop: Vec<String>,
    pub turn: String,
    pub river: String,
}

/// Mathematical value of [`Cards`].
pub ghost struct CardsV {
    pub flop: Seq<Seq<char>>,
    pub turn: Seq<char>,
    pub river: Seq<char>,
}

impl View for Cards {
    type V = CardsV;

    open spec fn view(&self) -> CardsV {
        CardsV { flop: self.flop.deep_view(), turn: self.turn@, river: self.river@ }
    }
}

impl DeepView for Cards {
    type V = CardsV;

    open spec fn deep_view(&self) -> CardsV {
        self.view()
    }
}

/// A seated player: identity, current stack, hole cards and the rank the
/// dealing service assigned to their cards.
#[derive(Clone, Debug, PartialEq)]
pub struct Player {
    pub id: String,
    pub stack: u64,
    pub cards: Vec<String>,
    pub score: u64,
    pub description: String,
}

/// Mathematical value of [`Player`].
pub ghost struct PlayerV {
    pub id: Seq<char>,
    pub stack: int,
    pub cards: Seq<Seq<char>>,
    pub score: int,
    pub description: Seq<char>,
}

impl View for Player {
    type V = PlayerV;

    open spec fn view(&self) -> PlayerV {
        PlayerV {
            id: self.id@,
            stack: self.stack as int,
            cards: self.cards.deep_view(),
            score: self.score as int,
            description: self.description@,
        }
    }
}

impl DeepView for Player {
    type V = PlayerV;

    open spec fn deep_view(&self) -> PlayerV {
        self.view()
    }
}

/// One entry of a street's turn-order list.  `bet` counts the chips the
/// player has contributed during the current street only; `is_inactive`
/// marks a player that has folded.
#[derive(Clone, Debug, PartialEq)]
pub struct ActivePlayer {
    pub id: String,
    pub bet: u64,
    pub stack: u64,
    pub is_inactive: bool,
    pub is_big_blind: bool,
}

/// Mathematical value of [`ActivePlayer`].
pub ghost struct ActivePlayerV {
    pub id: Seq<char>,
    pub bet: int,
    pub stack: int,
    pub is_inactive: bool,
    pub is_big_blind: bool,
}

impl View for ActivePlayer {
    type V = ActivePlayerV;

    open spec fn view(&self) -> ActivePlayerV {
        ActivePlayerV {
            id: self.id@,
            bet: self.bet as int,
            stack: self.stack as int,
            is_inactive: self.is_inactive,
            is_big_blind: self.is_big_blind,
        }
    }
}

impl DeepView for ActivePlayer {
    type V = ActivePlayerV;

    open spec fn deep_view(&self) -> ActivePlayerV {
        self.view()
    }
}

/// Immutable record of one action: who moved, what they did, and the
/// stack and pot that resulted.  Entries are only ever appended.
#[derive(Clone, Debug, PartialEq)]
pub struct PlayerEvent {
    pub player_id: String,
    pub action: PlayerAction,
    pub amount: u64,
    pub street_type: StreetType,
    pub current_stack: u64,
    pub current_pot: u64,
}

/// Mathematical value of [`PlayerEvent`].
pub ghost struct PlayerEventV {
    pub player_id: Seq<char>,
    pub action: PlayerAction,
    pub amount: int,
    pub street_type: StreetType,
    pub current_stack: int,
    pub current_pot: int,
}

impl View for PlayerEvent {
    type V = PlayerEventV;

    open spec fn view(&self) -> PlayerEventV {
        PlayerEventV {
            player_id: self.player_id@,
            action: self.action,
            amount: self.amount as int,
            street_type: self.street_type,
            current_stack: self.current_stack as int,
            current_pot: self.current_pot as int,
        }
    }
}

impl DeepView for PlayerEvent {
    type V = PlayerEventV;

    open spec fn deep_view(&self) -> PlayerEventV {
        self.view()
    }
}

/// Snapshot of one betting state: the street being played, the turn
/// order with per-player street bets, and the cumulative pot.  Entries
/// are only ever appended; the latest entry is the hand's current state.
#[derive(Clone, Debug, PartialEq)]
pub struct StreetEvent {
    pub street_type: StreetType,
    pub current_active_players: Vec<ActivePlayer>,
    pub pot: u64,
}

/// Mathematical value of [`StreetEvent`].
pub ghost struct StreetEventV {
    pub street_type: StreetType,
    pub current_active_players: Seq<ActivePlayerV>,
    pub pot: int,
}

impl View for StreetEvent {
    type V = StreetEventV;

    open spec fn view(&self) -> StreetEventV {
        StreetEventV {
            street_type: self.street_type,
            current_active_players: self.current_active_players.deep_view(),
            pot: self.pot as int,
        }
    }
}

impl DeepView for StreetEvent {
    type V = StreetEventV;

    open spec fn deep_view(&self) -> StreetEventV {
        self.view()
    }
}

/// One hand of play: the seated players, the dealt board, and the two
/// append-only event logs that record everything that happened.
#[derive(Clone, Debug, PartialEq)]
pub struct Hand {
    pub id: String,
    pub table_id: String,
    pub players: Vec<Player>,
    pub cards: Cards,
    pub player_events: Vec<PlayerEvent>,
    pub street_events: Vec<StreetEvent>,
}

/// Mathematical value of [`Hand`].
pub ghost struct HandV {
    pub id: Seq<char>,
    pub table_id: Seq<char>,
    pub players: Seq<PlayerV>,
    pub cards: CardsV,
    pub player_events: Seq<PlayerEventV>,
    pub street_events: Seq<StreetEventV>,
}

impl View for Hand {
    type V = HandV;

    open spec fn view(&self) -> HandV {
        HandV {
            id: self.id@,
            table_id: self.table_id@,
            players: self.players.deep_view(),
            cards: self.cards@,
            player_events: self.player_events.deep_view(),
            street_events: self.street_events.deep_view(),
        }
    }
}

impl DeepView for Hand {
    type V = HandV;

    open spec fn deep_view(&self) -> HandV {
        self.view()
    }
}

/// One seat of a requested deal: who sits there and with how many chips.
#[derive(Clone, Debug, PartialEq)]
pub struct PlayerInput {
    pub id: String,
    pub stack: u64,
}

/// Mathematical value of [`PlayerInput`].
pub ghost struct PlayerInputV {
    pub id: Seq<char>,
    pub stack: int,
}

impl View for PlayerInput {
    type V = PlayerInputV;

    open spec fn view(&self) -> PlayerInputV {
        PlayerInputV { id: self.id@, stack: self.stack as int }
    }
}

impl DeepView for PlayerInput {
    type V = PlayerInputV;

    open spec fn deep_view(&self) -> PlayerInputV {
        self.view()
    }
}

/// A request to start a hand: the table and the seating list in order.
#[derive(Clone, Debug, PartialEq)]
pub struct DealInput {
    pub players: Vec<PlayerInput>,
    pub table_id: String,
}

/// Mathematical value of [`DealInput`].
pub ghost struct DealInputV {
    pub players: Seq<PlayerInputV>,
    pub table_id: Seq<char>,
}

impl View for DealInput {
    type V = DealInputV;

    open spec fn view(&self) -> DealInputV {
        DealInputV { players: self.players.deep_view(), table_id: self.table_id@ }
    }
}

impl DeepView for DealInput {
    type V = DealInputV;

    open spec fn deep_view(&self) -> DealInputV {
        self.view()
    }
}

/// A copy of a string list, equal to the original element by element.
pub fn dup_string_list(v: &Vec<String>) -> (r: Vec<String>)
    ensures
        r@ == v@,
{
    let mut r: Vec<String> = Vec::new();
    let mut i: usize = 0;
    while i < v.len()
        invariant
            i <= v.len(),
            r@ == v@.take(i as int),
        decreases v.len() - i,
    {
        r.push(v[i].clone());
        proof {
            assert(r@ =~= v@.take((i + 1) as int));
        }
        i += 1;
    }
    proof {
        assert(v@.take(v@.len() as int) =~= v@);
    }
    r
}

/// A copy of a turn-order list, equal to the original entry by entry.
pub fn dup_active_list(v: &Vec<ActivePlayer>) -> (r: Vec<ActivePlayer>)
    ensures
        r@ == v@,
{
    let mut r: Vec<ActivePlayer> = Vec::new();
    let mut i: usize = 0;
    while i < v.len()
        invariant
            i <= v.len(),
            r@ == v@.take(i as int),
        decreases v.len() - i,
    {
        let e = &v[i];
        let c = ActivePlayer {
            id: e.id.clone(),
            bet: e.bet,
            stack: e.stack,
            is_inactive: e.is_inactive,
            is_big_blind: e.is_big_blind,
        };
        proof {
            assert(c == v@[i as int]);
        }
        r.push(c);
        proof {
            assert(r@ =~= v@.take((i + 1) as int));
        }
        i += 1;
    }
    proof {
        assert(v@.take(v@.len() as int) =~= v@);
    }
    r
}

/// A copy of a street snapshot with the same mathematical value.
pub fn dup_street_event(e: &StreetEvent) -> (r: StreetEvent)
    ensures
        r@ == e@,
{
    StreetEvent {
        street_type: e.street_type,
        current_active_players: dup_active_list(&e.current_active_players),
        pot: e.pot,
    }
}

/// A copy of a player event, equal to the original.
pub fn dup_player_event(e: &PlayerEvent) -> (r: PlayerEvent)
    ensures
        r == *e,
{
    PlayerEvent {
        player_id: e.player_id.clone(),
        action: e.action,
        amount: e.amount,
        street_type: e.street_type,
        current_stack: e.current_stack,
        current_pot: e.current_pot,
    }
}

/// A copy of a dealt board with the same mathematical value.
pub fn dup_cards(c: &Cards) -> (r: Cards)
    ensures
        r@ == c@,
{
    Cards { flop: dup_string_list(&c.flop), turn: c.turn.clone(), river: c.river.clone() }
}

/// What the dealing service returns for one seat: the seat's hole cards,
/// their rank, and a human-readable description of the holding.
#[derive(Clone, Debug, PartialEq)]
pub struct DealtSeat {
    pub score: u64,
    pub cards: Vec<String>,
    pub description: String,
}

/// Mathematical value of [`DealtSeat`].
pub ghost struct DealtSeatV {
    pub score: int,
    pub cards: Seq<Seq<char>>,
    pub description: Seq<char>,
}

impl View for DealtSeat {
    type V = DealtSeatV;

    open spec fn view(&self) -> DealtSeatV {
        DealtSeatV {
            score: self.score as int,
            cards: self.cards.deep_view(),
            description: self.description@,
        }
    }
}

impl DeepView for DealtSeat {
    type V = DealtSeatV;

    open spec fn deep_view(&self) -> DealtSeatV {
        self.view()
    }
}

/// Everything the dealing service produces for one hand: the board and
/// one dealt seat per requested seat, in seating order.
#[derive(Clone, Debug, PartialEq)]
pub struct DealResult {
    pub board: Cards,
    pub hands: Vec<DealtSeat>,
}

/// Mathematical value of [`DealResult`].
pub ghost struct DealResultV {
    pub board: CardsV,
    pub hands: Seq<DealtSeatV>,
}

impl View for DealResult {
    type V = DealResultV;

    open spec fn view(&self) -> DealResultV {
        DealResultV { board: self.board@, hands: self.hands.deep_view() }
    }
}

impl DeepView for DealResult {
    type V = DealResultV;

    open spec fn deep_view(&self) -> DealResultV {
        self.view()
    }
}

} // verus!
