use vstd::prelude::*;
use vstd::std_specs::convert::FromSpecImpl;
use crate::card::{AtlasCard, AtlasSuit, AtlasValue};
use crate::player::{Player, PlayerAct, PlayerAvailableAct};
use crate::table::{TableState, TableStreet};

verus! {

/// The phase of a table as clients see it.
#[derive(Debug, Clone, Copy, PartialEq, Eq, PartialOrd, Ord, Structural)]
pub enum TableStateKind {
    Waiting,
    Preparing,
    Battling,
    Concluding,
}

/// The betting round of a hand as clients see it.
#[derive(Debug, Clone, Copy, PartialEq, Eq, PartialOrd, Ord, Structural)]
pub enum TableStreetKind {
    PreFlop,
    Flop,
    Turn,
    River,
}

/// An action a client asks for.
#[derive(Debug, Clone, Copy, PartialEq, Eq, PartialOrd, Ord, Structural)]
pub enum GameActKind {
    Fold,
    Call,
    Check,
    Bet(u64),
    Raise(u64),
}

/// A suit as clients see it.
#[derive(Debug, Clone, Copy, PartialEq, Eq, PartialOrd, Ord, Structural)]
pub enum AtlasSuitKind {
    Spade,
    Club,
    Heart,
    Diamond,
}

/// A card value as clients see it, lowest first.
#[derive(Debug, Clone, Copy, PartialEq, Eq, PartialOrd, Ord, Structural)]
pub enum AtlasValueKind {
    Two,
    Three,
    Four,
    Five,
    Six,
    Seven,
    Eight,
    Nine,
    Ten,
    Jack,
    Queen,
    King,
    Ace,
}

/// A table in the list of tables: who sits where, and the blinds.
#[derive(Debug, Clone)]
pub struct TableView {
    pub id: String,
    /// The nickname of the player in each seat.
    pub seats: Vec<Option<String>>,
    pub small_blind_amount: u64,
    pub big_blind_amount: u64,
}

/// What every client may see of a seated player.
#[derive(Debug, Clone)]
pub struct PlayerView {
    pub id: String,
    pub nickname: String,
    pub balance: u64,
    pub sit_out: bool,
    pub win: bool,
    pub is_active: bool,
    pub has_acted: bool,
    pub acted_view: String,
    pub is_all_in: bool,
    pub street_bet: u64,
    pub total_bet: u64,
}

/// A card as clients see it.
#[derive(Debug, Clone, Copy, PartialEq, Eq, PartialOrd, Ord, Structural)]
pub struct AtlasCardView {
    pub suit: AtlasSuitKind,
    pub value: AtlasValueKind,
}

/// Which actions the player on turn may take, as clients see it.
#[derive(Debug, Clone, Copy, PartialEq, Eq, Structural)]
pub struct PlayerAvailableActView {
    pub fold: bool,
    pub call: bool,
    pub check: bool,
    pub bet: bool,
    pub raise: bool,
}

pub open spec fn state_kind(s: TableState) -> TableStateKind {
    match s {
        TableState::Waiting => TableStateKind::Waiting,
        TableState::Preparing => TableStateKind::Preparing,
        TableState::Battling => TableStateKind::Battling,
        TableState::Concluding => TableStateKind::Concluding,
    }
}

impl From<TableState> for TableStateKind {
    fn from(state: TableState) -> (r: Self) {
        match state {
            TableState::Waiting => TableStateKind::Waiting,
            TableState::Preparing => TableStateKind::Preparing,
            TableState::Battling => TableStateKind::Battling,
            TableState::Concluding => TableStateKind::Concluding,
        }
    }
}

impl FromSpecImpl<TableState> for TableStateKind {
    open spec fn obeys_from_spec() -> bool {
        true
    }

    open spec fn from_spec(v: TableState) -> TableStateKind {
        state_kind(v)
    }
}

pub open spec fn street_kind(s: TableStreet) -> TableStreetKind {
    match s {
        TableStreet::PreFlop => TableStreetKind::PreFlop,
        TableStreet::Flop => TableStreetKind::Flop,
        TableStreet::Turn => TableStreetKind::Turn,
        TableStreet::River => TableStreetKind::River,
    }
}

impl From<TableStreet> for TableStreetKind {
    fn from(street: TableStreet) -> (r: Self) {
        match street {
            TableStreet::PreFlop => TableStreetKind::PreFlop,
            TableStreet::Flop => TableStreetKind::Flop,
            TableStreet::Turn => TableStreetKind::Turn,
            TableStreet::River => TableStreetKind::River,
        }
    }
}

impl FromSpecImpl<TableStreet> for TableStreetKind {
    open spec fn obeys_from_spec() -> bool {
        true
    }

    open spec fn from_spec(v: TableStreet) -> TableStreetKind {
        street_kind(v)
    }
}

/// The table action a client's request stands for.
pub open spec fn act_of_kind(k: GameActKind) -> PlayerAct {
    match k {
        GameActKind::Fold => PlayerAct::Fold,
        GameActKind::Call => PlayerAct::Call,
        GameActKind::Check => PlayerAct::Check,
        GameActKind::Bet(a) => PlayerAct::Bet(a),
        GameActKind::Raise(a) => PlayerAct::Raise(a),
    }
}

impl From<GameActKind> for PlayerAct {
    fn from(action: GameActKind) -> (r: Self) {
        match action {
            GameActKind::Fold => PlayerAct::Fold,
            GameActKind::Call => PlayerAct::Call,
            GameActKind::Check => PlayerAct::Check,
            GameActKind::Bet(amount) => PlayerAct::Bet(amount),
            GameActKind::Raise(amount) => PlayerAct::Raise(amount),
        }
    }
}

impl FromSpecImpl<GameActKind> for PlayerAct {
    open spec fn obeys_from_spec() -> bool {
        true
    }

    open spec fn from_spec(v: GameActKind) -> PlayerAct {
        act_of_kind(v)
    }
}

pub open spec fn available_view(a: PlayerAvailableAct) -> PlayerAvailableActView {
    PlayerAvailableActView { fold: a.fold, call: a.call, check: a.check, bet: a.bet, raise: a.raise }
}

impl From<PlayerAvailableAct> for PlayerAvailableActView {
    fn from(act: PlayerAvailableAct) -> (r: Self) {
        PlayerAvailableActView { fold: act.fold, call: act.call, check: act.check, bet: act.bet, raise: act.raise }
    }
}

impl FromSpecImpl<PlayerAvailableAct> for PlayerAvailableActView {
    open spec fn obeys_from_spec() -> bool {
        true
    }

    open spec fn from_spec(v: PlayerAvailableAct) -> PlayerAvailableActView {
        available_view(v)
    }
}

pub open spec fn suit_kind(s: AtlasSuit) -> AtlasSuitKind {
    match s {
        AtlasSuit::Spade => AtlasSuitKind::Spade,
        AtlasSuit::Club => AtlasSuitKind::Club,
        AtlasSuit::Heart => AtlasSuitKind::Heart,
        AtlasSuit::Diamond => AtlasSuitKind::Diamond,
    }
}

pub open spec fn value_kind(v: AtlasValue) -> AtlasValueKind {
    match v {
        AtlasValue::Two => AtlasValueKind::Two,
        AtlasValue::Three => AtlasValueKind::Three,
        AtlasValue::Four => AtlasValueKind::Four,
        AtlasValue::Five => AtlasValueKind::Five,
        AtlasValue::Six => AtlasValueKind::Six,
        AtlasValue::Seven => AtlasValueKind::Seven,
        AtlasValue::Eight => AtlasValueKind::Eight,
        AtlasValue::Nine => AtlasValueKind::Nine,
        AtlasValue::Ten => AtlasValueKind::Ten,
        AtlasValue::Jack => AtlasValueKind::Jack,
        AtlasValue::Queen => AtlasValueKind::Queen,
        AtlasValue::King => AtlasValueKind::King,
        AtlasValue::Ace => AtlasValueKind::Ace,
    }
}

/// A card as clients see it: the same suit and value.
pub open spec fn card_view(c: AtlasCard) -> AtlasCardView {
    AtlasCardView { suit: suit_kind(c.suit), value: value_kind(c.value) }
}

impl From<AtlasCard> for AtlasCardView {
    fn from(c: AtlasCard) -> (r: Self) {
        let suit = match c.suit {
            AtlasSuit::Spade => AtlasSuitKind::Spade,
            AtlasSuit::Club => AtlasSuitKind::Club,
            AtlasSuit::Heart => AtlasSuitKind::Heart,
            AtlasSuit::Diamond => AtlasSuitKind::Diamond,
        };
        let value = match c.value {
            AtlasValue::Two => AtlasValueKind::Two,
            AtlasValue::Three => AtlasValueKind::Three,
            AtlasValue::Four => AtlasValueKind::Four,
            AtlasValue::Five => AtlasValueKind::Five,
            AtlasValue::Six => AtlasValueKind::Six,
            AtlasValue::Seven => AtlasValueKind::Seven,
            AtlasValue::Eight => AtlasValueKind::Eight,
            AtlasValue::Nine => AtlasValueKind::Nine,
            AtlasValue::Ten => AtlasValueKind::Ten,
            AtlasValue::Jack => AtlasValueKind::Jack,
            AtlasValue::Queen => AtlasValueKind::Queen,
            AtlasValue::King => AtlasValueKind::King,
            AtlasValue::Ace => AtlasValueKind::Ace,
        };
        AtlasCardView { suit, value }
    }
}

impl FromSpecImpl<AtlasCard> for AtlasCardView {
    open spec fn obeys_from_spec() -> bool {
        true
    }

    open spec fn from_spec(v: AtlasCard) -> AtlasCardView {
        card_view(v)
    }
}

/// What a client sees of a player: everything but the cards and their rank.
pub open spec fn player_view_of(p: Player) -> PlayerView {
    PlayerView {
        id: p.id,
        nickname: p.nickname,
        balance: p.balance,
        sit_out: p.sit_out,
        win: p.win,
        is_active: p.is_active,
        has_acted: p.has_acted,
        acted_view: p.acted_view,
        is_all_in: p.is_all_in,
        street_bet: p.street_bet,
        total_bet: p.total_bet,
    }
}

/// A player's view carries the player's identity and chips unchanged: the
/// stack, the bet of the current round and what was put in during the whole
/// hand.
pub proof fn lemma_player_view_keeps_chips(p: Player)
    ensures
        player_view_of(p).id@ == p.id@,
        player_view_of(p).nickname@ == p.nickname@,
        player_view_of(p).balance == p.balance,
        player_view_of(p).street_bet == p.street_bet,
        player_view_of(p).total_bet == p.total_bet,
        player_view_of(p).is_all_in == p.is_all_in,
        player_view_of(p).is_active == p.is_active,
{
}

impl<'a> From<&'a Player> for PlayerView {
    fn from(player: &'a Player) -> (r: Self) {
        PlayerView {
            id: player.id.clone(),
            nickname: player.nickname.clone(),
            balance: player.balance,
            sit_out: player.sit_out,
            win: player.win,
            is_active: player.is_active,
            has_acted: player.has_acted,
            acted_view: player.acted_view.clone(),
            is_all_in: player.is_all_in,
            street_bet: player.street_bet,
            total_bet: player.total_bet,
        }
    }
}

impl<'a> FromSpecImpl<&'a Player> for PlayerView {
    open spec fn obeys_from_spec() -> bool {
        true
    }

    open spec fn from_spec(v: &'a Player) -> PlayerView {
        player_view_of(*v)
    }
}

} // verus!
