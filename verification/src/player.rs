use vstd::prelude::*;
use crate::card::AtlasCard;
use crate::rank::HandRank;

verus! {

/// A player sitting at a table, with the state of the current hand.
#[derive(Debug)]
pub struct Player {
    /// The player's unique id.
    pub id: String,
    pub nickname: String,
    /// Chips the player has left to bet.
    pub balance: u64,
    /// The two hole cards.
    pub hand_cards: [Option<AtlasCard>; 2],
    /// The hole cards and the board as last evaluated, for display.
    pub cards_str: String,
    /// Strength of the best hand made with the board, once evaluated.
    pub cards_rank: Option<HandRank>,
    /// Leaves when the next hand starts.
    pub sit_out: bool,
    /// Won (a share of) a pot, or holds the best hand so far.
    pub win: bool,
    /// Still in the hand (false once folded).
    pub is_active: bool,
    /// Has acted in the current betting round.
    pub has_acted: bool,
    /// How the player last acted: "fold", "check", "call", "bet", "raise" or empty.
    pub acted_view: String,
    pub is_all_in: bool,
    /// Chips put in during the current betting round.
    pub street_bet: u64,
    /// Chips put in during the whole hand.
    pub total_bet: u64,
}

/// The mathematical model of a `Player`.
pub struct PlayerModel {
    pub id: Seq<char>,
    pub nickname: Seq<char>,
    pub balance: u64,
    pub hand_cards: Seq<Option<AtlasCard>>,
    pub cards_str: Seq<char>,
    pub cards_rank: Option<HandRank>,
    pub sit_out: bool,
    pub win: bool,
    pub is_active: bool,
    pub has_acted: bool,
    pub acted_view: Seq<char>,
    pub is_all_in: bool,
    pub street_bet: u64,
    pub total_bet: u64,
}

impl View for Player {
    type V = PlayerModel;

    open spec fn view(&self) -> PlayerModel {
        PlayerModel {
            id: self.id@,
            nickname: self.nickname@,
            balance: self.balance,
            hand_cards: self.hand_cards@,
            cards_str: self.cards_str@,
            cards_rank: self.cards_rank,
            sit_out: self.sit_out,
            win: self.win,
            is_active: self.is_active,
            has_acted: self.has_acted,
            acted_view: self.acted_view@,
            is_all_in: self.is_all_in,
            street_bet: self.street_bet,
            total_bet: self.total_bet,
        }
    }
}

/// A player after `reset`: ready for a new hand, chips and identity kept.
pub open spec fn reset_model(p: PlayerModel) -> PlayerModel {
    PlayerModel {
        hand_cards: seq![None, None],
        cards_str: seq![],
        win: false,
        cards_rank: None,
        is_active: true,
        has_acted: false,
        is_all_in: false,
        street_bet: 0,
        total_bet: 0,
        ..p
    }
}

impl Player {
    /// Clears the state of the previous hand.
    pub fn reset(&mut self)
        ensures
            final(self)@ == reset_model(old(self)@),
    {
        self.hand_cards = [None, None];
        self.cards_str = String::new();
        self.win = false;
        self.cards_rank = None;
        self.is_active = true;
        self.has_acted = false;
        self.is_all_in = false;
        self.street_bet = 0;
        self.total_bet = 0;
        assert(self.hand_cards@ =~= seq![None, None]);
    }
}

/// What a player can do on their turn.
#[derive(Debug, Clone, Copy, PartialEq, Eq, Structural)]
pub enum PlayerAct {
    Fold,
    Call,
    Check,
    Bet(u64),
    Raise(u64),
}

/// Which actions the player on turn may take.
#[derive(Debug, Clone, Copy, PartialEq, Eq, Structural)]
pub struct PlayerAvailableAct {
    pub fold: bool,
    pub call: bool,
    pub check: bool,
    pub bet: bool,
    pub raise: bool,
}

/// The actions that `Table::act` accepts when the highest bet of the round is
/// `current_bet`: checking and betting only before anyone bet, calling and
/// raising only after; folding always.
pub open spec fn available_for(current_bet: u64) -> PlayerAvailableAct {
    PlayerAvailableAct {
        fold: true,
        call: current_bet != 0,
        check: current_bet == 0,
        bet: current_bet == 0,
        raise: current_bet != 0,
    }
}

impl PlayerAvailableAct {
    /// No action available.
    pub fn none() -> (r: Self)
        ensures
            !r.fold && !r.call && !r.check && !r.bet && !r.raise,
    {
        PlayerAvailableAct { fold: false, call: false, check: false, bet: false, raise: false }
    }

    /// Sets the flags for a round whose highest bet is `current_bet`.
    pub fn set_available(&mut self, current_bet: u64)
        ensures
            *final(self) == available_for(current_bet),
    {
        self.fold = true;
        self.call = current_bet != 0;
        self.check = current_bet == 0;
        self.bet = current_bet == 0;
        self.raise = current_bet != 0;
    }
}

} // verus!
