use atlas::card::{AtlasCard, AtlasSuit, AtlasValue};
use atlas::player::{Player, PlayerAct};
use atlas::service::new_seated_player;
use atlas::table::{Table, TableError, TableState, TableStreet};
use atlas::table_check::is_rankable;

fn player(id: &str, buy_in: u64) -> Player {
    new_seated_player(id.to_string(), format!("nick-{}", id), buy_in)
}

fn table_with(ids: &[&str]) -> Table {
    let mut t = Table::new_six(10, 20);
    for (i, id) in ids.iter().enumerate() {
        t.sit(i, player(id, 2000)).unwrap();
    }
    t
}

#[test]
fn new_tables_are_empty_and_waiting() {
    let t = Table::new_six(10, 20);
    assert_eq!(t.seats.len(), 6);
    assert!(t.seats.iter().all(|s| s.is_none()));
    assert_eq!(t.state, TableState::Waiting);
    assert_eq!(t.street, TableStreet::PreFlop);
    assert_eq!(t.id.chars().count(), 26);
    assert_eq!(t.deck.len(), 52);
    let t10 = Table::new_ten(5, 10);
    assert_eq!(t10.seats.len(), 10);
    assert_eq!(t10.small_blind_amount, 5);
    assert_eq!(t10.big_blind_amount, 10);
}

#[test]
fn sit_places_a_fresh_player() {
    let mut t = Table::new_six(10, 20);
    let mut p = player("a", 1000);
    p.is_active = true;
    p.total_bet = 7;
    assert_eq!(t.sit(2, p), Ok(()));
    let seated = t.seats[2].as_ref().unwrap();
    assert_eq!(seated.id, "a");
    assert!(!seated.is_active);
    assert_eq!(seated.total_bet, 0);
    assert_eq!(t.find_seat_index_by_player_id("a"), Some(2));
    assert_eq!(t.find_player_id_by_seat_index(2), Some("a".to_string()));
    assert_eq!(t.find_player_id_by_seat_index(3), None);
}

#[test]
fn sit_refusals() {
    let mut t = Table::new_six(10, 20);
    assert_eq!(t.sit(6, player("a", 1000)), Err(TableError::InvalidSeat));
    assert_eq!(t.sit(0, player("a", 1000)), Ok(()));
    assert_eq!(t.sit(0, player("b", 1000)), Err(TableError::SeatOccupied));
    assert_eq!(t.sit(1, player("c", 399)), Err(TableError::InvalidBuyIn { min: 400, max: 2000, actual: 399 }));
    assert_eq!(t.sit(1, player("c", 2001)), Err(TableError::InvalidBuyIn { min: 400, max: 2000, actual: 2001 }));
    assert_eq!(t.sit(1, player("c", 400)), Ok(()));
    assert_eq!(t.sit(2, player("d", 2000)), Ok(()));
    // Sitting again is accepted and changes nothing.
    assert_eq!(t.sit(5, player("a", 1000)), Ok(()));
    assert!(t.seats[5].is_none());
    assert_eq!(t.find_seat_index_by_player_id("a"), Some(0));
}

#[test]
fn leave_empties_the_seat() {
    let mut t = table_with(&["a", "b"]);
    assert_eq!(t.leave("a"), Ok(()));
    assert!(t.seats[0].is_none());
    assert_eq!(t.find_seat_index_by_player_id("a"), None);
    assert_eq!(t.leave("a"), Err(TableError::PlayerNotAtTable));
    assert_eq!(t.leave("zzz"), Err(TableError::PlayerNotAtTable));
}

#[test]
fn start_needs_two_players() {
    let mut t = table_with(&["a"]);
    assert!(t.can_start());
    assert_eq!(t.start(), Err(TableError::NotEnoughPlayers));
    assert_eq!(t.state, TableState::Waiting);
}

#[test]
fn start_posts_blinds_and_deals() {
    let mut t = table_with(&["a", "b", "c"]);
    assert!(t.can_start());
    assert_eq!(t.start(), Ok(()));
    assert_eq!(t.state, TableState::Battling);
    assert_eq!(t.street, TableStreet::PreFlop);
    assert_eq!(t.hand_id.chars().count(), 26);
    assert_eq!(t.dealer_pos, 1);
    assert_eq!(t.small_blind_pos, 2);
    assert_eq!(t.big_blind_pos, 0);
    assert_eq!(t.current_turn, 1);
    assert_eq!(t.last_raiser_pos, 0);
    assert_eq!(t.current_bet, 20);
    assert_eq!(t.pot, 30);
    let sb = t.seats[2].as_ref().unwrap();
    let bb = t.seats[0].as_ref().unwrap();
    assert_eq!((sb.balance, sb.street_bet, sb.total_bet, sb.has_acted), (1990, 10, 10, false));
    assert_eq!((bb.balance, bb.street_bet, bb.total_bet, bb.has_acted), (1980, 20, 20, false));
    let mut cards: Vec<AtlasCard> = Vec::new();
    for s in t.seats.iter().flatten() {
        assert!(s.is_active);
        cards.push(s.hand_cards[0].unwrap());
        cards.push(s.hand_cards[1].unwrap());
    }
    assert_eq!(t.deck.len(), 52 - 6);
    for i in 0..cards.len() {
        for j in i + 1..cards.len() {
            assert_ne!(cards[i], cards[j]);
        }
    }
    assert!(t.community_cards.iter().all(|c| c.is_none()));
    assert_eq!(t.start(), Err(TableError::InvalidState));
}

#[test]
fn act_refusals_change_nothing() {
    let mut t = table_with(&["a", "b", "c"]);
    assert_eq!(t.act("a".to_string(), PlayerAct::Check), Err(TableError::InvalidState));
    t.start().unwrap();
    assert_eq!(t.act("zzz".to_string(), PlayerAct::Fold), Err(TableError::PlayerNotAtTable));
    assert_eq!(t.act("a".to_string(), PlayerAct::Fold), Err(TableError::InvalidSeat));
    assert!(t.can_act(&"b".to_string(), PlayerAct::Check));
    assert_eq!(t.act("b".to_string(), PlayerAct::Check), Err(TableError::InvalidAction));
    assert_eq!(t.act("b".to_string(), PlayerAct::Bet(50)), Err(TableError::InvalidAction));
    assert_eq!(t.act("b".to_string(), PlayerAct::Raise(10)), Err(TableError::InvalidAction));
    assert_eq!(t.current_turn, 1);
    assert_eq!(t.pot, 30);
}

#[test]
fn call_moves_turn_and_chips() {
    let mut t = table_with(&["a", "b", "c"]);
    t.start().unwrap();
    assert_eq!(t.act("b".to_string(), PlayerAct::Call), Ok(()));
    let b = t.seats[1].as_ref().unwrap();
    assert_eq!((b.balance, b.street_bet, b.acted_view.as_str()), (1980, 20, "call"));
    assert_eq!(t.pot, 50);
    assert_eq!(t.current_turn, 2);
    assert!(t.current_turn_act.call && t.current_turn_act.raise && t.current_turn_act.fold);
    assert!(!t.current_turn_act.check && !t.current_turn_act.bet);
}

#[test]
fn raise_reopens_the_round() {
    let mut t = table_with(&["a", "b", "c"]);
    t.start().unwrap();
    assert_eq!(t.act("b".to_string(), PlayerAct::Raise(60)), Ok(()));
    assert_eq!(t.current_bet, 60);
    assert_eq!(t.last_raiser_pos, 1);
    let b = t.seats[1].as_ref().unwrap();
    assert_eq!((b.street_bet, b.balance), (60, 1940));
    assert!(!t.seats[0].as_ref().unwrap().has_acted);
    assert!(!t.seats[2].as_ref().unwrap().has_acted);
    assert_eq!(t.pot, 90);
}

#[test]
fn folds_end_the_hand() {
    let mut t = table_with(&["a", "b", "c"]);
    t.start().unwrap();
    assert_eq!(t.act("b".to_string(), PlayerAct::Fold), Ok(()));
    assert_eq!(t.act("c".to_string(), PlayerAct::Fold), Ok(()));
    assert_eq!(t.state, TableState::Concluding);
    let total: u64 = t.seats.iter().flatten().map(|p| p.balance).sum();
    assert_eq!(total, 6000);
    let a = t.seats[0].as_ref().unwrap();
    assert!(a.win);
    assert_eq!(a.balance, 2010);
}

#[test]
fn a_checked_down_hand_keeps_every_chip() {
    let mut t = table_with(&["a", "b"]);
    t.start().unwrap();
    // Two players: the button and the big blind fall on the same seat.
    assert_eq!(t.dealer_pos, 1);
    assert_eq!(t.small_blind_pos, 0);
    assert_eq!(t.big_blind_pos, 1);
    assert_eq!(t.current_turn, 0);
    assert_eq!(t.act("a".to_string(), PlayerAct::Call), Ok(()));
    // The big blind cannot check a bet; calling puts in nothing more.
    assert_eq!(t.act("b".to_string(), PlayerAct::Check), Err(TableError::InvalidAction));
    assert_eq!(t.act("b".to_string(), PlayerAct::Call), Ok(()));
    assert_eq!(t.street, TableStreet::Flop);
    assert_eq!(t.street_log, vec![TableStreet::PreFlop]);
    assert_eq!(t.community_cards.iter().filter(|c| c.is_some()).count(), 3);
    for _ in 0..3 {
        let first = t.find_player_id_by_seat_index(t.current_turn).unwrap();
        assert_eq!(t.act(first, PlayerAct::Check), Ok(()));
        let second = t.find_player_id_by_seat_index(t.current_turn).unwrap();
        assert_eq!(t.act(second, PlayerAct::Check), Ok(()));
    }
    assert_eq!(t.state, TableState::Concluding);
    assert_eq!(t.street, TableStreet::River);
    let total: u64 = t.seats.iter().flatten().map(|p| p.balance).sum();
    assert_eq!(total, 4000);
    assert!(t.seats.iter().flatten().any(|p| p.win));
    for p in t.seats.iter().flatten() {
        assert!(p.cards_rank.is_some());
        assert_eq!(p.cards_str.split(' ').count(), 2 + 1 + 5);
    }
}

#[test]
fn post_amount_caps_at_the_stack() {
    let mut t = table_with(&["a", "b"]);
    t.seats[0].as_mut().unwrap().balance = 30;
    assert!(t.can_post(0, 50));
    assert!(t.post_amount(0, 50));
    let a = t.seats[0].as_ref().unwrap();
    assert_eq!((a.balance, a.street_bet, a.total_bet, a.is_all_in), (0, 30, 30, true));
    assert_eq!((t.pot, t.current_bet, t.last_raiser_pos), (30, 30, 0));
    assert!(!t.post_amount(1, 10));
    assert_eq!(t.current_bet, 30);
    assert!(!t.can_post(4, 10));
}

#[test]
fn next_seat_skips_empty_and_all_in_seats() {
    let mut t = table_with(&["a", "b", "c"]);
    for s in t.seats.iter_mut().flatten() {
        s.is_active = true;
    }
    assert_eq!(t.next_occupied_seat(0), Some(1));
    assert_eq!(t.next_occupied_seat(2), Some(0));
    t.seats[1].as_mut().unwrap().is_all_in = true;
    assert_eq!(t.next_occupied_seat(0), Some(2));
    t.seats[2].as_mut().unwrap().is_active = false;
    assert_eq!(t.next_occupied_seat(0), None);
    assert!(t.can_walk_from(0));
    assert!(!t.can_walk_from(usize::MAX));
}

#[test]
fn betting_round_complete_cases() {
    let mut t = table_with(&["a", "b"]);
    t.start().unwrap();
    assert!(!t.betting_round_complete());
    for s in t.seats.iter_mut().flatten() {
        s.has_acted = true;
    }
    assert!(t.betting_round_complete());
    t.seats[0].as_mut().unwrap().has_acted = false;
    t.seats[0].as_mut().unwrap().is_active = false;
    assert!(t.betting_round_complete());
}

#[test]
fn evaluate_hands_ranks_and_marks_winners() {
    let mut t = table_with(&["a", "b"]);
    let c = |suit, value| Some(AtlasCard { suit, value });
    t.seats[0].as_mut().unwrap().hand_cards = [c(AtlasSuit::Heart, AtlasValue::Ace), c(AtlasSuit::Diamond, AtlasValue::Ace)];
    t.seats[1].as_mut().unwrap().hand_cards = [c(AtlasSuit::Heart, AtlasValue::Two), c(AtlasSuit::Diamond, AtlasValue::Seven)];
    t.community_cards = [
        c(AtlasSuit::Club, AtlasValue::King),
        c(AtlasSuit::Spade, AtlasValue::Nine),
        c(AtlasSuit::Club, AtlasValue::Four),
        None,
        None,
    ];
    assert!(t.can_evaluate());
    assert!(t.evaluate_hands().is_empty());
    let a = t.seats[0].as_ref().unwrap();
    let b = t.seats[1].as_ref().unwrap();
    assert!(a.win);
    assert!(!b.win);
    assert!(matches!(a.cards_rank, Some(atlas::rank::HandRank::OnePair(_))));
    assert!(matches!(b.cards_rank, Some(atlas::rank::HandRank::HighCard(_))));
    assert_eq!(a.cards_str, "\u{2665}A \u{2666}A | \u{2663}K \u{2660}9 \u{2663}4");
}

#[test]
fn can_evaluate_refuses_five_of_a_value() {
    let mut t = table_with(&["a"]);
    let c = |suit, value| Some(AtlasCard { suit, value });
    t.seats[0].as_mut().unwrap().hand_cards = [c(AtlasSuit::Heart, AtlasValue::Ace), c(AtlasSuit::Heart, AtlasValue::Ace)];
    t.community_cards = [
        c(AtlasSuit::Club, AtlasValue::Ace),
        c(AtlasSuit::Spade, AtlasValue::Ace),
        c(AtlasSuit::Diamond, AtlasValue::Ace),
        None,
        None,
    ];
    assert!(!t.can_evaluate());
    let empty = Table::new_six(10, 20);
    assert!(!empty.can_evaluate());
}

#[test]
fn duplicate_copies_the_table() {
    let mut t = table_with(&["a", "b"]);
    t.start().unwrap();
    let d = t.duplicate();
    assert_eq!(d.id, t.id);
    assert_eq!(d.hand_id, t.hand_id);
    assert_eq!(d.deck.cards, t.deck.cards);
    assert_eq!(d.pot, t.pot);
    assert_eq!(d.seats[0].as_ref().unwrap().hand_cards, t.seats[0].as_ref().unwrap().hand_cards);
}

#[test]
fn start_lets_sit_out_players_go() {
    let mut t = table_with(&["a", "b", "c"]);
    t.seats[1].as_mut().unwrap().sit_out = true;
    assert_eq!(t.start(), Ok(()));
    assert!(t.seats[1].is_none());
    assert_eq!(t.find_seat_index_by_player_id("a"), Some(0));
    assert_eq!(t.find_seat_index_by_player_id("c"), Some(2));
}

#[test]
fn acting_keeps_everyone_in_their_seat() {
    let mut t = table_with(&["a", "b", "c"]);
    t.start().unwrap();
    let before: Vec<Option<String>> = t.seats.iter().map(|s| s.as_ref().map(|p| p.id.clone())).collect();
    for action in [PlayerAct::Call, PlayerAct::Fold, PlayerAct::Call, PlayerAct::Check] {
        let id = t.find_player_id_by_seat_index(t.current_turn).unwrap();
        let _ = t.act(id, action);
        let now: Vec<Option<String>> = t.seats.iter().map(|s| s.as_ref().map(|p| p.id.clone())).collect();
        assert_eq!(now, before);
    }
}

#[test]
fn offered_actions_are_the_accepted_ones() {
    let mut t = table_with(&["a", "b", "c"]);
    t.start().unwrap();
    t.act("b".to_string(), PlayerAct::Call).unwrap();
    let offered = t.current_turn_act;
    let id = t.find_player_id_by_seat_index(t.current_turn).unwrap();
    for (action, flag) in [
        (PlayerAct::Check, offered.check),
        (PlayerAct::Bet(5), offered.bet),
        (PlayerAct::Call, offered.call),
        (PlayerAct::Raise(100), offered.raise),
        (PlayerAct::Fold, offered.fold),
    ] {
        let mut copy = t.duplicate();
        let accepted = copy.act(id.clone(), action).is_ok();
        assert_eq!(accepted, flag);
    }
}

#[test]
fn posting_keeps_the_chips_at_the_table() {
    let mut t = table_with(&["a", "b"]);
    let chips = |t: &Table| t.seats.iter().flatten().map(|p| p.balance).sum::<u64>() + t.pot;
    let before = chips(&t);
    t.post_amount(0, 150);
    t.post_amount(1, 5000);
    assert_eq!(chips(&t), before);
    for p in t.seats.iter().flatten() {
        assert_eq!(p.balance + p.total_bet, 2000);
    }
}

#[test]
fn rankable_cards() {
    assert!(is_rankable(&vec![(12, 0), (12, 1)]));
    assert!(is_rankable(&vec![]));
    assert!(!is_rankable(&vec![(12, 0), (12, 1), (12, 2), (12, 3)]));
    assert!(!is_rankable(&vec![(12, 0), (12, 1), (11, 2), (11, 3)]));
    assert!(is_rankable(&vec![(12, 0), (12, 1), (11, 2), (11, 3), (2, 0)]));
    assert!(is_rankable(&vec![(12, 0), (12, 1), (12, 2), (12, 3), (2, 0)]));
    assert!(!is_rankable(&vec![(12, 0), (12, 1), (12, 2), (12, 3), (11, 0), (11, 1), (11, 2), (11, 3)]));
    assert!(!is_rankable(&vec![(13, 0)]));
    assert!(!is_rankable(&vec![(1, 4)]));
    assert!(!is_rankable(&vec![(3, 0); 5]));
}

fn cards_at(t: &Table) -> Vec<AtlasCard> {
    let mut all: Vec<AtlasCard> = Vec::new();
    for p in t.seats.iter().flatten() {
        all.extend(p.hand_cards.iter().flatten().copied());
    }
    all.extend(t.community_cards.iter().flatten().copied());
    all.extend(t.deck.cards.iter().copied());
    all
}

fn is_whole_deck(cards: &[AtlasCard]) -> bool {
    cards.len() == 52 && (0..cards.len()).all(|i| (i + 1..cards.len()).all(|j| cards[i] != cards[j]))
}

#[test]
fn every_card_stays_at_the_table() {
    let mut t = table_with(&["a", "b", "c"]);
    assert!(is_whole_deck(&cards_at(&t)));
    t.start().unwrap();
    assert!(is_whole_deck(&cards_at(&t)));
    assert_eq!(t.deck.cards.len(), 52 - 6);
    // A player sitting down mid-hand brings no cards, and takes none away.
    t.sit(3, player("d", 2000)).unwrap();
    assert!(is_whole_deck(&cards_at(&t)));
    t.leave("d").unwrap();
    assert!(is_whole_deck(&cards_at(&t)));
    let mut steps = 0;
    while t.state == TableState::Battling && steps < 40 {
        let id = t.find_player_id_by_seat_index(t.current_turn).unwrap();
        let action = if t.current_bet == 0 { PlayerAct::Check } else { PlayerAct::Call };
        assert_eq!(t.act(id, action), Ok(()));
        assert!(is_whole_deck(&cards_at(&t)));
        steps += 1;
    }
    assert_eq!(t.state, TableState::Concluding);
    assert_eq!(t.community_cards.iter().flatten().count(), 5);
    assert_eq!(t.deck.cards.len(), 52 - 6 - 5);
}

fn stacks(t: &Table) -> u64 {
    t.seats.iter().flatten().map(|p| p.balance).sum()
}

fn hand_bets(t: &Table) -> u64 {
    t.seats.iter().flatten().map(|p| p.total_bet).sum()
}

#[test]
fn chips_stay_at_the_table() {
    let mut t = table_with(&["a", "b", "c"]);
    assert_eq!(stacks(&t) + t.pot, 6000);
    t.start().unwrap();
    assert_eq!(t.pot, 30);
    assert_eq!(stacks(&t) + t.pot, 6000);
    assert_eq!(hand_bets(&t), t.pot);
    let mut steps = 0;
    while t.state == TableState::Battling && steps < 40 {
        let id = t.find_player_id_by_seat_index(t.current_turn).unwrap();
        let action = if t.current_bet == 0 { PlayerAct::Bet(20) } else { PlayerAct::Call };
        assert_eq!(t.act(id, action), Ok(()));
        assert_eq!(hand_bets(&t), t.pot);
        if t.state == TableState::Battling {
            assert_eq!(stacks(&t) + t.pot, 6000);
            for p in t.seats.iter().flatten() {
                assert_eq!(p.balance + p.total_bet, 2000);
            }
        }
        steps += 1;
    }
    assert_eq!(t.state, TableState::Concluding);
    // Everyone called every bet, so every pot has a contender and is paid.
    assert_eq!(t.pot, 3 * (20 + 20 * 3));
    assert_eq!(stacks(&t), 6000);
}

fn turn_may_act(t: &Table) -> bool {
    match t.seats.get(t.current_turn) {
        Some(Some(p)) => p.is_active && !p.is_all_in,
        _ => false,
    }
}

#[test]
fn the_turn_is_on_a_player_who_may_act() {
    let mut t = table_with(&["a", "b", "c", "d"]);
    t.start().unwrap();
    assert!(turn_may_act(&t));
    let first = t.find_player_id_by_seat_index(t.current_turn).unwrap();
    assert_eq!(t.act(first, PlayerAct::Fold), Ok(()));
    assert!(turn_may_act(&t));
    let second = t.find_player_id_by_seat_index(t.current_turn).unwrap();
    assert_eq!(t.act(second, PlayerAct::Raise(100)), Ok(()));
    assert!(turn_may_act(&t));
    let mut steps = 0;
    while t.state == TableState::Battling && steps < 40 {
        let id = t.find_player_id_by_seat_index(t.current_turn).unwrap();
        let action = if t.current_bet == 0 { PlayerAct::Check } else { PlayerAct::Call };
        assert_eq!(t.act(id, action), Ok(()));
        if t.state == TableState::Battling {
            assert!(turn_may_act(&t));
        }
        steps += 1;
    }
    assert_eq!(t.state, TableState::Concluding);
}

#[test]
fn accepted_actions_are_logged() {
    let mut t = table_with(&["a", "b", "c"]);
    assert!(t.act_log.is_empty());
    assert!(t.table_log.is_empty());
    t.start().unwrap();
    let first = t.find_player_id_by_seat_index(t.current_turn).unwrap();
    let other = if first == "a" { "b" } else { "a" };
    assert!(t.act(other.to_string(), PlayerAct::Call).is_err());
    assert!(t.act_log.is_empty());
    assert_eq!(t.act(first.clone(), PlayerAct::Call), Ok(()));
    assert_eq!(t.act_log, vec![format!("HAND {} | [nick-{}] act call ", t.hand_id, first)]);
    let second = t.find_player_id_by_seat_index(t.current_turn).unwrap();
    assert_eq!(t.act(second.clone(), PlayerAct::Fold), Ok(()));
    assert_eq!(t.act_log.len(), 2);
    assert_eq!(t.act_log[1], format!("HAND {} | [nick-{}] act fold ", t.hand_id, second));
}
