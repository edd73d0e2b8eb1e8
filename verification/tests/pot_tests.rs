use atlas::player::Player;
use atlas::rank::HandRank;
use atlas::table::Table;

fn mock_player(name: &str, total_bet: u64, rank: HandRank, is_active: bool) -> Player {
    Player {
        id: name.to_string(),
        nickname: name.to_string(),
        balance: 0,
        hand_cards: [None, None],
        cards_str: String::new(),
        sit_out: false,
        win: false,
        cards_rank: Some(rank),
        is_active,
        has_acted: true,
        acted_view: String::new(),
        is_all_in: false,
        street_bet: 0,
        total_bet,
    }
}

fn table_of(players: Vec<Player>) -> Table {
    let mut t = Table::new_six(10, 20);
    t.seats = players.into_iter().map(Some).collect();
    t
}

fn settle(t: &mut Table) {
    let pots = t.build_pots();
    assert!(t.can_settle(&pots));
    t.settle_pots(pots);
}

fn balance(t: &Table, i: usize) -> u64 {
    t.seats[i].as_ref().unwrap().balance
}

fn won(t: &Table, i: usize) -> bool {
    t.seats[i].as_ref().unwrap().win
}

#[test]
fn test_side_pot_example_from_question() {
    let mut t = table_of(vec![
        mock_player("A", 2000, HandRank::StraightFlush(0), true),
        mock_player("B", 1000, HandRank::StraightFlush(0), true),
        mock_player("C", 1500, HandRank::StraightFlush(0), true),
        mock_player("D", 1000, HandRank::StraightFlush(0), false),
    ]);
    settle(&mut t);
    let total: u64 = (0..4).map(|i| balance(&t, i)).sum();
    assert_eq!(total, 5500);
    assert_eq!(balance(&t, 0), 2334);
    assert_eq!(balance(&t, 1), 1333);
    assert_eq!(balance(&t, 2), 1833);
    assert_eq!(balance(&t, 3), 0);
    assert!(won(&t, 0));
    assert!(won(&t, 1));
    assert!(won(&t, 2));
    assert!(!won(&t, 3));
}

#[test]
fn test_single_winner_no_side_pot() {
    let mut t = table_of(vec![
        mock_player("A", 1000, HandRank::StraightFlush(5), true),
        mock_player("B", 1000, HandRank::StraightFlush(2), true),
        mock_player("C", 1000, HandRank::StraightFlush(4), true),
    ]);
    settle(&mut t);
    assert_eq!(balance(&t, 0), 3000);
    assert_eq!(balance(&t, 1), 0);
    assert_eq!(balance(&t, 2), 0);
    assert!(won(&t, 0));
    assert!(!won(&t, 1));
    assert!(!won(&t, 2));
}

#[test]
fn test_all_in_side_pot() {
    let mut t = table_of(vec![
        mock_player("A", 500, HandRank::StraightFlush(9), true),
        mock_player("A", 1000, HandRank::StraightFlush(2), true),
        mock_player("A", 2000, HandRank::StraightFlush(1), true),
    ]);
    let pots = t.build_pots();
    assert_eq!(pots.iter().map(|p| p.amount).collect::<Vec<_>>(), vec![1500, 1000, 1000]);
    assert_eq!(pots[0].contenders, vec![0, 1, 2]);
    assert_eq!(pots[1].contenders, vec![1, 2]);
    assert_eq!(pots[2].contenders, vec![2]);
    settle(&mut t);
    assert_eq!(balance(&t, 0), 1500);
    assert_eq!(balance(&t, 1), 1000);
    assert_eq!(balance(&t, 2), 1000);
    assert!(won(&t, 0));
    assert!(won(&t, 1));
    assert!(won(&t, 2));
}

#[test]
fn test_everyone_fold_except_one() {
    let mut t = table_of(vec![
        mock_player("A", 1000, HandRank::StraightFlush(5), false),
        mock_player("A", 1000, HandRank::StraightFlush(5), false),
        mock_player("A", 1000, HandRank::StraightFlush(10), true),
    ]);
    settle(&mut t);
    assert_eq!(balance(&t, 2), 3000);
    assert!(won(&t, 2));
}

#[test]
fn pots_hold_every_bet_and_skip_zero_bets() {
    let t = table_of(vec![
        mock_player("A", 0, HandRank::HighCard(1), true),
        mock_player("B", 300, HandRank::HighCard(1), true),
        mock_player("C", 300, HandRank::HighCard(1), false),
        mock_player("D", 700, HandRank::HighCard(1), false),
    ]);
    assert_eq!(t.bet_total(), Some(1300));
    let pots = t.build_pots();
    assert_eq!(pots.len(), 2);
    assert_eq!((pots[0].amount, pots[0].contenders.clone()), (900, vec![1]));
    // Only the folded player D reached the top level: nobody contends for it.
    assert_eq!((pots[1].amount, pots[1].contenders.clone()), (400, vec![]));
    assert_eq!(pots.iter().map(|p| p.amount).sum::<u64>(), 1300);
}

#[test]
fn an_uncontended_pot_is_not_paid() {
    let mut t = table_of(vec![
        mock_player("B", 300, HandRank::HighCard(1), true),
        mock_player("D", 700, HandRank::HighCard(1), false),
    ]);
    settle(&mut t);
    assert_eq!(balance(&t, 0), 600);
    assert_eq!(balance(&t, 1), 0);
}

#[test]
fn can_settle_needs_ranked_contenders() {
    let mut p = mock_player("A", 100, HandRank::HighCard(1), true);
    p.cards_rank = None;
    let t = table_of(vec![p, mock_player("B", 100, HandRank::HighCard(1), true)]);
    let pots = t.build_pots();
    assert!(!t.can_settle(&pots));
    assert_eq!(t.balance_total(), Some(0));
}

#[test]
fn odd_chips_go_to_the_first_winner() {
    let mut t = table_of(vec![
        mock_player("A", 1, HandRank::OnePair(3), true),
        mock_player("B", 1, HandRank::OnePair(3), true),
        mock_player("C", 1, HandRank::HighCard(9), true),
    ]);
    settle(&mut t);
    assert_eq!(balance(&t, 0), 2);
    assert_eq!(balance(&t, 1), 1);
    assert_eq!(balance(&t, 2), 0);
}
