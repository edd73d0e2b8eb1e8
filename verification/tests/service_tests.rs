use atlas::card::{AtlasCard, AtlasSuit, AtlasValue};
use atlas::holdem_model::GameAction;
use atlas::holdem_types::{AtlasCardView, AtlasSuitKind, AtlasValueKind, GameActKind, PlayerView, TableStateKind, TableStreetKind};
use atlas::player::PlayerAct;
use atlas::service::{
    game_act, game_act_for, game_start, get_table_info, get_table_info_for, leave_table, leave_table_for, new_seated_player, sit_table,
    table_not_found, table_view, user_not_found,
};
use atlas::table::{Table, TableState, TableStreet};

fn seated(ids: &[&str]) -> Table {
    let mut t = Table::new_six(10, 20);
    for (i, id) in ids.iter().enumerate() {
        sit_table(&mut t, i as u8, new_seated_player(id.to_string(), format!("n{}", id), 1000)).unwrap();
    }
    t
}

#[test]
fn fixed_error_answers() {
    let e = table_not_found();
    assert_eq!((e.code, e.message.as_str(), e.data.is_none()), (404, "table not found", true));
    let e = user_not_found();
    assert_eq!((e.code, e.message.as_str(), e.data.is_none()), (404, "user not found", true));
}

#[test]
fn list_view_shows_nicknames() {
    let t = seated(&["a", "b"]);
    let v = table_view(&t);
    assert_eq!(v.id, t.id);
    assert_eq!(v.seats, vec![Some("na".to_string()), Some("nb".to_string()), None, None, None, None]);
    assert_eq!((v.small_blind_amount, v.big_blind_amount), (10, 20));
}

#[test]
fn sit_answers() {
    let mut t = Table::new_six(10, 20);
    let ok = sit_table(&mut t, 0, new_seated_player("a".to_string(), "na".to_string(), 1000)).unwrap();
    assert!(ok.ok);
    assert_eq!(ok.table_id, t.id);
    assert_eq!(ok.message.as_deref(), Some("sit table success"));
    let err = sit_table(&mut t, 0, new_seated_player("b".to_string(), "nb".to_string(), 1000)).unwrap_err();
    assert_eq!((err.code, err.message.as_str()), (10002, "seat already occupied"));
    let err = sit_table(&mut t, 1, new_seated_player("b".to_string(), "nb".to_string(), 5)).unwrap_err();
    assert_eq!(err.code, 10008);
    assert_eq!(err.message, "buy-in 5 not in allowed range (400 - 2000)");
    let err = sit_table(&mut t, 9, new_seated_player("b".to_string(), "nb".to_string(), 1000)).unwrap_err();
    assert_eq!(err.code, 10001);
}

#[test]
fn leave_answers() {
    let mut t = seated(&["a"]);
    let ok = leave_table(&mut t, "a").unwrap();
    assert!(ok.ok);
    assert_eq!(ok.message.as_deref(), Some("leave table success"));
    let err = leave_table(&mut t, "a").unwrap_err();
    assert_eq!((err.code, err.message.as_str()), (10004, "player not at seated"));
}

#[test]
fn start_and_act_answers() {
    let mut t = seated(&["a"]);
    assert_eq!(game_start(&mut t).unwrap_err().code, 10006);
    let mut t = seated(&["a", "b", "c"]);
    let ok = game_start(&mut t).unwrap();
    assert_eq!(ok.message.as_deref(), Some("start game success"));
    assert_eq!(game_start(&mut t).unwrap_err().code, 10005);
    let err = game_act(&mut t, "a".to_string(), PlayerAct::Call).unwrap_err();
    assert_eq!((err.code, err.message.as_str()), (10001, "invalid seat index"));
    let act: PlayerAct = GameAction::Call.into();
    let ok = game_act(&mut t, "b".to_string(), act).unwrap();
    assert_eq!(ok.message.as_deref(), Some("player act success"));
    let raise: PlayerAct = GameActKind::Raise(100).into();
    assert_eq!(raise, PlayerAct::Raise(100));
    let err = game_act(&mut t, "c".to_string(), PlayerAct::Check).unwrap_err();
    assert_eq!((err.code, err.message.as_str()), (10007, "invalid action for current betting state"));
}

#[test]
fn table_info_for_a_seated_player() {
    let mut t = seated(&["a", "b"]);
    t.start().unwrap();
    let err = get_table_info(&t, "zzz").unwrap_err();
    assert_eq!((err.code, err.message.as_str()), (403, "player not seated at this table"));
    let info = get_table_info(&t, "b").unwrap();
    assert_eq!(info.id, t.id);
    assert_eq!(info.seat_index, 1);
    assert_eq!(info.state, TableStateKind::Battling);
    assert_eq!(info.street, TableStreetKind::PreFlop);
    assert_eq!(info.hand_id, t.hand_id);
    assert_eq!((info.pot, info.current_bet), (30, 20));
    assert_eq!((info.dealer_pos, info.small_blind_pos, info.big_blind_pos, info.current_turn), (1, 0, 1, 0));
    // Starting a hand does not set the offered actions; acting does.
    assert!(!info.current_turn_act.call && !info.current_turn_act.fold);
    assert_eq!(info.seats.len(), 6);
    let a: &PlayerView = info.seats[0].as_ref().unwrap();
    assert_eq!((a.id.as_str(), a.nickname.as_str(), a.balance, a.street_bet), ("a", "na", 990, 10));
    assert!(info.seats[2].is_none());
    let mine = t.seats[1].as_ref().unwrap().hand_cards;
    for k in 0..2 {
        let c = mine[k].unwrap();
        assert_eq!(info.hand_cards[k], Some(AtlasCardView::from(c)));
    }
    assert!(info.community_cards.iter().all(|c| c.is_none()));
}

#[test]
fn client_views_of_cards_and_phases() {
    let v = AtlasCardView::from(AtlasCard { suit: AtlasSuit::Club, value: AtlasValue::Ten });
    assert_eq!(v, AtlasCardView { suit: AtlasSuitKind::Club, value: AtlasValueKind::Ten });
    assert_eq!(TableStateKind::from(TableState::Concluding), TableStateKind::Concluding);
    assert_eq!(TableStreetKind::from(TableStreet::River), TableStreetKind::River);
    assert!(TableStateKind::Waiting < TableStateKind::Battling);
    assert!(AtlasValueKind::Two < AtlasValueKind::Ace);
}

const ZERO_ID: &str = "00000000000000000000000000";
const ONE_ID: &str = "00000000000000000000000001";

fn id_bytes(last: u8) -> [u8; 16] {
    let mut b = [0u8; 16];
    b[15] = last;
    b
}

#[test]
fn callers_are_known_by_the_ulid_text_of_their_id_bytes() {
    let mut t = seated(&[ZERO_ID, ONE_ID, "c"]);
    let info = get_table_info_for(&t, id_bytes(1)).unwrap();
    assert_eq!(info.seat_index, 1);
    let err = get_table_info_for(&t, id_bytes(2)).unwrap_err();
    assert_eq!((err.code, err.message.as_str()), (403, "player not seated at this table"));
    game_start(&mut t).unwrap();
    let turn = t.find_player_id_by_seat_index(t.current_turn).unwrap();
    assert_eq!(turn, ONE_ID);
    let err = game_act_for(&mut t, id_bytes(0), PlayerAct::Call).unwrap().unwrap_err();
    assert_eq!(err.code, 10001);
    let ok = game_act_for(&mut t, id_bytes(1), PlayerAct::Call).unwrap().unwrap();
    assert_eq!(ok.message.as_deref(), Some("player act success"));
    let ok = leave_table_for(&mut t, id_bytes(1)).unwrap();
    assert_eq!(ok.message.as_deref(), Some("leave table success"));
    assert!(t.seats[1].is_none());
    assert_eq!(leave_table_for(&mut t, id_bytes(1)).unwrap_err().code, 10004);
}

#[test]
fn ulid_texts_are_base32_digits_of_the_id_bytes() {
    let t = seated(&["7ZZZZZZZZZZZZZZZZZZZZZZZZZ", "00000000000000000000000010", "0000000000000000000000000Z"]);
    assert_eq!(get_table_info_for(&t, [0xff; 16]).unwrap().seat_index, 0);
    assert_eq!(get_table_info_for(&t, id_bytes(32)).unwrap().seat_index, 1);
    assert_eq!(get_table_info_for(&t, id_bytes(31)).unwrap().seat_index, 2);
    assert!(get_table_info_for(&t, id_bytes(30)).is_err());
}
