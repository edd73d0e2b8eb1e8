use atlas::card::{AtlasCard, AtlasSuit, AtlasValue};
use atlas::deck::{shuffling, AtlasDeck};

fn all_distinct(cards: &[AtlasCard]) -> bool {
    for i in 0..cards.len() {
        for j in i + 1..cards.len() {
            if cards[i] == cards[j] {
                return false;
            }
        }
    }
    true
}

#[test]
fn a_fresh_deck_holds_every_card_once() {
    let d = AtlasDeck::new();
    assert_eq!(d.len(), 52);
    assert!(!d.is_empty());
    assert!(all_distinct(&d.cards));
    assert_eq!(d.cards[0], AtlasCard { suit: AtlasSuit::Heart, value: AtlasValue::Two });
    assert_eq!(d.cards[13], AtlasCard { suit: AtlasSuit::Diamond, value: AtlasValue::Two });
    assert_eq!(d.cards[51], AtlasCard { suit: AtlasSuit::Spade, value: AtlasValue::Ace });
}

#[test]
fn dealing_takes_the_top_card() {
    let mut d = AtlasDeck::new();
    assert_eq!(d.deal_one(), Some(AtlasCard { suit: AtlasSuit::Spade, value: AtlasValue::Ace }));
    assert_eq!(d.deal_one(), Some(AtlasCard { suit: AtlasSuit::Spade, value: AtlasValue::King }));
    assert_eq!(d.len(), 50);
    for _ in 0..50 {
        assert!(d.deal_one().is_some());
    }
    assert!(d.is_empty());
    assert_eq!(d.deal_one(), None);
}

#[test]
fn shuffling_refills_and_permutes() {
    let mut d = AtlasDeck::new();
    d.deal_one();
    d.shuffle();
    assert_eq!(d.len(), 52);
    assert!(all_distinct(&d.cards));
    let mut s = shuffling();
    assert_eq!(s.len(), 52);
    s.sort();
    assert_eq!(s, (0..52).collect::<Vec<u8>>());
}

#[test]
fn card_texts_and_codes() {
    let c = AtlasCard { suit: AtlasSuit::Diamond, value: AtlasValue::Ten };
    assert_eq!(c.text(), "\u{2666}T");
    assert_eq!(c.code(), (8, 3));
    assert_eq!(AtlasSuit::Spade.index(), 0);
    assert_eq!(AtlasValue::Ace.index(), 12);
    assert_eq!(AtlasSuit::Club.symbol(), "\u{2663}");
    assert_eq!(AtlasValue::Queen.symbol(), "Q");
}

#[test]
fn shuffling_changes_the_order() {
    let fresh = AtlasDeck::new();
    let mut d = AtlasDeck::new();
    d.shuffle();
    let mut e = AtlasDeck::new();
    e.shuffle();
    // Two shuffles both leaving the fresh order has odds of one in (52!)^2.
    assert!(d.cards != fresh.cards || e.cards != fresh.cards);
    let s = shuffling();
    let t = shuffling();
    assert!(s != (0..52).collect::<Vec<u8>>() || t != (0..52).collect::<Vec<u8>>());
}
