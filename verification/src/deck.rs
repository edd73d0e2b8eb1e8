use vstd::prelude::*;
use crate::card::{AtlasCard, AtlasSuit, AtlasValue, value_at, value_index, lemma_value_roundtrip};

verus! {

broadcast use {vstd::seq_lib::group_to_multiset_ensures, vstd::multiset::group_multiset_axioms};

/// A pile of cards. The top of the pile is the end of `cards`.
#[derive(Debug)]
pub struct AtlasDeck {
    pub cards: Vec<AtlasCard>,
}

/// The suit of the `i`-th block of thirteen cards in a fresh deck:
/// hearts, diamonds, clubs, spades.
pub open spec fn deck_suit(i: nat) -> AtlasSuit {
    if i == 0 {
        AtlasSuit::Heart
    } else if i == 1 {
        AtlasSuit::Diamond
    } else if i == 2 {
        AtlasSuit::Club
    } else {
        AtlasSuit::Spade
    }
}

/// The 52 cards of a fresh deck: each suit in the order of `deck_suit`, each
/// suit from `Two` to `Ace`.
pub open spec fn full_deck() -> Seq<AtlasCard> {
    Seq::new(52, |i: int| AtlasCard { suit: deck_suit((i / 13) as nat), value: value_at((i % 13) as nat) })
}

/// The position of a card in the fresh deck.
pub open spec fn deck_position(c: AtlasCard) -> int {
    let block = match c.suit {
        AtlasSuit::Heart => 0int,
        AtlasSuit::Diamond => 1,
        AtlasSuit::Club => 2,
        AtlasSuit::Spade => 3,
    };
    block * 13 + value_index(c.value)
}

/// `cards` holds each card of the fresh deck exactly once, in any order.
pub open spec fn is_full_deck_permutation(cards: Seq<AtlasCard>) -> bool {
    cards.to_multiset() == full_deck().to_multiset()
}

/// A fresh deck holds 52 distinct cards, and every card is among them.
pub proof fn lemma_full_deck()
    ensures
        full_deck().len() == 52,
        full_deck().no_duplicates(),
        forall|c: AtlasCard| #[trigger] full_deck().contains(c),
        forall|c: AtlasCard| 0 <= #[trigger] deck_position(c) < 52,
        forall|c: AtlasCard| full_deck()[#[trigger] deck_position(c)] == c,
{
    let d = full_deck();
    assert forall|c: AtlasCard| 0 <= #[trigger] deck_position(c) < 52 && d[deck_position(c)] == c by {
        lemma_value_roundtrip(c.value);
        let p = deck_position(c);
        let v = value_index(c.value) as int;
        let b = p / 13;
        assert(p / 13 == (p - v) / 13 && p % 13 == v) by (nonlinear_arith)
            requires
                0 <= v < 13,
                p - v == (p - v) / 13 * 13,
                (p - v) / 13 >= 0,
        {
        }
    }
    assert forall|c: AtlasCard| #[trigger] d.contains(c) by {
        assert(d[deck_position(c)] == c);
    }
    assert forall|i: int, j: int| 0 <= i < 52 && 0 <= j < 52 && i != j implies d[i] != d[j] by {
        assert(i == 13 * (i / 13) + i % 13 && 0 <= i % 13 < 13 && 0 <= i / 13 < 4) by (nonlinear_arith)
            requires 0 <= i < 52;
        assert(j == 13 * (j / 13) + j % 13 && 0 <= j % 13 < 13 && 0 <= j / 13 < 4) by (nonlinear_arith)
            requires 0 <= j < 52;
        if d[i] == d[j] {
            lemma_value_roundtrip(d[i].value);
            assert(value_index(value_at((i % 13) as nat)) == i % 13);
            assert(value_index(value_at((j % 13) as nat)) == j % 13);
        }
    }
}

/// A sequence that is a permutation of the fresh deck holds 52 distinct cards.
pub proof fn lemma_permutation_distinct(cards: Seq<AtlasCard>)
    requires
        is_full_deck_permutation(cards),
    ensures
        cards.len() == 52,
        cards.no_duplicates(),
{
    lemma_full_deck();
    full_deck().lemma_multiset_has_no_duplicates();
    cards.lemma_multiset_has_no_duplicates_conv();
    assert(cards.len() == cards.to_multiset().len());
    assert(full_deck().len() == full_deck().to_multiset().len());
}

fn deck_suit_exec(i: usize) -> (r: AtlasSuit)
    requires
        i < 4,
    ensures
        r == deck_suit(i as nat),
{
    if i == 0 {
        AtlasSuit::Heart
    } else if i == 1 {
        AtlasSuit::Diamond
    } else if i == 2 {
        AtlasSuit::Club
    } else {
        AtlasSuit::Spade
    }
}

fn value_at_exec(i: usize) -> (r: AtlasValue)
    requires
        i < 13,
    ensures
        r == value_at(i as nat),
{
    if i == 0 {
        AtlasValue::Two
    } else if i == 1 {
        AtlasValue::Three
    } else if i == 2 {
        AtlasValue::Four
    } else if i == 3 {
        AtlasValue::Five
    } else if i == 4 {
        AtlasValue::Six
    } else if i == 5 {
        AtlasValue::Seven
    } else if i == 6 {
        AtlasValue::Eight
    } else if i == 7 {
        AtlasValue::Nine
    } else if i == 8 {
        AtlasValue::Ten
    } else if i == 9 {
        AtlasValue::Jack
    } else if i == 10 {
        AtlasValue::Queen
    } else if i == 11 {
        AtlasValue::King
    } else {
        AtlasValue::Ace
    }
}

/// Appends the 52 cards of a fresh deck to `cards`.
fn push_full_deck(cards: &mut Vec<AtlasCard>)
    ensures
        final(cards)@ == old(cards)@ + full_deck(),
{
    let ghost start = cards@;
    let mut s: usize = 0;
    while s < 4
        invariant
            s <= 4,
            cards@ == start + full_deck().take(s * 13),
        decreases 4 - s,
    {
        let mut v: usize = 0;
        while v < 13
            invariant
                s < 4,
                v <= 13,
                cards@ == start + full_deck().take(s * 13 + v),
            decreases 13 - v,
        {
            let card = AtlasCard { suit: deck_suit_exec(s), value: value_at_exec(v) };
            proof {
                let k = (s * 13 + v) as int;
                assert(k / 13 == s as int && k % 13 == v as int) by (nonlinear_arith)
                    requires k == s * 13 + v, 0 <= v < 13;
                assert(full_deck()[k] == card);
                assert(full_deck().take(k + 1) =~= full_deck().take(k).push(card));
            }
            cards.push(card);
            v = v + 1;
        }
        s = s + 1;
    }
    assert(full_deck().take(52) =~= full_deck());
}

/// Shuffles `v` in place with `rand::seq::SliceRandom::shuffle` and the
/// thread-local generator `rand::rng()`. The contract claims only that the
/// result holds the same items as before: which order comes out depends on
/// the generator.
#[verifier::external_body]
fn shuffle_in_place<T>(v: &mut Vec<T>)
    ensures
        final(v)@.to_multiset() == old(v)@.to_multiset(),
{
    rand::seq::SliceRandom::shuffle(v.as_mut_slice(), &mut rand::rng());
}

impl AtlasDeck {
    /// A fresh, ordered deck of the 52 cards.
    pub fn new() -> (r: Self)
        ensures
            r.cards@ == full_deck(),
    {
        let mut cards: Vec<AtlasCard> = Vec::new();
        push_full_deck(&mut cards);
        assert(cards@ =~= full_deck());
        AtlasDeck { cards }
    }

    /// Refills the deck with all 52 cards and shuffles it.
    pub fn shuffle(&mut self)
        ensures
            is_full_deck_permutation(final(self).cards@),
    {
        self.cards.clear();
        push_full_deck(&mut self.cards);
        assert(self.cards@ =~= full_deck());
        shuffle_in_place(&mut self.cards);
    }

    /// Takes the top card, if any.
    pub fn deal_one(&mut self) -> (r: Option<AtlasCard>)
        ensures
            old(self).cards@.len() == 0 ==> r is None && final(self).cards@ == old(self).cards@,
            old(self).cards@.len() > 0 ==> r == Some(old(self).cards@.last())
                && final(self).cards@ == old(self).cards@.drop_last(),
    {
        self.cards.pop()
    }

    /// Number of cards left.
    pub fn len(&self) -> (r: usize)
        ensures
            r == self.cards@.len(),
    {
        self.cards.len()
    }

    /// Whether no card is left.
    pub fn is_empty(&self) -> (r: bool)
        ensures
            r == (self.cards@.len() == 0),
    {
        self.cards.len() == 0
    }
}

/// The numbers 0 to 51 in a random order.
pub fn shuffling() -> (r: Vec<u8>)
    ensures
        r@.to_multiset() == Seq::new(52, |i: int| i as u8).to_multiset(),
{
    let mut deck: Vec<u8> = Vec::new();
    let mut i: u8 = 0;
    while i < 52
        invariant
            i <= 52,
            deck@ == Seq::new(i as nat, |k: int| k as u8),
        decreases 52 - i,
    {
        deck.push(i);
        i = i + 1;
        assert(deck@ =~= Seq::new(i as nat, |k: int| k as u8));
    }
    shuffle_in_place(&mut deck);
    deck
}

} // verus!
