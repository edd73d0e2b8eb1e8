use vstd::prelude::*;

verus! {

/// The strength of a poker hand: a category, then a strength within it.
/// Categories are listed from the weakest to the strongest.
#[derive(Debug, Clone, Copy, PartialEq, Eq, Structural)]
pub enum HandRank {
    HighCard(u32),
    OnePair(u32),
    TwoPair(u32),
    ThreeOfAKind(u32),
    Straight(u32),
    Flush(u32),
    FullHouse(u32),
    FourOfAKind(u32),
    StraightFlush(u32),
}

/// Position of a rank's category, `HighCard` being 0.
pub open spec fn rank_category(r: HandRank) -> nat {
    match r {
        HandRank::HighCard(_) => 0,
        HandRank::OnePair(_) => 1,
        HandRank::TwoPair(_) => 2,
        HandRank::ThreeOfAKind(_) => 3,
        HandRank::Straight(_) => 4,
        HandRank::Flush(_) => 5,
        HandRank::FullHouse(_) => 6,
        HandRank::FourOfAKind(_) => 7,
        HandRank::StraightFlush(_) => 8,
    }
}

/// The strength inside the category.
pub open spec fn rank_strength(r: HandRank) -> u32 {
    match r {
        HandRank::HighCard(v) => v,
        HandRank::OnePair(v) => v,
        HandRank::TwoPair(v) => v,
        HandRank::ThreeOfAKind(v) => v,
        HandRank::Straight(v) => v,
        HandRank::Flush(v) => v,
        HandRank::FullHouse(v) => v,
        HandRank::FourOfAKind(v) => v,
        HandRank::StraightFlush(v) => v,
    }
}

/// `a` is no stronger than `b`: categories first, then the strength.
pub open spec fn rank_le(a: HandRank, b: HandRank) -> bool {
    rank_category(a) < rank_category(b) || (rank_category(a) == rank_category(b)
        && rank_strength(a) <= rank_strength(b))
}

/// The stronger of two ranks (`b` when they are equal in strength).
pub open spec fn rank_max(a: HandRank, b: HandRank) -> HandRank {
    if rank_le(a, b) {
        b
    } else {
        a
    }
}

pub proof fn lemma_rank_order(a: HandRank, b: HandRank, c: HandRank)
    ensures
        rank_le(a, a),
        rank_le(a, b) || rank_le(b, a),
        rank_le(a, b) && rank_le(b, a) ==> a == b,
        rank_le(a, b) && rank_le(b, c) ==> rank_le(a, c),
{
}

impl HandRank {
    /// The category's position.
    pub fn category(&self) -> (r: u8)
        ensures
            r == rank_category(*self),
    {
        match self {
            HandRank::HighCard(_) => 0,
            HandRank::OnePair(_) => 1,
            HandRank::TwoPair(_) => 2,
            HandRank::ThreeOfAKind(_) => 3,
            HandRank::Straight(_) => 4,
            HandRank::Flush(_) => 5,
            HandRank::FullHouse(_) => 6,
            HandRank::FourOfAKind(_) => 7,
            HandRank::StraightFlush(_) => 8,
        }
    }

    /// The strength inside the category.
    pub fn strength(&self) -> (r: u32)
        ensures
            r == rank_strength(*self),
    {
        match self {
            HandRank::HighCard(v) => *v,
            HandRank::OnePair(v) => *v,
            HandRank::TwoPair(v) => *v,
            HandRank::ThreeOfAKind(v) => *v,
            HandRank::Straight(v) => *v,
            HandRank::Flush(v) => *v,
            HandRank::FullHouse(v) => *v,
            HandRank::FourOfAKind(v) => *v,
            HandRank::StraightFlush(v) => *v,
        }
    }

    /// Whether this rank is no stronger than `other`.
    pub fn is_le(&self, other: &HandRank) -> (r: bool)
        ensures
            r == rank_le(*self, *other),
    {
        let (ca, cb) = (self.category(), other.category());
        ca < cb || (ca == cb && self.strength() <= other.strength())
    }
}

/// How many of `cards` have the value position `v`.
pub open spec fn value_count(cards: Seq<(u8, u8)>, v: u8) -> nat
    decreases cards.len(),
{
    if cards.len() == 0 {
        0
    } else {
        value_count(cards.drop_last(), v) + if cards.last().0 == v { 1nat } else { 0 }
    }
}

/// Cards that rs_poker's ranking handles: positions in range, at most four
/// cards of a value, not four cards that are four of a kind or two pairs
/// alone, and not cards that are all of four-of-a-kind values (with nothing
/// left beside the quads or pairs to keep, ranking would shift a bit out of
/// range).
pub open spec fn rankable(cards: Seq<(u8, u8)>) -> bool {
    &&& forall|i: int| 0 <= i < cards.len() ==> (#[trigger] cards[i]).0 < 13 && cards[i].1 < 4
    &&& forall|v: u8| #[trigger] value_count(cards, v) <= 4
    &&& !(cards.len() == 4 && forall|i: int| 0 <= i < 4 ==> #[trigger] value_count(cards, cards[i].0) % 2 == 0)
    &&& !(cards.len() > 0 && forall|i: int| 0 <= i < cards.len() ==> #[trigger] value_count(cards, cards[i].0) == 4)
}

/// The suits that accompany value `v` among `cards`.
spec fn suits_of_value(cards: Seq<(u8, u8)>, v: u8) -> Set<int> {
    Set::new(|s: int| 0 <= s < 4 && cards.contains((v, s as u8)))
}

proof fn lemma_value_count_is_suits(cards: Seq<(u8, u8)>, v: u8)
    requires
        cards.no_duplicates(),
        forall|i: int| 0 <= i < cards.len() ==> #[trigger] cards[i].1 < 4,
    ensures
        suits_of_value(cards, v).finite(),
        value_count(cards, v) == suits_of_value(cards, v).len(),
    decreases cards.len(),
{
    broadcast use vstd::set::group_set_axioms;
    vstd::set_lib::lemma_int_range(0, 4);
    vstd::set_lib::lemma_len_subset(suits_of_value(cards, v), vstd::set_lib::set_int_range(0, 4));
    if cards.len() == 0 {
        assert(suits_of_value(cards, v) =~= Set::empty());
    } else {
        let rest = cards.drop_last();
        let x = cards.last();
        assert(rest.no_duplicates());
        lemma_value_count_is_suits(rest, v);
        if x.0 == v {
            assert(suits_of_value(cards, v) =~= suits_of_value(rest, v).insert(x.1 as int)) by {
                assert forall|s: int| suits_of_value(cards, v).contains(s) <==> suits_of_value(rest, v).insert(x.1 as int).contains(s) by {
                    if 0 <= s < 4 && cards.contains((v, s as u8)) {
                        let i = choose|i: int| 0 <= i < cards.len() && cards[i] == (v, s as u8);
                        if i < cards.len() - 1 {
                            assert(rest[i] == (v, s as u8));
                        }
                    }
                    if 0 <= s < 4 && rest.contains((v, s as u8)) {
                        let i = choose|i: int| 0 <= i < rest.len() && rest[i] == (v, s as u8);
                        assert(cards[i] == (v, s as u8));
                    }
                    if s == x.1 as int {
                        assert(cards[cards.len() - 1] == x);
                    }
                }
            }
            assert(!suits_of_value(rest, v).contains(x.1 as int)) by {
                if rest.contains(x) {
                    let i = choose|i: int| 0 <= i < rest.len() && rest[i] == x;
                    assert(cards[i] == cards[cards.len() - 1]);
                }
            }
            assert(x.1 < 4);
            assert(suits_of_value(cards, v).len() == suits_of_value(rest, v).len() + 1);
        } else {
            assert(suits_of_value(cards, v) =~= suits_of_value(rest, v)) by {
                assert forall|s: int| suits_of_value(cards, v).contains(s) <==> suits_of_value(rest, v).contains(s) by {
                    if 0 <= s < 4 && cards.contains((v, s as u8)) {
                        let i = choose|i: int| 0 <= i < cards.len() && cards[i] == (v, s as u8);
                        if i < cards.len() - 1 {
                            assert(rest[i] == (v, s as u8));
                        }
                    }
                    if 0 <= s < 4 && rest.contains((v, s as u8)) {
                        let i = choose|i: int| 0 <= i < rest.len() && rest[i] == (v, s as u8);
                        assert(cards[i] == (v, s as u8));
                    }
                }
            }
        }
    }
}

/// Distinct cards of four suits hold at most four cards of any value.
pub proof fn lemma_distinct_value_count(cards: Seq<(u8, u8)>, v: u8)
    requires
        cards.no_duplicates(),
        forall|i: int| 0 <= i < cards.len() ==> #[trigger] cards[i].1 < 4,
    ensures
        value_count(cards, v) <= 4,
{
    lemma_value_count_is_suits(cards, v);
    vstd::set_lib::lemma_int_range(0, 4);
    vstd::set_lib::lemma_len_subset(suits_of_value(cards, v), vstd::set_lib::set_int_range(0, 4));
}

/// The rank that rs_poker gives to a set of cards, each written as
/// (value position, suit position).
pub uninterp spec fn hand_rank_of(cards: Seq<(u8, u8)>) -> HandRank;

/// rs_poker's hand rank.
#[verifier::external_type_specification]
#[verifier::external_body]
pub struct ExPokerRank(rs_poker::core::Rank);

type PokerRank = rs_poker::core::Rank;

/// Ranks the best hand among `cards` with rs_poker's `Rankable::rank` on a
/// `Vec<Card>`, each card built with `Card::new` from `Value::from(v)` and
/// `Suit::from(s)`, and names the resulting variant of `HandRank`.
/// The contract claims only that the result is `hand_rank_of` of the cards.
/// rs_poker fails on five cards of one value (it counts them in a five-slot
/// table), and on four cards making two pairs and on cards that are only
/// quads (it then keeps the highest bit of an empty set); `requires` leaves
/// those out.
#[verifier::external_body]
pub(crate) fn rank_cards(cards: &Vec<(u8, u8)>) -> (r: HandRank)
    requires
        rankable(cards@),
    ensures
        r == hand_rank_of(cards@),
{
    let hand: Vec<_> = cards.iter().map(|&(v, s)| rs_poker::core::Card::new(v.into(), s.into())).collect();
    match rs_poker::core::Rankable::rank(&hand) {
        PokerRank::HighCard(v) => HandRank::HighCard(v),
        PokerRank::OnePair(v) => HandRank::OnePair(v),
        PokerRank::TwoPair(v) => HandRank::TwoPair(v),
        PokerRank::ThreeOfAKind(v) => HandRank::ThreeOfAKind(v),
        PokerRank::Straight(v) => HandRank::Straight(v),
        PokerRank::Flush(v) => HandRank::Flush(v),
        PokerRank::FullHouse(v) => HandRank::FullHouse(v),
        PokerRank::FourOfAKind(v) => HandRank::FourOfAKind(v),
        PokerRank::StraightFlush(v) => HandRank::StraightFlush(v),
    }
}

} // verus!
