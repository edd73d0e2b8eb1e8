use vstd::prelude::*;
use crate::card::{AtlasCard, card_code, suit_symbol, value_symbol};
use crate::text::push_text;
use crate::player::{Player, PlayerModel};
use crate::rank::{HandRank, rank_max, hand_rank_of, rankable, rank_cards};
use crate::table::{Table, TableModel, seat_model};

verus! {

/// The cards present among `s`, in order.
pub open spec fn flatten_cards(s: Seq<Option<AtlasCard>>) -> Seq<AtlasCard>
    decreases s.len(),
{
    if s.len() == 0 {
        seq![]
    } else {
        let rest = flatten_cards(s.drop_last());
        match s.last() {
            Some(c) => rest.push(c),
            None => rest,
        }
    }
}

pub open spec fn codes_of(cards: Seq<AtlasCard>) -> Seq<(u8, u8)> {
    cards.map_values(|c: AtlasCard| card_code(c))
}

/// The cards a player's hand is made of: the hole cards, then the board.
pub open spec fn hand_cards_with_board(p: PlayerModel, board: Seq<Option<AtlasCard>>) -> Seq<AtlasCard> {
    flatten_cards(p.hand_cards) + flatten_cards(board)
}

pub open spec fn hand_codes(p: PlayerModel, board: Seq<Option<AtlasCard>>) -> Seq<(u8, u8)> {
    codes_of(hand_cards_with_board(p, board))
}

/// A card as it is shown: its suit's symbol, then its value's.
pub open spec fn card_text(c: AtlasCard) -> Seq<char> {
    suit_symbol(c.suit)@ + value_symbol(c.value)@
}

/// The words joined with single spaces.
pub open spec fn join_words(ws: Seq<Seq<char>>) -> Seq<char>
    decreases ws.len(),
{
    if ws.len() == 0 {
        seq![]
    } else if ws.len() == 1 {
        ws[0]
    } else {
        join_words(ws.drop_last()) + " "@ + ws.last()
    }
}

pub open spec fn card_words(cards: Seq<AtlasCard>) -> Seq<Seq<char>> {
    cards.map_values(|c: AtlasCard| card_text(c))
}

/// A player's hole cards, a bar, then the board, each card shown and all
/// separated by spaces.
pub open spec fn merge_text(p: PlayerModel, board: Seq<Option<AtlasCard>>) -> Seq<char> {
    join_words(card_words(flatten_cards(p.hand_cards)) + seq!["|"@] + card_words(flatten_cards(board)))
}

/// A player with the rank of their best hand with the board recorded, and
/// the cards it was made of shown.
pub open spec fn rank_player(p: PlayerModel, board: Seq<Option<AtlasCard>>) -> PlayerModel {
    PlayerModel { cards_str: merge_text(p, board), cards_rank: Some(hand_rank_of(hand_codes(p, board))), ..p }
}

pub open spec fn ranked_seats(seats: Seq<Option<PlayerModel>>, board: Seq<Option<AtlasCard>>) -> Seq<Option<PlayerModel>> {
    Seq::new(seats.len(), |i: int| match seats[i] {
        Some(p) => Some(rank_player(p, board)),
        None => None,
    })
}

/// The strongest recorded hand among the first `n` seats.
pub open spec fn best_seated_upto(seats: Seq<Option<PlayerModel>>, n: int) -> Option<HandRank>
    decreases n,
{
    if n <= 0 {
        None
    } else {
        let b = best_seated_upto(seats, n - 1);
        match seats[n - 1] {
            Some(p) => Some(
                match b {
                    Some(x) => rank_max(x, p.cards_rank->0),
                    None => p.cards_rank->0,
                },
            ),
            None => b,
        }
    }
}

/// Marks as winners exactly the players whose hand has strength `best`.
pub open spec fn mark_winners(seats: Seq<Option<PlayerModel>>, best: HandRank) -> Seq<Option<PlayerModel>> {
    Seq::new(seats.len(), |i: int| match seats[i] {
        Some(p) => Some(PlayerModel { win: p.cards_rank == Some(best), ..p }),
        None => None,
    })
}

/// Every seated player's hand is ranked with the board, and the players
/// holding the strongest hand are marked as winners.
pub open spec fn evaluate_model(m: TableModel) -> TableModel {
    let r = ranked_seats(m.seats, m.community_cards);
    let best = best_seated_upto(r, r.len() as int)->0;
    TableModel { seats: mark_winners(r, best), ..m }
}

/// Hands can be evaluated: someone is seated, and each seated player's cards
/// with the board are cards that rs_poker can rank.
pub open spec fn evaluate_ok(m: TableModel) -> bool {
    &&& exists|j: int| 0 <= j < m.seats.len() && #[trigger] m.seats[j] is Some
    &&& forall|j: int| 0 <= j < m.seats.len() && #[trigger] m.seats[j] is Some ==> rankable(
        hand_codes(m.seats[j]->0, m.community_cards),
    )
}

proof fn lemma_best_seated_some(seats: Seq<Option<PlayerModel>>, n: int, j: int)
    requires
        0 <= j < n <= seats.len(),
        seats[j] is Some,
    ensures
        best_seated_upto(seats, n) is Some,
    decreases n,
{
    if j < n - 1 {
        lemma_best_seated_some(seats, n - 1, j);
    }
}

/// Appends the codes of the cards present in `cards[0..n]`.
fn push_codes(out: &mut Vec<(u8, u8)>, cards: &[Option<AtlasCard>])
    ensures
        final(out)@ == old(out)@ + codes_of(flatten_cards(cards@)),
{
    let ghost start = out@;
    let mut i: usize = 0;
    while i < cards.len()
        invariant
            i <= cards@.len(),
            out@ == start + codes_of(flatten_cards(cards@.take(i as int))),
        decreases cards@.len() - i,
    {
        proof {
            assert(cards@.take(i + 1).drop_last() =~= cards@.take(i as int));
        }
        match cards[i] {
            Some(c) => {
                let code = c.code();
                out.push(code);
                proof {
                    let f = flatten_cards(cards@.take(i as int));
                    assert(codes_of(f.push(c)) =~= codes_of(f).push(code));
                }
            },
            None => {},
        }
        i = i + 1;
        proof {
            assert(out@ =~= start + codes_of(flatten_cards(cards@.take(i as int))));
        }
    }
    proof {
        assert(cards@.take(cards@.len() as int) =~= cards@);
    }
}

impl AtlasCard {
    /// The card as it is shown; see `card_text`.
    pub fn text(&self) -> (r: String)
        ensures
            r@ == card_text(*self),
    {
        let mut t = String::new();
        push_text(&mut t, self.suit.symbol());
        push_text(&mut t, self.value.symbol());
        t
    }
}

/// Appends the shown cards present among `cards`.
fn push_card_words(out: &mut Vec<String>, cards: &[Option<AtlasCard>])
    ensures
        final(out)@.len() == old(out)@.len() + card_words(flatten_cards(cards@)).len(),
        forall|i: int| 0 <= i < old(out)@.len() ==> #[trigger] final(out)@[i] == old(out)@[i],
        forall|i: int| old(out)@.len() <= i < final(out)@.len() ==> #[trigger] final(out)@[i]@
            == card_words(flatten_cards(cards@))[i - old(out)@.len()],
{
    let ghost start = out@;
    let mut i: usize = 0;
    while i < cards.len()
        invariant
            i <= cards@.len(),
            out@.len() == start.len() + card_words(flatten_cards(cards@.take(i as int))).len(),
            forall|k: int| 0 <= k < start.len() ==> #[trigger] out@[k] == start[k],
            forall|k: int| start.len() <= k < out@.len() ==> #[trigger] out@[k]@
                == card_words(flatten_cards(cards@.take(i as int)))[k - start.len()],
        decreases cards@.len() - i,
    {
        proof {
            assert(cards@.take(i + 1).drop_last() =~= cards@.take(i as int));
        }
        match cards[i] {
            Some(c) => {
                let t = c.text();
                out.push(t);
                proof {
                    let f = flatten_cards(cards@.take(i as int));
                    assert(flatten_cards(cards@.take(i + 1)) == f.push(c));
                    assert(card_words(f.push(c)) =~= card_words(f).push(card_text(c)));
                }
            },
            None => {
                proof {
                    assert(flatten_cards(cards@.take(i + 1)) == flatten_cards(cards@.take(i as int)));
                }
            },
        }
        i = i + 1;
    }
    proof {
        assert(cards@.take(cards@.len() as int) =~= cards@);
    }
}

/// The words joined with single spaces.
fn join_with_spaces(ws: &Vec<String>) -> (r: String)
    ensures
        r@ == join_words(Seq::new(ws@.len(), |i: int| ws@[i]@)),
{
    let ghost wv = Seq::new(ws@.len(), |i: int| ws@[i]@);
    let mut s = String::new();
    let mut i: usize = 0;
    while i < ws.len()
        invariant
            i <= ws@.len(),
            wv == Seq::new(ws@.len(), |i: int| ws@[i]@),
            s@ == join_words(wv.take(i as int)),
        decreases ws@.len() - i,
    {
        if i > 0 {
            push_text(&mut s, " ");
        }
        push_text(&mut s, ws[i].as_str());
        proof {
            assert(wv.take(i + 1).drop_last() =~= wv.take(i as int));
            if i == 0 {
                assert(s@ =~= wv.take(1)[0]);
            }
        }
        i = i + 1;
    }
    proof {
        assert(wv.take(ws@.len() as int) =~= wv);
    }
    s
}

impl Table {
    /// The cards of `p`'s hand with the board, shown; see `merge_text`.
    pub(crate) fn merge_text_of(&self, p: &Player) -> (r: String)
        ensures
            r@ == merge_text(p@, self@.community_cards),
    {
        let mut ws: Vec<String> = Vec::new();
        push_card_words(&mut ws, p.hand_cards.as_slice());
        let ghost n1 = ws@.len();
        let ghost ws1 = ws@;
        ws.push("|".to_owned());
        let ghost ws2 = ws@;
        push_card_words(&mut ws, self.community_cards.as_slice());
        proof {
            let w1 = card_words(flatten_cards(p@.hand_cards));
            let w2 = card_words(flatten_cards(self@.community_cards));
            let target = w1 + seq!["|"@] + w2;
            assert(n1 == w1.len());
            assert forall|i: int| 0 <= i < ws@.len() implies #[trigger] ws@[i]@ == target[i] by {
                if i < n1 {
                    assert(ws@[i] == ws2[i]);
                    assert(ws2[i] == ws1[i]);
                    assert(ws1[i]@ == w1[i]);
                } else if i == n1 {
                    assert(ws@[i] == ws2[i]);
                } else {
                    assert(ws@[i]@ == w2[i - ws2.len()]);
                }
            }
            assert(Seq::new(ws@.len(), |i: int| ws@[i]@) =~= target);
        }
        join_with_spaces(&ws)
    }

    pub(crate) fn hand_codes_of(&self, p: &Player) -> (r: Vec<(u8, u8)>)
        ensures
            r@ == hand_codes(p@, self@.community_cards),
    {
        let mut out: Vec<(u8, u8)> = Vec::new();
        push_codes(&mut out, p.hand_cards.as_slice());
        push_codes(&mut out, self.community_cards.as_slice());
        proof {
            let a = flatten_cards(p@.hand_cards);
            let b = flatten_cards(self@.community_cards);
            assert(codes_of(a + b) =~= codes_of(a) + codes_of(b));
            assert(out@ =~= hand_codes(p@, self@.community_cards));
        }
        out
    }

    fn rank_seats(&mut self)
        requires
            evaluate_ok(old(self)@),
        ensures
            final(self)@ == (TableModel { seats: ranked_seats(old(self)@.seats, old(self)@.community_cards), ..old(self)@ }),
    {
        let ghost m = self@;
        let ghost ranked = ranked_seats(m.seats, m.community_cards);
        let mut i: usize = 0;
        while i < self.seats.len()
            invariant
                i <= m.seats.len(),
                evaluate_ok(m),
                ranked == ranked_seats(m.seats, m.community_cards),
                self@.seats.len() == m.seats.len(),
                forall|j: int| 0 <= j < m.seats.len() ==> #[trigger] self@.seats[j] == if j < i { ranked[j] } else { m.seats[j] },
                self@ == (TableModel { seats: self@.seats, ..m }),
            decreases m.seats.len() - i,
        {
            let codes = match &self.seats[i] {
                Some(p) => Some((self.hand_codes_of(p), self.merge_text_of(p))),
                None => None,
            };
            proof {
                assert(self@.seats[i as int] == m.seats[i as int]);
                if m.seats[i as int] is Some {
                    assert(rankable(hand_codes(m.seats[i as int]->0, m.community_cards)));
                }
            }
            let ghost prev = self.seats@;
            let ghost prev_model = self@.seats;
            match codes {
                Some((c, text)) => {
                    let r = rank_cards(&c);
                    match &mut self.seats[i] {
                        Some(p) => {
                            p.cards_str = text;
                            p.cards_rank = Some(r);
                        },
                        None => {},
                    }
                },
                None => {},
            }
            proof {
                assert forall|j: int| 0 <= j < m.seats.len() && j != i implies self.seats@[j] == prev[j] by {}
                assert(prev_model[i as int] == m.seats[i as int]);
                assert(seat_model(prev[i as int]) == m.seats[i as int]);
                if prev[i as int] is Some {
                    let po = prev[i as int]->0;
                    let pn = self.seats@[i as int]->0;
                    assert(codes is Some);
                    assert(pn@ == rank_player(po@, m.community_cards));
                    assert(self@.seats[i as int] == Some(pn@));
                    assert(ranked[i as int] == Some(rank_player(po@, m.community_cards)));
                } else {
                    assert(self.seats@[i as int] == prev[i as int]);
                    assert(self@.seats[i as int] == ranked[i as int]);
                }
                assert forall|j: int| 0 <= j < m.seats.len() implies #[trigger] self@.seats[j] == if j < i + 1 { ranked[j] } else { m.seats[j] } by {
                    if j != i {
                        assert(prev_model[j] == if j < i { ranked[j] } else { m.seats[j] });
                        assert(seat_model(self.seats@[j]) == seat_model(prev[j]));
                    }
                }
            }
            i = i + 1;
        }
        proof {
            assert(self@.seats =~= ranked);
        }
    }

    fn best_seated_rank(&self) -> (r: HandRank)
        requires
            exists|j: int| 0 <= j < self@.seats.len() && #[trigger] self@.seats[j] is Some,
            forall|j: int| 0 <= j < self@.seats.len() && #[trigger] self@.seats[j] is Some ==> self@.seats[j]->0.cards_rank is Some,
        ensures
            Some(r) == best_seated_upto(self@.seats, self@.seats.len() as int),
    {
        let ghost seats = self@.seats;
        let mut best: Option<HandRank> = None;
        let mut i: usize = 0;
        while i < self.seats.len()
            invariant
                i <= seats.len(),
                self@.seats == seats,
                best == best_seated_upto(seats, i as int),
                forall|j: int| 0 <= j < seats.len() && #[trigger] seats[j] is Some ==> seats[j]->0.cards_rank is Some,
            decreases seats.len() - i,
        {
            match &self.seats[i] {
                Some(p) => {
                    let r = match p.cards_rank {
                        Some(r) => r,
                        None => HandRank::HighCard(0),
                    };
                    best = match best {
                        Some(b) => if b.is_le(&r) { Some(r) } else { Some(b) },
                        None => Some(r),
                    };
                },
                None => {},
            }
            i = i + 1;
        }
        proof {
            let j = choose|j: int| 0 <= j < seats.len() && #[trigger] seats[j] is Some;
            lemma_best_seated_some(seats, seats.len() as int, j);
        }
        match best {
            Some(b) => b,
            None => HandRank::HighCard(0),
        }
    }

    fn mark_seats(&mut self, best: HandRank)
        ensures
            final(self)@ == (TableModel { seats: mark_winners(old(self)@.seats, best), ..old(self)@ }),
    {
        let ghost m = self@;
        let ghost marked = mark_winners(m.seats, best);
        let mut i: usize = 0;
        while i < self.seats.len()
            invariant
                i <= m.seats.len(),
                marked == mark_winners(m.seats, best),
                self@.seats.len() == m.seats.len(),
                forall|j: int| 0 <= j < m.seats.len() ==> #[trigger] self@.seats[j] == if j < i { marked[j] } else { m.seats[j] },
                self@ == (TableModel { seats: self@.seats, ..m }),
            decreases m.seats.len() - i,
        {
            let ghost prev = self.seats@;
            let ghost prev_model = self@.seats;
            match &mut self.seats[i] {
                Some(p) => {
                    p.win = false;
                    match p.cards_rank {
                        Some(r) => {
                            if r == best {
                                p.win = true;
                            }
                        },
                        None => {},
                    }
                },
                None => {},
            }
            proof {
                assert(prev_model[i as int] == m.seats[i as int]);
                assert(seat_model(prev[i as int]) == m.seats[i as int]);
                if prev[i as int] is Some {
                    assert(self@.seats[i as int] == marked[i as int]);
                } else {
                    assert(self.seats@[i as int] == prev[i as int]);
                    assert(self@.seats[i as int] == marked[i as int]);
                }
                assert forall|j: int| 0 <= j < m.seats.len() implies #[trigger] self@.seats[j] == if j < i + 1 { marked[j] } else { m.seats[j] } by {
                    if j != i {
                        assert(prev_model[j] == if j < i { marked[j] } else { m.seats[j] });
                        assert(self.seats@[j] == prev[j]);
                        assert(seat_model(self.seats@[j]) == seat_model(prev[j]));
                    }
                }
            }
            i = i + 1;
        }
        proof {
            assert(self@.seats =~= marked);
        }
    }

    /// Ranks each seated player's best hand with the board and marks the
    /// players holding the strongest one as winners. Returns an empty list.
    pub fn evaluate_hands(&mut self) -> (r: Vec<u64>)
        requires
            evaluate_ok(old(self)@),
        ensures
            final(self)@ == evaluate_model(old(self)@),
            r@.len() == 0,
    {
        let ghost m = self@;
        self.rank_seats();
        proof {
            let j = choose|j: int| 0 <= j < m.seats.len() && #[trigger] m.seats[j] is Some;
            assert(self@.seats[j] is Some);
        }
        let best = self.best_seated_rank();
        self.mark_seats(best);
        Vec::new()
    }
}

} // verus!
