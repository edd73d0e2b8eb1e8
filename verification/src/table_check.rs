use vstd::prelude::*;
use crate::evaluate::{evaluate_ok, hand_codes};
use crate::pot::{SidePot, SidePotModel, pots_model, paid_total, contenders_ranked};
use crate::rank::{rankable, value_count};
use crate::card::AtlasCard;
use crate::deck::AtlasDeck;
use crate::player::Player;
use crate::table::{Table, TableStreet, seat_model, texts_model, seat_sum, seat_value, sum_balances, sum_total_bets, post_amount_fits,
    some_seat_eligible, seat_eligible};

verus! {

// ---------------------------------------------------------------------------
// Checks that decide, before an operation, whether it can run to the end.
// ---------------------------------------------------------------------------

proof fn lemma_value_count_step(cards: Seq<(u8, u8)>, v: u8, i: int)
    requires
        0 <= i < cards.len(),
    ensures
        value_count(cards.take(i + 1), v) == value_count(cards.take(i), v) + if cards[i].0 == v { 1nat } else { 0 },
{
    assert(cards.take(i + 1).drop_last() =~= cards.take(i));
}

fn count_value(cards: &Vec<(u8, u8)>, v: u8) -> (r: usize)
    ensures
        r == value_count(cards@, v),
{
    let mut n: usize = 0;
    let mut i: usize = 0;
    while i < cards.len()
        invariant
            i <= cards@.len(),
            n == value_count(cards@.take(i as int), v),
            n <= i,
        decreases cards@.len() - i,
    {
        proof {
            lemma_value_count_step(cards@, v, i as int);
        }
        if cards[i].0 == v {
            n = n + 1;
        }
        i = i + 1;
    }
    proof {
        assert(cards@.take(cards@.len() as int) =~= cards@);
    }
    n
}

spec fn code_in_range(c: (u8, u8)) -> bool {
    c.0 < 13 && c.1 < 4
}

proof fn lemma_codes_in_range(cards: Seq<(u8, u8)>)
    requires
        forall|j: int| 0 <= j < cards.len() ==> code_in_range(#[trigger] cards[j]),
    ensures
        forall|j: int| 0 <= j < cards.len() ==> (#[trigger] cards[j]).0 < 13 && cards[j].1 < 4,
{
    assert forall|j: int| 0 <= j < cards.len() implies (#[trigger] cards[j]).0 < 13 && cards[j].1 < 4 by {
        assert(code_in_range(cards[j]));
    }
}

proof fn lemma_code_out_of_range(cards: Seq<(u8, u8)>, i: int)
    requires
        0 <= i < cards.len(),
        !(cards[i].0 < 13 && cards[i].1 < 4),
    ensures
        !rankable(cards),
{
}

/// Whether rs_poker's ranking handles `cards`; see `rankable`.
pub fn is_rankable(cards: &Vec<(u8, u8)>) -> (r: bool)
    ensures
        r == rankable(cards@),
{
    let mut i: usize = 0;
    while i < cards.len()
        invariant
            i <= cards@.len(),
            forall|j: int| 0 <= j < i ==> code_in_range(#[trigger] cards@[j]),
        decreases cards@.len() - i,
    {
        let c = cards[i];
        assert(c == cards@[i as int]);
        if c.0 >= 13 || c.1 >= 4 {
            proof {
                lemma_code_out_of_range(cards@, i as int);
            }
            return false;
        }
        i = i + 1;
    }
    proof {
        lemma_codes_in_range(cards@);
    }
    let mut w: u16 = 0;
    while w < 256
        invariant
            w <= 256,
            forall|v: u8| v < w ==> #[trigger] value_count(cards@, v) <= 4,
        decreases 256 - w,
    {
        let v: u8 = w as u8;
        if count_value(cards, v) > 4 {
            proof {
                assert(value_count(cards@, v) > 4);
            }
            return false;
        }
        w = w + 1;
    }
    if cards.len() == 4 {
        let mut all_even = true;
        let mut k: usize = 0;
        while k < 4
            invariant
                k <= 4,
                cards@.len() == 4,
                all_even == forall|j: int| 0 <= j < k ==> #[trigger] value_count(cards@, cards@[j].0) % 2 == 0,
            decreases 4 - k,
        {
            if count_value(cards, cards[k].0) % 2 != 0 {
                all_even = false;
                proof {
                    assert(value_count(cards@, cards@[k as int].0) % 2 != 0);
                }
            }
            k = k + 1;
        }
        if all_even {
            return false;
        }
    }
    if cards.len() > 0 {
        let mut all_quads = true;
        let mut k: usize = 0;
        while k < cards.len()
            invariant
                k <= cards@.len(),
                cards@.len() > 0,
                forall|j: int| 0 <= j < cards@.len() ==> (#[trigger] cards@[j]).0 < 13 && cards@[j].1 < 4,
                forall|v: u8| #[trigger] value_count(cards@, v) <= 4,
                !(cards@.len() == 4 && forall|j: int| 0 <= j < 4 ==> #[trigger] value_count(cards@, cards@[j].0) % 2 == 0),
                all_quads == forall|j: int| 0 <= j < k ==> #[trigger] value_count(cards@, cards@[j].0) == 4,
            decreases cards@.len() - k,
        {
            if count_value(cards, cards[k].0) != 4 {
                all_quads = false;
                proof {
                    assert(value_count(cards@, cards@[k as int].0) != 4);
                }
            }
            k = k + 1;
        }
        if all_quads {
            return false;
        }
    }
    true
}

/// The chips of the taken seats of `s[0..i]` plus the next seat's.
proof fn lemma_seat_sum_step(s: Seq<Option<crate::player::PlayerModel>>, f: spec_fn(crate::player::PlayerModel) -> int, i: int)
    requires
        0 <= i < s.len(),
    ensures
        seat_sum(s.take(i + 1), f) == seat_sum(s.take(i), f) + seat_value(s[i], f),
{
    assert(s.take(i + 1).drop_last() =~= s.take(i));
}

/// A prefix of non-negative terms sums to no more than the whole.
proof fn lemma_seat_sum_prefix_le(s: Seq<Option<crate::player::PlayerModel>>, f: spec_fn(crate::player::PlayerModel) -> int, i: int)
    requires
        0 <= i <= s.len(),
        forall|p: crate::player::PlayerModel| #[trigger] f(p) >= 0,
    ensures
        seat_sum(s.take(i), f) <= seat_sum(s, f),
    decreases s.len() - i,
{
    if i == s.len() {
        assert(s.take(i) =~= s);
    } else {
        lemma_seat_sum_step(s, f, i);
        lemma_seat_sum_prefix_le(s, f, i + 1);
    }
}

impl Table {
    /// Whether `post_amount(seat, amount)` can be carried out; see `post_amount_fits`.
    pub fn can_post(&self, seat: usize, amount: u64) -> (r: bool)
        ensures
            r == post_amount_fits(self@, seat as int, amount),
    {
        if seat >= self.seats.len() {
            return false;
        }
        match &self.seats[seat] {
            Some(p) => {
                let actual = if amount < p.balance { amount } else { p.balance };
                p.street_bet <= u64::MAX - actual && p.total_bet <= u64::MAX - actual && self.pot <= u64::MAX - actual
            },
            None => false,
        }
    }

    /// Whether the walk to the next seat that may act from `from` ends.
    pub fn can_walk_from(&self, from: usize) -> (r: bool)
        ensures
            r == (self@.seats.len() > 0 && from < usize::MAX && (from < self@.seats.len() || some_seat_eligible(self@.seats))),
    {
        if self.seats.len() == 0 || from == usize::MAX {
            return false;
        }
        if from < self.seats.len() {
            return true;
        }
        let ghost seats = self@.seats;
        let mut i: usize = 0;
        while i < self.seats.len()
            invariant
                i <= seats.len(),
                seats == self@.seats,
                from < usize::MAX,
                seats.len() > 0,
                forall|j: int| 0 <= j < i ==> !seat_eligible(#[trigger] seats[j]),
            decreases seats.len() - i,
        {
            match &self.seats[i] {
                Some(p) => {
                    if p.is_active && !p.is_all_in {
                        proof {
                            assert(seats[i as int] == Some(p@));
                            assert(seat_eligible(seats[i as int]));
                        }
                        return true;
                    }
                },
                None => {},
            }
            i = i + 1;
        }
        false
    }

    /// Whether the hands can be evaluated; see `evaluate_ok`.
    pub fn can_evaluate(&self) -> (r: bool)
        ensures
            r == evaluate_ok(self@),
    {
        let ghost m = self@;
        let mut seated = false;
        let mut i: usize = 0;
        while i < self.seats.len()
            invariant
                i <= m.seats.len(),
                m == self@,
                seated == exists|j: int| 0 <= j < i && #[trigger] m.seats[j] is Some,
                forall|j: int| 0 <= j < i && #[trigger] m.seats[j] is Some ==> rankable(hand_codes(m.seats[j]->0, m.community_cards)),
            decreases m.seats.len() - i,
        {
            match &self.seats[i] {
                Some(p) => {
                    seated = true;
                    let codes = self.hand_codes_of(p);
                    proof {
                        assert(m.seats[i as int] == Some(p@));
                    }
                    if !is_rankable(&codes) {
                        proof {
                            assert(!rankable(hand_codes(m.seats[i as int]->0, m.community_cards)));
                        }
                        return false;
                    }
                },
                None => {
                    proof {
                        assert(m.seats[i as int] is None);
                    }
                },
            }
            proof {
                if seated {
                    let w = choose|j: int| 0 <= j < i + 1 && #[trigger] m.seats[j] is Some;
                }
            }
            i = i + 1;
        }
        seated
    }

    /// The chips the seated players hold, when that fits in a `u64`.
    pub fn balance_total(&self) -> (r: Option<u64>)
        ensures
            r matches Some(x) ==> x == sum_balances(self@.seats),
            r is None <==> sum_balances(self@.seats) > u64::MAX,
    {
        let ghost s = self@.seats;
        let ghost f = |p: crate::player::PlayerModel| crate::table::balance_of(p);
        let mut acc: u64 = 0;
        let mut i: usize = 0;
        while i < self.seats.len()
            invariant
                i <= s.len(),
                s == self@.seats,
                f == (|p: crate::player::PlayerModel| crate::table::balance_of(p)),
                acc == seat_sum(s.take(i as int), f),
            decreases s.len() - i,
        {
            proof {
                lemma_seat_sum_step(s, f, i as int);
            }
            match &self.seats[i] {
                Some(p) => {
                    if acc > u64::MAX - p.balance {
                        proof {
                            lemma_seat_sum_prefix_le(s, f, i + 1);
                        }
                        return None;
                    }
                    acc = acc + p.balance;
                },
                None => {},
            }
            i = i + 1;
        }
        proof {
            assert(s.take(s.len() as int) =~= s);
        }
        Some(acc)
    }

    /// The chips the seated players put in during the hand, when that fits in a `u64`.
    pub fn bet_total(&self) -> (r: Option<u64>)
        ensures
            r matches Some(x) ==> x == sum_total_bets(self@.seats),
            r is None <==> sum_total_bets(self@.seats) > u64::MAX,
    {
        let ghost s = self@.seats;
        let ghost f = |p: crate::player::PlayerModel| crate::table::total_bet_of(p);
        let mut acc: u64 = 0;
        let mut i: usize = 0;
        while i < self.seats.len()
            invariant
                i <= s.len(),
                s == self@.seats,
                f == (|p: crate::player::PlayerModel| crate::table::total_bet_of(p)),
                acc == seat_sum(s.take(i as int), f),
            decreases s.len() - i,
        {
            proof {
                lemma_seat_sum_step(s, f, i as int);
            }
            match &self.seats[i] {
                Some(p) => {
                    if acc > u64::MAX - p.total_bet {
                        proof {
                            lemma_seat_sum_prefix_le(s, f, i + 1);
                        }
                        return None;
                    }
                    acc = acc + p.total_bet;
                },
                None => {},
            }
            i = i + 1;
        }
        proof {
            assert(s.take(s.len() as int) =~= s);
        }
        Some(acc)
    }

    /// Whether `settle_pots(pots)` can be carried out: every contender sits at
    /// the table with an evaluated hand, and the balances stay in range.
    pub fn can_settle(&self, pots: &Vec<SidePot>) -> (r: bool)
        ensures
            r == (contenders_ranked(self@.seats, pots_model(pots@)) && sum_balances(self@.seats) + paid_total(
                pots_model(pots@),
            ) <= u64::MAX),
    {
        let ghost s = self@.seats;
        let ghost pm = pots_model(pots@);
        let mut k: usize = 0;
        while k < pots.len()
            invariant
                k <= pm.len(),
                s == self@.seats,
                pm == pots_model(pots@),
                forall|k2: int, j: int|
                    0 <= k2 < k && 0 <= j < pm[k2].contenders.len() ==> {
                        let c = #[trigger] pm[k2].contenders[j];
                        &&& c < s.len()
                        &&& s[c as int] is Some
                        &&& s[c as int]->0.cards_rank is Some
                    },
            decreases pm.len() - k,
        {
            let pot = &pots[k];
            assert(pot@ == pm[k as int]);
            let mut j: usize = 0;
            while j < pot.contenders.len()
                invariant
                    j <= pm[k as int].contenders.len(),
                    k < pm.len(),
                    s == self@.seats,
                    pm == pots_model(pots@),
                    pot@ == pm[k as int],
                    forall|j2: int|
                        0 <= j2 < j ==> {
                            let c = #[trigger] pm[k as int].contenders[j2];
                            &&& c < s.len()
                            &&& s[c as int] is Some
                            &&& s[c as int]->0.cards_rank is Some
                        },
                decreases pm[k as int].contenders.len() - j,
            {
                let c = pot.contenders[j];
                proof {
                    assert(pm[k as int].contenders[j as int] == c);
                }
                if c >= self.seats.len() {
                    proof {
                        assert(!(c < s.len()));
                    }
                    return false;
                }
                match &self.seats[c] {
                    Some(p) => {
                        if p.cards_rank.is_none() {
                            proof {
                                assert(s[c as int] == Some(p@));
                            }
                            return false;
                        }
                    },
                    None => {
                        proof {
                            assert(s[c as int] is None);
                        }
                        return false;
                    },
                }
                j = j + 1;
            }
            k = k + 1;
        }
        let balances = match self.balance_total() {
            Some(b) => b,
            None => {
                proof {
                    lemma_paid_total_nonneg(pm);
                }
                return false;
            },
        };
        let mut paid: u64 = 0;
        let mut t: usize = 0;
        while t < pots.len()
            invariant
                t <= pm.len(),
                pm == pots_model(pots@),
                balances == sum_balances(s),
                s == self@.seats,
                paid == paid_total(pm.take(t as int)),
                balances + paid <= u64::MAX,
            decreases pm.len() - t,
        {
            proof {
                assert(pm.take(t + 1).drop_last() =~= pm.take(t as int));
                assert(pots@[t as int]@ == pm[t as int]);
            }
            if pots[t].contenders.len() > 0 {
                if pots[t].amount > u64::MAX - balances - paid {
                    proof {
                        lemma_paid_total_prefix_le(pm, t + 1);
                    }
                    return false;
                }
                paid = paid + pots[t].amount;
            }
            t = t + 1;
        }
        proof {
            assert(pm.take(pm.len() as int) =~= pm);
        }
        true
    }
}

fn copy_cards(v: &Vec<AtlasCard>) -> (r: Vec<AtlasCard>)
    ensures
        r@ == v@,
{
    let mut out: Vec<AtlasCard> = Vec::new();
    let mut i: usize = 0;
    while i < v.len()
        invariant
            i <= v@.len(),
            out@ == v@.take(i as int),
        decreases v@.len() - i,
    {
        out.push(v[i]);
        i = i + 1;
        proof {
            assert(out@ =~= v@.take(i as int));
        }
    }
    proof {
        assert(v@.take(v@.len() as int) =~= v@);
    }
    out
}

fn copy_streets(v: &Vec<TableStreet>) -> (r: Vec<TableStreet>)
    ensures
        r@ == v@,
{
    let mut out: Vec<TableStreet> = Vec::new();
    let mut i: usize = 0;
    while i < v.len()
        invariant
            i <= v@.len(),
            out@ == v@.take(i as int),
        decreases v@.len() - i,
    {
        out.push(v[i]);
        i = i + 1;
        proof {
            assert(out@ =~= v@.take(i as int));
        }
    }
    proof {
        assert(v@.take(v@.len() as int) =~= v@);
    }
    out
}

fn copy_texts(v: &Vec<String>) -> (r: Vec<String>)
    ensures
        texts_model(r@) == texts_model(v@),
{
    let mut out: Vec<String> = Vec::new();
    let mut i: usize = 0;
    while i < v.len()
        invariant
            i <= v@.len(),
            texts_model(out@) == texts_model(v@.take(i as int)),
        decreases v@.len() - i,
    {
        let t = v[i].clone();
        let ghost before = out@;
        out.push(t);
        proof {
            assert(t@ == v@[i as int]@);
            assert(texts_model(out@) =~= texts_model(before).push(t@));
            assert(texts_model(v@.take(i + 1)) =~= texts_model(v@.take(i as int)).push(v@[i as int]@));
        }
        i = i + 1;
    }
    proof {
        assert(v@.take(v@.len() as int) =~= v@);
    }
    out
}

impl Player {
    /// A player equal to this one.
    pub fn duplicate(&self) -> (r: Player)
        ensures
            r@ == self@,
    {
        Player {
            id: self.id.clone(),
            nickname: self.nickname.clone(),
            balance: self.balance,
            hand_cards: self.hand_cards,
            cards_str: self.cards_str.clone(),
            cards_rank: self.cards_rank,
            sit_out: self.sit_out,
            win: self.win,
            is_active: self.is_active,
            has_acted: self.has_acted,
            acted_view: self.acted_view.clone(),
            is_all_in: self.is_all_in,
            street_bet: self.street_bet,
            total_bet: self.total_bet,
        }
    }
}

impl Table {
    /// A table equal to this one.
    pub fn duplicate(&self) -> (r: Table)
        ensures
            r@ == self@,
    {
        let mut seats: Vec<Option<Player>> = Vec::new();
        let mut i: usize = 0;
        while i < self.seats.len()
            invariant
                i <= self.seats@.len(),
                seats@.len() == i,
                forall|j: int| 0 <= j < i ==> #[trigger] seat_model(seats@[j]) == seat_model(self.seats@[j]),
            decreases self.seats@.len() - i,
        {
            let s = match &self.seats[i] {
                Some(p) => Some(p.duplicate()),
                None => None,
            };
            seats.push(s);
            i = i + 1;
        }
        let t = Table {
            id: self.id.clone(),
            seats,
            state: self.state,
            hand_id: self.hand_id.clone(),
            street: self.street,
            small_blind_amount: self.small_blind_amount,
            big_blind_amount: self.big_blind_amount,
            pot: self.pot,
            current_bet: self.current_bet,
            dealer_pos: self.dealer_pos,
            small_blind_pos: self.small_blind_pos,
            big_blind_pos: self.big_blind_pos,
            current_turn: self.current_turn,
            current_turn_act: self.current_turn_act,
            last_raiser_pos: self.last_raiser_pos,
            deck: AtlasDeck { cards: copy_cards(&self.deck.cards) },
            community_cards: self.community_cards,
            table_log: copy_texts(&self.table_log),
            act_log: copy_texts(&self.act_log),
            street_log: copy_streets(&self.street_log),
        };
        proof {
            assert(t@.seats =~= self@.seats);
            assert(t@.act_log =~= self@.act_log);
            assert(t@.table_log =~= self@.table_log);
        }
        t
    }
}

proof fn lemma_paid_total_nonneg(pots: Seq<SidePotModel>)
    ensures
        paid_total(pots) >= 0,
    decreases pots.len(),
{
    if pots.len() > 0 {
        lemma_paid_total_nonneg(pots.drop_last());
    }
}

proof fn lemma_paid_total_prefix_le(pots: Seq<SidePotModel>, k: int)
    requires
        0 <= k <= pots.len(),
    ensures
        paid_total(pots.take(k)) <= paid_total(pots),
    decreases pots.len() - k,
{
    if k == pots.len() {
        assert(pots.take(k) =~= pots);
    } else {
        assert(pots.take(k + 1).drop_last() =~= pots.take(k));
        lemma_paid_total_prefix_le(pots, k + 1);
    }
}

} // verus!
