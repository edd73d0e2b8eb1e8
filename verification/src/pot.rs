use vstd::prelude::*;
use crate::player::PlayerModel;
use crate::rank::{HandRank, rank_le, rank_max};
use crate::table::{Table, TableModel, seat_sum, sum_balances, sum_total_bets, balance_of, total_bet_of,
    seat_value, lemma_seat_sum_update, lemma_seat_sum_bounds, lemma_seat_sum_nonneg};

verus! {

/// A pot, main or side: its chips and the seats that may win it.
#[derive(Debug)]
pub struct SidePot {
    pub amount: u64,
    /// Seat indices of the players who may win this pot.
    pub contenders: Vec<usize>,
}

/// The mathematical model of a `SidePot`.
pub struct SidePotModel {
    pub amount: u64,
    pub contenders: Seq<usize>,
}

impl View for SidePot {
    type V = SidePotModel;

    open spec fn view(&self) -> SidePotModel {
        SidePotModel { amount: self.amount, contenders: self.contenders@ }
    }
}

pub open spec fn pots_model(pots: Seq<SidePot>) -> Seq<SidePotModel> {
    Seq::new(pots.len(), |i: int| pots[i]@)
}

// ---------------------------------------------------------------------------
// Building the pots
// ---------------------------------------------------------------------------

pub open spec fn strictly_increasing(s: Seq<u64>) -> bool {
    forall|i: int, j: int| 0 <= i < j < s.len() ==> s[i] < s[j]
}

/// A seat whose player put in exactly `v` chips during the hand.
pub open spec fn seat_bet_is(o: Option<PlayerModel>, v: u64) -> bool {
    o is Some && o->0.total_bet == v
}

/// `lv` lists, in increasing order and once each, the amounts above zero that
/// the seated players put in during the hand.
pub open spec fn is_bet_levels(seats: Seq<Option<PlayerModel>>, lv: Seq<u64>) -> bool {
    &&& strictly_increasing(lv)
    &&& forall|k: int| 0 <= k < lv.len() ==> #[trigger] lv[k] > 0
    &&& forall|v: u64| v > 0 ==> (lv.contains(v) <==> exists|j: int| 0 <= j < seats.len() && #[trigger] seat_bet_is(seats[j], v))
}

/// The betting levels of a hand (unique, see `lemma_bet_levels_unique`).
pub open spec fn bet_levels(seats: Seq<Option<PlayerModel>>) -> Seq<u64> {
    choose|lv: Seq<u64>| is_bet_levels(seats, lv)
}

/// What each seated player owes to the pot between levels `prev` and `level`.
pub open spec fn level_share(level: u64, prev: int) -> spec_fn(PlayerModel) -> int {
    |p: PlayerModel| if p.total_bet >= level { level - prev } else { 0 }
}

/// The players still in the hand who put in at least `level`, by seat index.
pub open spec fn contenders_upto(seats: Seq<Option<PlayerModel>>, level: u64, n: int) -> Seq<usize>
    decreases n,
{
    if n <= 0 {
        seq![]
    } else {
        let rest = contenders_upto(seats, level, n - 1);
        let o = seats[n - 1];
        if o is Some && o->0.total_bet >= level && o->0.is_active {
            rest.push((n - 1) as usize)
        } else {
            rest
        }
    }
}

pub open spec fn level_prev(lv: Seq<u64>, k: int) -> int {
    if k == 0 {
        0
    } else {
        lv[k - 1] as int
    }
}

/// The pot of the `k`-th level: each player who put in at least that level
/// pays the difference to the level below; players still in the hand contend.
pub open spec fn level_pot(seats: Seq<Option<PlayerModel>>, lv: Seq<u64>, k: int) -> SidePotModel {
    SidePotModel {
        amount: seat_sum(seats, level_share(lv[k], level_prev(lv, k))) as u64,
        contenders: contenders_upto(seats, lv[k], seats.len() as int),
    }
}

/// The pots of a hand, one per betting level, lowest level first.
pub open spec fn pots_for(seats: Seq<Option<PlayerModel>>) -> Seq<SidePotModel> {
    let lv = bet_levels(seats);
    Seq::new(lv.len(), |k: int| level_pot(seats, lv, k))
}

/// Sum of the amounts of a list of pots.
pub open spec fn pots_total(pots: Seq<SidePotModel>) -> int
    decreases pots.len(),
{
    if pots.len() == 0 {
        0
    } else {
        pots_total(pots.drop_last()) + pots.last().amount
    }
}

/// Two increasing lists of the same values are the same list.
pub proof fn lemma_increasing_unique(a: Seq<u64>, b: Seq<u64>)
    requires
        strictly_increasing(a),
        strictly_increasing(b),
        forall|v: u64| a.contains(v) <==> b.contains(v),
    ensures
        a == b,
    decreases a.len() + b.len(),
{
    if a.len() == 0 {
        if b.len() > 0 {
            assert(b.contains(b[0]));
        }
        assert(a =~= b);
    } else if b.len() == 0 {
        assert(a.contains(a[0]));
    } else {
        let x = a.last();
        let y = b.last();
        assert(a.contains(x));
        assert(b.contains(y));
        let i = choose|i: int| 0 <= i < b.len() && b[i] == x;
        let j = choose|j: int| 0 <= j < a.len() && a[j] == y;
        assert(x == y);
        assert forall|v: u64| a.drop_last().contains(v) <==> b.drop_last().contains(v) by {
            if a.drop_last().contains(v) {
                let k = choose|k: int| 0 <= k < a.len() - 1 && a[k] == v;
                assert(b.contains(v));
                let k2 = choose|k2: int| 0 <= k2 < b.len() && b[k2] == v;
                assert(k2 != b.len() - 1);
                assert(b.drop_last()[k2] == v);
            }
            if b.drop_last().contains(v) {
                let k = choose|k: int| 0 <= k < b.len() - 1 && b[k] == v;
                assert(a.contains(v));
                let k2 = choose|k2: int| 0 <= k2 < a.len() && a[k2] == v;
                assert(k2 != a.len() - 1);
                assert(a.drop_last()[k2] == v);
            }
        }
        lemma_increasing_unique(a.drop_last(), b.drop_last());
        assert(a =~= a.drop_last().push(x));
        assert(b =~= b.drop_last().push(y));
    }
}

/// The betting levels are determined by the seats.
pub proof fn lemma_bet_levels_unique(seats: Seq<Option<PlayerModel>>, lv: Seq<u64>)
    requires
        is_bet_levels(seats, lv),
    ensures
        bet_levels(seats) == lv,
{
    let c = bet_levels(seats);
    assert(is_bet_levels(seats, c));
    assert forall|v: u64| c.contains(v) <==> lv.contains(v) by {
        if v == 0 {
            if c.contains(v) {
                let k = choose|k: int| 0 <= k < c.len() && c[k] == v;
            }
            if lv.contains(v) {
                let k = choose|k: int| 0 <= k < lv.len() && lv[k] == v;
            }
        }
    }
    lemma_increasing_unique(c, lv);
}

/// The sum of `min(total_bet, x)` over the seated players.
pub open spec fn capped_total(seats: Seq<Option<PlayerModel>>, x: int) -> int {
    seat_sum(seats, |p: PlayerModel| if (p.total_bet as int) < x { p.total_bet as int } else { x })
}

/// Two seat sums agree when their terms agree on every seated player.
pub proof fn lemma_seat_sum_congr(
    seats: Seq<Option<PlayerModel>>,
    f: spec_fn(PlayerModel) -> int,
    g: spec_fn(PlayerModel) -> int,
)
    requires
        forall|j: int| 0 <= j < seats.len() && (#[trigger] seats[j]) is Some ==> f(seats[j]->0) == g(seats[j]->0),
    ensures
        seat_sum(seats, f) == seat_sum(seats, g),
    decreases seats.len(),
{
    if seats.len() > 0 {
        assert forall|j: int| 0 <= j < seats.drop_last().len() && (#[trigger] seats.drop_last()[j]) is Some
            implies f(seats.drop_last()[j]->0) == g(seats.drop_last()[j]->0) by {
            assert(seats.drop_last()[j] == seats[j]);
        }
        lemma_seat_sum_congr(seats.drop_last(), f, g);
    }
}

/// A seat sum of a difference is the difference of the seat sums.
pub proof fn lemma_seat_sum_sub(
    seats: Seq<Option<PlayerModel>>,
    f: spec_fn(PlayerModel) -> int,
    g: spec_fn(PlayerModel) -> int,
    h: spec_fn(PlayerModel) -> int,
)
    requires
        forall|p: PlayerModel| #[trigger] h(p) == f(p) - g(p),
    ensures
        seat_sum(seats, h) == seat_sum(seats, f) - seat_sum(seats, g),
    decreases seats.len(),
{
    if seats.len() > 0 {
        lemma_seat_sum_sub(seats.drop_last(), f, g, h);
    }
}

/// The pot of a level holds the chips put in between the level below and it.
proof fn lemma_level_amount(seats: Seq<Option<PlayerModel>>, lv: Seq<u64>, k: int)
    requires
        is_bet_levels(seats, lv),
        0 <= k < lv.len(),
    ensures
        seat_sum(seats, level_share(lv[k], level_prev(lv, k))) == capped_total(seats, lv[k] as int)
            - capped_total(seats, level_prev(lv, k)),
{
    let level = lv[k];
    let prev = level_prev(lv, k);
    let f = |p: PlayerModel| if (p.total_bet as int) < (level as int) { p.total_bet as int } else { level as int };
    let g = |p: PlayerModel| if (p.total_bet as int) < prev { p.total_bet as int } else { prev };
    let h = |p: PlayerModel| f(p) - g(p);
    lemma_seat_sum_sub(seats, f, g, h);
    assert forall|j: int| 0 <= j < seats.len() && (#[trigger] seats[j]) is Some implies level_share(level, prev)(seats[j]->0)
        == h(seats[j]->0) by {
        let tb = seats[j]->0.total_bet;
        if k > 0 {
            assert(lv[k - 1] < lv[k]);
        }
        if tb > 0 && tb < level {
            assert(seat_bet_is(seats[j], tb));
            assert(lv.contains(tb));
            let i = choose|i: int| 0 <= i < lv.len() && lv[i] == tb;
            if i >= k {
                if i > k {
                    assert(lv[k] < lv[i]);
                }
            }
            if k > 0 && i < k - 1 {
                assert(lv[i] < lv[k - 1]);
            }
        }
    }
    lemma_seat_sum_congr(seats, level_share(level, prev), h);
}

/// Capping every bet at the highest level changes nothing.
proof fn lemma_capped_at_top(seats: Seq<Option<PlayerModel>>, lv: Seq<u64>)
    requires
        is_bet_levels(seats, lv),
    ensures
        capped_total(seats, if lv.len() == 0 { 0 } else { lv.last() as int }) == sum_total_bets(seats),
{
    let top = if lv.len() == 0 { 0 } else { lv.last() as int };
    let f = |p: PlayerModel| if (p.total_bet as int) < top { p.total_bet as int } else { top };
    assert forall|j: int| 0 <= j < seats.len() && (#[trigger] seats[j]) is Some implies f(seats[j]->0) == total_bet_of(
        seats[j]->0) by {
        let tb = seats[j]->0.total_bet;
        if tb > 0 {
            assert(seat_bet_is(seats[j], tb));
            assert(lv.contains(tb));
            let i = choose|i: int| 0 <= i < lv.len() && lv[i] == tb;
            if i < lv.len() - 1 {
                assert(lv[i] < lv[lv.len() - 1]);
            }
        }
    }
    lemma_seat_sum_congr(seats, f, |p: PlayerModel| total_bet_of(p));
}

proof fn lemma_capped_zero(seats: Seq<Option<PlayerModel>>)
    ensures
        capped_total(seats, 0) == 0,
    decreases seats.len(),
{
    if seats.len() > 0 {
        lemma_capped_zero(seats.drop_last());
    }
}

proof fn lemma_pots_total_push(pots: Seq<SidePotModel>, p: SidePotModel)
    ensures
        pots_total(pots.push(p)) == pots_total(pots) + p.amount,
{
    assert(pots.push(p).drop_last() =~= pots);
}

/// Chips are neither made nor lost when the pots are built: together they hold
/// what the seated players put in during the hand.
pub proof fn lemma_pots_hold_all_bets(seats: Seq<Option<PlayerModel>>)
    requires
        exists|lv: Seq<u64>| is_bet_levels(seats, lv),
        sum_total_bets(seats) <= u64::MAX,
    ensures
        pots_total(pots_for(seats)) == sum_total_bets(seats),
{
    let lv = bet_levels(seats);
    assert(is_bet_levels(seats, lv));
    let pots = pots_for(seats);
    lemma_seat_sum_nonneg(seats, |p: PlayerModel| total_bet_of(p));
    lemma_capped_zero(seats);
    lemma_pots_prefix_total(seats, lv, lv.len() as int);
    assert(pots.take(lv.len() as int) =~= pots);
    lemma_capped_at_top(seats, lv);
}

proof fn lemma_pots_prefix_total(seats: Seq<Option<PlayerModel>>, lv: Seq<u64>, k: int)
    requires
        is_bet_levels(seats, lv),
        lv == bet_levels(seats),
        0 <= k <= lv.len(),
        sum_total_bets(seats) <= u64::MAX,
    ensures
        pots_total(pots_for(seats).take(k)) == capped_total(seats, level_prev(lv, k)),
    decreases k,
{
    let pots = pots_for(seats);
    if k == 0 {
        lemma_capped_zero(seats);
        assert(pots.take(0) =~= Seq::<SidePotModel>::empty());
    } else {
        lemma_pots_prefix_total(seats, lv, k - 1);
        lemma_level_amount(seats, lv, k - 1);
        lemma_capped_bounds(seats, lv[k - 1] as int);
        lemma_capped_bounds(seats, level_prev(lv, k - 1));
        if k > 1 {
            assert(lv[k - 2] < lv[k - 1]);
        }
        lemma_seat_sum_nonneg(seats, level_share(lv[k - 1], level_prev(lv, k - 1)));
        assert(pots.take(k) =~= pots.take(k - 1).push(pots[k - 1]));
        lemma_pots_total_push(pots.take(k - 1), pots[k - 1]);
    }
}

/// `capped_total` lies between zero and the total of the bets.
proof fn lemma_capped_bounds(seats: Seq<Option<PlayerModel>>, x: int)
    requires
        x >= 0,
    ensures
        0 <= capped_total(seats, x) <= sum_total_bets(seats),
    decreases seats.len(),
{
    if seats.len() > 0 {
        lemma_capped_bounds(seats.drop_last(), x);
    }
}

proof fn lemma_seat_sum_take_step(seats: Seq<Option<PlayerModel>>, f: spec_fn(PlayerModel) -> int, n: int)
    requires
        0 <= n < seats.len(),
    ensures
        seat_sum(seats.take(n + 1), f) == seat_sum(seats.take(n), f) + seat_value(seats[n], f),
{
    assert(seats.take(n + 1).drop_last() =~= seats.take(n));
}

proof fn lemma_seat_sum_take_le(seats: Seq<Option<PlayerModel>>, f: spec_fn(PlayerModel) -> int, n: int)
    requires
        0 <= n <= seats.len(),
        forall|p: PlayerModel| #[trigger] f(p) >= 0,
    ensures
        seat_sum(seats.take(n), f) <= seat_sum(seats, f),
    decreases seats.len() - n,
{
    if n == seats.len() {
        assert(seats.take(n) =~= seats);
    } else {
        lemma_seat_sum_take_step(seats, f, n);
        lemma_seat_sum_take_le(seats, f, n + 1);
        lemma_seat_sum_bounds(seats, f, n);
    }
}

/// Adds `x` to an increasing list of levels, unless it is already there.
fn insert_level(levels: &mut Vec<u64>, x: u64)
    requires
        strictly_increasing(old(levels)@),
    ensures
        strictly_increasing(final(levels)@),
        forall|v: u64| final(levels)@.contains(v) <==> (old(levels)@.contains(v) || v == x),
{
    let mut pos: usize = 0;
    while pos < levels.len() && levels[pos] < x
        invariant
            pos <= levels@.len(),
            forall|i: int| 0 <= i < pos ==> levels@[i] < x,
        decreases levels@.len() - pos,
    {
        pos = pos + 1;
    }
    let ghost old_levels = levels@;
    if pos < levels.len() && levels[pos] == x {
        return;
    }
    levels.insert(pos, x);
    proof {
        let n = levels@;
        assert forall|v: u64| n.contains(v) <==> (old_levels.contains(v) || v == x) by {
            if n.contains(v) {
                let i = choose|i: int| 0 <= i < n.len() && n[i] == v;
                if i < pos {
                    assert(old_levels[i] == v);
                } else if i > pos {
                    assert(old_levels[i - 1] == v);
                }
            }
            if old_levels.contains(v) {
                let i = choose|i: int| 0 <= i < old_levels.len() && old_levels[i] == v;
                if i < pos {
                    assert(n[i] == v);
                } else {
                    assert(n[i + 1] == v);
                }
            }
            if v == x {
                assert(n[pos as int] == v);
            }
        }
    }
}

impl Table {
    /// Splits what the players put in during the hand into a main pot and side
    /// pots: one pot per distinct amount put in, lowest first. Each player who
    /// put in at least that amount pays the difference to the level below;
    /// the players still in the hand contend for it. Folded players pay but
    /// do not contend. Together the pots hold every chip put in.
    pub fn build_pots(&self) -> (pots: Vec<SidePot>)
        requires
            sum_total_bets(self@.seats) <= u64::MAX,
        ensures
            pots_model(pots@) == pots_for(self@.seats),
            pots_total(pots_model(pots@)) == sum_total_bets(self@.seats),
    {
        let ghost seats = self@.seats;
        let mut levels: Vec<u64> = Vec::new();
        let mut i: usize = 0;
        while i < self.seats.len()
            invariant
                seats == self@.seats,
                i <= seats.len(),
                strictly_increasing(levels@),
                forall|k: int| 0 <= k < levels@.len() ==> #[trigger] levels@[k] > 0,
                forall|v: u64| v > 0 ==> (levels@.contains(v) <==> exists|j: int| 0 <= j < i && #[trigger] seat_bet_is(seats[j], v)),
            decreases seats.len() - i,
        {
            let ghost before = levels@;
            match &self.seats[i] {
                Some(p) => {
                    if p.total_bet > 0 {
                        insert_level(&mut levels, p.total_bet);
                    }
                },
                None => {},
            }
            proof {
                assert forall|k: int| 0 <= k < levels@.len() implies #[trigger] levels@[k] > 0 by {
                    assert(levels@.contains(levels@[k]));
                    if !before.contains(levels@[k]) {
                    } else {
                        let k2 = choose|k2: int| 0 <= k2 < before.len() && before[k2] == levels@[k];
                    }
                }
                assert forall|v: u64| v > 0 implies (levels@.contains(v) <==> exists|j: int| 0 <= j < i + 1 && #[trigger] seat_bet_is(seats[j], v)) by {
                    if seat_bet_is(seats[i as int], v) {
                        assert(levels@.contains(v));
                    }
                    if exists|j: int| 0 <= j < i + 1 && #[trigger] seat_bet_is(seats[j], v) {
                        let j = choose|j: int| 0 <= j < i + 1 && #[trigger] seat_bet_is(seats[j], v);
                        if j < i {
                            assert(before.contains(v));
                        }
                    }
                }
            }
            i = i + 1;
        }
        proof {
            assert(is_bet_levels(seats, levels@));
            lemma_bet_levels_unique(seats, levels@);
            lemma_pots_hold_all_bets(seats);
        }
        let ghost lv = levels@;
        let ghost all_pots = pots_for(seats);
        let mut pots: Vec<SidePot> = Vec::new();
        let mut prev_level: u64 = 0;
        let mut k: usize = 0;
        while k < levels.len()
            invariant
                seats == self@.seats,
                lv == levels@,
                lv == bet_levels(seats),
                is_bet_levels(seats, lv),
                all_pots == pots_for(seats),
                pots_total(all_pots) == sum_total_bets(seats),
                sum_total_bets(seats) <= u64::MAX,
                k <= lv.len(),
                prev_level == level_prev(lv, k as int),
                pots_model(pots@) == all_pots.take(k as int),
            decreases lv.len() - k,
        {
            let level = levels[k];
            proof {
                if k > 0 {
                    assert(lv[k - 1] < lv[k as int]);
                }
            }
            let delta = level - prev_level;
            let ghost share = level_share(level, prev_level as int);
            proof {
                lemma_level_amount(seats, lv, k as int);
                lemma_capped_bounds(seats, level as int);
                lemma_capped_bounds(seats, prev_level as int);
                lemma_seat_sum_nonneg(seats, share);
            }
            let mut pot_amount: u64 = 0;
            let mut contenders: Vec<usize> = Vec::new();
            let mut idx: usize = 0;
            while idx < self.seats.len()
                invariant
                    seats == self@.seats,
                    idx <= seats.len(),
                    share == level_share(level, prev_level as int),
                    delta == level - prev_level,
                    forall|p: PlayerModel| #[trigger] share(p) >= 0,
                    seat_sum(seats, share) <= u64::MAX,
                    pot_amount == seat_sum(seats.take(idx as int), share),
                    contenders@ == contenders_upto(seats, level, idx as int),
                decreases seats.len() - idx,
            {
                proof {
                    lemma_seat_sum_take_step(seats, share, idx as int);
                    lemma_seat_sum_take_le(seats, share, idx + 1);
                    assert(seats.take(idx + 1).drop_last() =~= seats.take(idx as int));
                }
                match &self.seats[idx] {
                    Some(player) => {
                        if player.total_bet >= level {
                            pot_amount = pot_amount + delta;
                            if player.is_active {
                                contenders.push(idx);
                            }
                        }
                    },
                    None => {},
                }
                idx = idx + 1;
            }
            proof {
                assert(seats.take(seats.len() as int) =~= seats);
            }
            let pot = SidePot { amount: pot_amount, contenders };
            let ghost pot_view = pot@;
            let ghost old_pots = pots@;
            proof {
                assert(all_pots.len() == lv.len());
                assert(pots_model(old_pots).len() == k);
                assert(old_pots.len() == k);
            }
            pots.push(pot);
            proof {
                assert(pots@ == old_pots.push(pot));
                assert(pot_view == all_pots[k as int]);
                assert forall|j: int| 0 <= j < k + 1 implies #[trigger] pots_model(pots@)[j] == all_pots.take(k + 1)[j] by {
                    if j < k {
                        assert(pots@[j] == old_pots[j]);
                        assert(pots_model(old_pots)[j] == all_pots.take(k as int)[j]);
                    }
                }
                assert(pots_model(pots@) =~= all_pots.take(k + 1));
            }
            prev_level = level;
            k = k + 1;
        }
        proof {
            assert(all_pots.take(lv.len() as int) =~= all_pots);
        }
        pots
    }
}

// ---------------------------------------------------------------------------
// Settling the pots
// ---------------------------------------------------------------------------

/// The hand strength of the player in seat `c`.
pub open spec fn seat_rank(seats: Seq<Option<PlayerModel>>, c: usize) -> HandRank {
    seats[c as int]->0.cards_rank->0
}

/// The strongest hand among the first `n` contenders.
pub open spec fn best_rank_upto(seats: Seq<Option<PlayerModel>>, cs: Seq<usize>, n: int) -> HandRank
    decreases n,
{
    if n <= 1 {
        seat_rank(seats, cs[0])
    } else {
        rank_max(best_rank_upto(seats, cs, n - 1), seat_rank(seats, cs[n - 1]))
    }
}

/// The first `n` contenders whose hand has strength `best`, in order.
pub open spec fn winners_upto(seats: Seq<Option<PlayerModel>>, cs: Seq<usize>, best: HandRank, n: int) -> Seq<usize>
    decreases n,
{
    if n <= 0 {
        seq![]
    } else {
        let rest = winners_upto(seats, cs, best, n - 1);
        if seat_rank(seats, cs[n - 1]) == best {
            rest.push(cs[n - 1])
        } else {
            rest
        }
    }
}

/// Pays the first `n` winners `share` chips each, the first of them also the
/// `odd` chips that do not divide, and marks them as winners.
pub open spec fn credit_winners(seats: Seq<Option<PlayerModel>>, winners: Seq<usize>, share: u64, odd: u64, n: int) -> Seq<
    Option<PlayerModel>,
>
    decreases n,
{
    if n <= 0 {
        seats
    } else {
        let s = credit_winners(seats, winners, share, odd, n - 1);
        let w = winners[n - 1] as int;
        let p = s[w]->0;
        let extra: int = if n - 1 == 0 { odd as int } else { 0 };
        s.update(w, Some(PlayerModel { balance: (p.balance + share + extra) as u64, win: true, ..p }))
    }
}

/// Settles one pot: the contenders with the strongest hand split it evenly,
/// the first of them (by order of contention) taking the chips that do not
/// divide. A pot without contenders is left unpaid.
pub open spec fn settle_pot_model(m: TableModel, pot: SidePotModel) -> TableModel {
    let cs = pot.contenders;
    if cs.len() == 0 {
        m
    } else {
        let best = best_rank_upto(m.seats, cs, cs.len() as int);
        let w = winners_upto(m.seats, cs, best, cs.len() as int);
        let n = w.len() as int;
        TableModel { seats: credit_winners(m.seats, w, (pot.amount as int / n) as u64, (pot.amount as int % n) as u64, n), ..m }
    }
}

/// Settles the pots one after the other.
pub open spec fn settle_model(m: TableModel, pots: Seq<SidePotModel>) -> TableModel
    decreases pots.len(),
{
    if pots.len() == 0 {
        m
    } else {
        settle_pot_model(settle_model(m, pots.drop_last()), pots.last())
    }
}

/// The chips of the pots that have a contender, that is, of those that are paid.
pub open spec fn paid_total(pots: Seq<SidePotModel>) -> int
    decreases pots.len(),
{
    if pots.len() == 0 {
        0
    } else {
        paid_total(pots.drop_last()) + if pots.last().contenders.len() > 0 { pots.last().amount as int } else { 0 }
    }
}

/// Every contender sits at the table with an evaluated hand.
pub open spec fn contenders_ranked(seats: Seq<Option<PlayerModel>>, pots: Seq<SidePotModel>) -> bool {
    forall|k: int, j: int|
        0 <= k < pots.len() && 0 <= j < pots[k].contenders.len() ==> {
            let c = #[trigger] pots[k].contenders[j];
            &&& c < seats.len()
            &&& seats[c as int] is Some
            &&& seats[c as int]->0.cards_rank is Some
        }
}

/// The strongest hand is held by one of the contenders.
proof fn lemma_best_rank_attained(seats: Seq<Option<PlayerModel>>, cs: Seq<usize>, n: int)
    requires
        1 <= n <= cs.len(),
    ensures
        exists|j: int| 0 <= j < n && seat_rank(seats, cs[j]) == best_rank_upto(seats, cs, n),
    decreases n,
{
    if n == 1 {
        assert(seat_rank(seats, cs[0]) == best_rank_upto(seats, cs, 1));
    } else {
        lemma_best_rank_attained(seats, cs, n - 1);
        if rank_le(best_rank_upto(seats, cs, n - 1), seat_rank(seats, cs[n - 1])) {
            assert(seat_rank(seats, cs[n - 1]) == best_rank_upto(seats, cs, n));
        }
    }
}

proof fn lemma_winners_nonempty(seats: Seq<Option<PlayerModel>>, cs: Seq<usize>, best: HandRank, n: int, j: int)
    requires
        0 <= j < n <= cs.len(),
        seat_rank(seats, cs[j]) == best,
    ensures
        winners_upto(seats, cs, best, n).len() > 0,
    decreases n,
{
    if j < n - 1 {
        lemma_winners_nonempty(seats, cs, best, n - 1, j);
    }
}

/// The winners are contenders.
proof fn lemma_winners_are_contenders(seats: Seq<Option<PlayerModel>>, cs: Seq<usize>, best: HandRank, n: int)
    requires
        0 <= n <= cs.len(),
    ensures
        forall|i: int| 0 <= i < winners_upto(seats, cs, best, n).len() ==> exists|j: int| 0 <= j < n
            && cs[j] == #[trigger] winners_upto(seats, cs, best, n)[i],
    decreases n,
{
    if n > 0 {
        lemma_winners_are_contenders(seats, cs, best, n - 1);
        let w = winners_upto(seats, cs, best, n);
        let r = winners_upto(seats, cs, best, n - 1);
        assert forall|i: int| 0 <= i < w.len() implies exists|j: int| 0 <= j < n && cs[j] == #[trigger] w[i] by {
            if i < r.len() {
                assert(w[i] == r[i]);
                let j = choose|j: int| 0 <= j < n - 1 && cs[j] == r[i];
            } else {
                assert(w[i] == cs[n - 1]);
            }
        }
    }
}

/// Paying the winners keeps every seat taken as it was and every hand as it
/// was, and adds `share` per winner plus `odd` to the chips at the table.
proof fn lemma_credit_winners(seats: Seq<Option<PlayerModel>>, w: Seq<usize>, share: u64, odd: u64, n: int)
    requires
        0 <= n <= w.len(),
        forall|i: int| 0 <= i < w.len() ==> #[trigger] w[i] < seats.len() && seats[w[i] as int] is Some,
        sum_balances(seats) + share * w.len() + odd <= u64::MAX,
    ensures
        credit_winners(seats, w, share, odd, n).len() == seats.len(),
        forall|j: int| 0 <= j < seats.len() ==> (#[trigger] credit_winners(seats, w, share, odd, n)[j] is Some
            <==> seats[j] is Some),
        forall|j: int| 0 <= j < seats.len() && seats[j] is Some ==> (#[trigger] credit_winners(seats, w, share, odd, n)[j])->0.cards_rank
            == seats[j]->0.cards_rank && credit_winners(seats, w, share, odd, n)[j]->0.total_bet == seats[j]->0.total_bet
            && credit_winners(seats, w, share, odd, n)[j]->0.is_active == seats[j]->0.is_active
            && credit_winners(seats, w, share, odd, n)[j]->0.id == seats[j]->0.id
            && credit_winners(seats, w, share, odd, n)[j]->0.hand_cards == seats[j]->0.hand_cards,
        sum_balances(credit_winners(seats, w, share, odd, n)) == sum_balances(seats) + share * n + if n > 0 {
            odd as int
        } else {
            0
        },
    decreases n,
{
    if n > 0 {
        lemma_credit_winners(seats, w, share, odd, n - 1);
        let s = credit_winners(seats, w, share, odd, n - 1);
        let wi = w[n - 1] as int;
        let p = s[wi]->0;
        let extra: int = if n - 1 == 0 { odd as int } else { 0 };
        let np = PlayerModel { balance: (p.balance + share + extra) as u64, win: true, ..p };
        assert(share * n == share * (n - 1) + share) by (nonlinear_arith);
        assert(share * n <= share * w.len()) by (nonlinear_arith)
            requires n <= w.len(), share >= 0;
        lemma_seat_sum_bounds(s, |p: PlayerModel| balance_of(p), wi);
        assert(p.balance + share + extra <= u64::MAX);
        lemma_seat_sum_update(s, |p: PlayerModel| balance_of(p), wi, Some(np));
    }
}

/// What settling one pot does to the chips and to the seats.
pub proof fn lemma_settle_pot(m: TableModel, pot: SidePotModel)
    requires
        contenders_ranked(m.seats, seq![pot]),
        pot.contenders.len() > 0 ==> sum_balances(m.seats) + pot.amount <= u64::MAX,
    ensures
        settle_pot_model(m, pot).seats.len() == m.seats.len(),
        forall|j: int| 0 <= j < m.seats.len() ==> (#[trigger] settle_pot_model(m, pot).seats[j] is Some
            <==> m.seats[j] is Some),
        forall|j: int| 0 <= j < m.seats.len() && m.seats[j] is Some ==> (#[trigger] settle_pot_model(m, pot).seats[j])->0.cards_rank
            == m.seats[j]->0.cards_rank && settle_pot_model(m, pot).seats[j]->0.total_bet == m.seats[j]->0.total_bet
            && settle_pot_model(m, pot).seats[j]->0.is_active == m.seats[j]->0.is_active
            && settle_pot_model(m, pot).seats[j]->0.id == m.seats[j]->0.id
            && settle_pot_model(m, pot).seats[j]->0.hand_cards == m.seats[j]->0.hand_cards,
        sum_balances(settle_pot_model(m, pot).seats) == sum_balances(m.seats) + if pot.contenders.len() > 0 {
            pot.amount as int
        } else {
            0
        },
{
    let cs = pot.contenders;
    if cs.len() > 0 {
        let best = best_rank_upto(m.seats, cs, cs.len() as int);
        let w = winners_upto(m.seats, cs, best, cs.len() as int);
        lemma_best_rank_attained(m.seats, cs, cs.len() as int);
        let j = choose|j: int| 0 <= j < cs.len() && seat_rank(m.seats, cs[j]) == best;
        lemma_winners_nonempty(m.seats, cs, best, cs.len() as int, j);
        lemma_winners_are_contenders(m.seats, cs, best, cs.len() as int);
        let n = w.len() as int;
        let a = pot.amount as int;
        assert(0 <= a / n <= a && 0 <= a % n < n && (a / n) * n + a % n == a) by (nonlinear_arith)
            requires
                n > 0,
                a >= 0,
        ;
        let share = (a / n) as u64;
        let odd = (a % n) as u64;
        assert(share * n + odd == a);
        assert forall|i: int| 0 <= i < w.len() implies #[trigger] w[i] < m.seats.len() && m.seats[w[i] as int] is Some by {
            let j2 = choose|j2: int| 0 <= j2 < cs.len() && cs[j2] == w[i];
            assert(seq![pot][0].contenders[j2] == w[i]);
        }
        lemma_credit_winners(m.seats, w, share, odd, n as int);
    }
}

impl Table {
    fn rank_at(&self, c: usize) -> (r: HandRank)
        requires
            c < self@.seats.len(),
            self@.seats[c as int] is Some,
            self@.seats[c as int]->0.cards_rank is Some,
        ensures
            r == seat_rank(self@.seats, c),
    {
        match &self.seats[c] {
            Some(p) => match p.cards_rank {
                Some(r) => r,
                None => HandRank::HighCard(0),
            },
            None => HandRank::HighCard(0),
        }
    }

    fn settle_pot(&mut self, pot: &SidePot)
        requires
            contenders_ranked(old(self)@.seats, seq![pot@]),
            pot@.contenders.len() > 0 ==> sum_balances(old(self)@.seats) + pot.amount <= u64::MAX,
        ensures
            final(self)@ == settle_pot_model(old(self)@, pot@),
    {
        let ghost m = self@;
        let ghost cs = pot@.contenders;
        let n_cs = pot.contenders.len();
        if n_cs == 0 {
            return;
        }
        proof {
            assert(seq![pot@][0].contenders[0] == cs[0]);
        }
        let mut best = self.rank_at(pot.contenders[0]);
        let mut j: usize = 1;
        while j < n_cs
            invariant
                self@ == m,
                cs == pot@.contenders,
                n_cs == cs.len(),
                1 <= j <= n_cs,
                contenders_ranked(m.seats, seq![pot@]),
                best == best_rank_upto(m.seats, cs, j as int),
            decreases n_cs - j,
        {
            proof {
                assert(seq![pot@][0].contenders[j as int] == cs[j as int]);
            }
            let r = self.rank_at(pot.contenders[j]);
            if best.is_le(&r) {
                best = r;
            }
            j = j + 1;
        }
        let mut winners: Vec<usize> = Vec::new();
        let mut j: usize = 0;
        while j < n_cs
            invariant
                self@ == m,
                cs == pot@.contenders,
                n_cs == cs.len(),
                j <= n_cs,
                contenders_ranked(m.seats, seq![pot@]),
                best == best_rank_upto(m.seats, cs, n_cs as int),
                winners@ == winners_upto(m.seats, cs, best, j as int),
            decreases n_cs - j,
        {
            proof {
                assert(seq![pot@][0].contenders[j as int] == cs[j as int]);
            }
            let r = self.rank_at(pot.contenders[j]);
            if r == best {
                winners.push(pot.contenders[j]);
            }
            j = j + 1;
        }
        proof {
            lemma_settle_pot(m, pot@);
            lemma_best_rank_attained(m.seats, cs, cs.len() as int);
            let j0 = choose|j0: int| 0 <= j0 < cs.len() && seat_rank(m.seats, cs[j0]) == best;
            lemma_winners_nonempty(m.seats, cs, best, cs.len() as int, j0);
            lemma_winners_are_contenders(m.seats, cs, best, cs.len() as int);
            assert forall|i: int| 0 <= i < winners@.len() implies #[trigger] winners@[i] < m.seats.len() && m.seats[winners@[i] as int] is Some by {
                let j2 = choose|j2: int| 0 <= j2 < cs.len() && cs[j2] == winners@[i];
                assert(seq![pot@][0].contenders[j2] == winners@[i]);
            }
        }
        let count = winners.len() as u64;
        let share = pot.amount / count;
        let odd = pot.amount % count;
        let ghost w = winners@;
        proof {
            let a = pot.amount as int;
            let n = count as int;
            assert(share == a / n && odd == a % n);
            assert((a / n) * n + a % n == a) by (nonlinear_arith)
                requires
                    n > 0,
                    a >= 0,
            ;
        }
        let mut i: usize = 0;
        while i < winners.len()
            invariant
                w == winners@,
                i <= w.len(),
                count == w.len(),
                share * count + odd == pot.amount,
                sum_balances(m.seats) + pot.amount <= u64::MAX,
                forall|k: int| 0 <= k < w.len() ==> #[trigger] w[k] < m.seats.len() && m.seats[w[k] as int] is Some,
                self@ == (TableModel { seats: credit_winners(m.seats, w, share, odd, i as int), ..m }),
            decreases w.len() - i,
        {
            let seat = winners[i];
            proof {
                lemma_credit_winners(m.seats, w, share, odd, i as int);
                lemma_credit_winners(m.seats, w, share, odd, i + 1);
                let s = credit_winners(m.seats, w, share, odd, i as int);
                assert(w[i as int] < m.seats.len() && m.seats[w[i as int] as int] is Some);
                assert(s[seat as int] is Some);
                lemma_seat_sum_bounds(s, |p: PlayerModel| balance_of(p), seat as int);
                assert(s[seat as int]->0.balance <= sum_balances(s));
                assert(sum_balances(s) == sum_balances(m.seats) + share * i + if i > 0 { odd as int } else { 0 });
                assert(share * count + odd == pot.amount);
                let ii = i as int;
                let cc = count as int;
                let sh = share as int;
                assert(sh * (ii + 1) <= sh * cc) by (nonlinear_arith)
                    requires ii + 1 <= cc, sh >= 0;
                assert(sh * ii + sh == sh * (ii + 1)) by (nonlinear_arith);
                assert(ii == 0 ==> sh * ii == 0) by (nonlinear_arith);
                if i == 0 {
                    assert(s[seat as int]->0.balance + share + odd <= u64::MAX);
                } else {
                    assert(s[seat as int]->0.balance + share <= u64::MAX);
                }
            }
            let ghost before = self@;
            match &mut self.seats[seat] {
                Some(player) => {
                    player.balance = player.balance + share;
                    if i == 0 {
                        player.balance = player.balance + odd;
                    }
                    player.win = true;
                },
                None => {},
            }
            proof {
                let s2 = credit_winners(m.seats, w, share, odd, i + 1);
                assert(self@.seats =~= s2);
            }
            i = i + 1;
        }
    }

    /// Pays out the pots in order. In each pot the contenders holding the
    /// strongest hand split the chips evenly; the first of them takes the
    /// chips that do not divide. A pot with no contender is not paid.
    pub fn settle_pots(&mut self, pots: Vec<SidePot>)
        requires
            contenders_ranked(old(self)@.seats, pots_model(pots@)),
            sum_balances(old(self)@.seats) + paid_total(pots_model(pots@)) <= u64::MAX,
        ensures
            final(self)@ == settle_model(old(self)@, pots_model(pots@)),
            sum_balances(final(self)@.seats) == sum_balances(old(self)@.seats) + paid_total(pots_model(pots@)),
    {
        let ghost m = self@;
        let ghost pm = pots_model(pots@);
        let mut k: usize = 0;
        while k < pots.len()
            invariant
                pm == pots_model(pots@),
                k <= pm.len(),
                contenders_ranked(m.seats, pm),
                sum_balances(m.seats) + paid_total(pm) <= u64::MAX,
                self@ == settle_model(m, pm.take(k as int)),
                self@.seats.len() == m.seats.len(),
                forall|j: int| 0 <= j < m.seats.len() ==> (#[trigger] self@.seats[j] is Some <==> m.seats[j] is Some),
                forall|j: int| 0 <= j < m.seats.len() && m.seats[j] is Some ==> (#[trigger] self@.seats[j])->0.cards_rank
                    == m.seats[j]->0.cards_rank,
                sum_balances(self@.seats) == sum_balances(m.seats) + paid_total(pm.take(k as int)),
            decreases pm.len() - k,
        {
            proof {
                assert(pm.take(k + 1).drop_last() =~= pm.take(k as int));
                lemma_paid_total_le(pm, k + 1);
                assert forall|k2: int, j: int| 0 <= k2 < 1 && 0 <= j < seq![pm[k as int]][k2].contenders.len() implies {
                    let c = #[trigger] seq![pm[k as int]][k2].contenders[j];
                    &&& c < self@.seats.len()
                    &&& self@.seats[c as int] is Some
                    &&& self@.seats[c as int]->0.cards_rank is Some
                } by {
                    let c = pm[k as int].contenders[j];
                    assert(seq![pm[k as int]][k2] == pm[k as int]);
                }
                assert(pots@[k as int]@ == pm[k as int]);
                lemma_settle_pot(self@, pm[k as int]);
            }
            self.settle_pot(&pots[k]);
            k = k + 1;
        }
        proof {
            assert(pm.take(pm.len() as int) =~= pm);
        }
    }
}

proof fn lemma_paid_total_le(pots: Seq<SidePotModel>, k: int)
    requires
        0 <= k <= pots.len(),
    ensures
        0 <= paid_total(pots.take(k)) <= paid_total(pots),
    decreases pots.len() - k,
{
    lemma_paid_total_nonneg(pots.take(k));
    if k < pots.len() {
        lemma_paid_total_le(pots, k + 1);
        assert(pots.take(k + 1).drop_last() =~= pots.take(k));
    } else {
        assert(pots.take(k) =~= pots);
    }
}

proof fn lemma_paid_total_nonneg(pots: Seq<SidePotModel>)
    ensures
        paid_total(pots) >= 0,
    decreases pots.len(),
{
    if pots.len() > 0 {
        lemma_paid_total_nonneg(pots.drop_last());
    }
}

} // verus!
