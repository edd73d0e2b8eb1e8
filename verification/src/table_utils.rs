use vstd::prelude::*;
use vstd::arithmetic::div_mod::{lemma_add_mod_noop_right, lemma_fundamental_div_mod, lemma_fundamental_div_mod_converse_mod, lemma_mod_bound};
use crate::player::PlayerModel;
use crate::table::{Table, seat_pending, count_active, round_complete, post_amount_model, post_amount_fits, seat_eligible, scan_seats, next_seat, some_seat_eligible, find_seat, find_seat_from};

verus! {

/// Stepping clockwise from a seat index reduced modulo the table size.
proof fn lemma_mod_step(x: int, m: int)
    requires
        0 < m,
    ensures
        ((x % m) + 1) % m == (x + 1) % m,
{
    lemma_add_mod_noop_right(1, x, m);
}

/// Every seat is reached by some clockwise offset in `1..=len`.
proof fn lemma_offsets_cover(from: int, len: int, e: int) -> (k: int)
    requires
        0 <= from,
        0 < len,
        0 <= e < len,
    ensures
        1 <= k <= len,
        (from + k) % len == e,
{
    let d = e - from;
    lemma_fundamental_div_mod(d, len);
    lemma_mod_bound(d, len);
    let q = d / len;
    let r = d % len;
    let k = if r == 0 { len } else { r };
    let x = from + k;
    let q2 = if r == 0 { 1 - q } else { -q };
    assert(x == q2 * len + e) by (nonlinear_arith)
        requires
            d == len * q + r,
            d == e - from,
            x == from + k,
            k == (if r == 0 { len } else { r }),
            q2 == (if r == 0 { 1 - q } else { -q }),
    ;
    lemma_fundamental_div_mod_converse_mod(x, len, q2, e);
    k
}

/// The spec of the clockwise walk, one step at a time.
proof fn lemma_scan_unfold(seats: Seq<Option<PlayerModel>>, from: int, k: int)
    requires
        seats.len() > 0,
        1 <= k <= seats.len(),
    ensures
        scan_seats(seats, from, k) == (if (from + k) % (seats.len() as int) == from {
            None
        } else if seat_eligible(seats[(from + k) % (seats.len() as int)]) {
            Some((from + k) % (seats.len() as int))
        } else {
            scan_seats(seats, from, k + 1)
        }),
{
}

/// The result of the walk is a seat that may act, and every seat passed on
/// the way may not.
pub proof fn lemma_next_seat(seats: Seq<Option<PlayerModel>>, from: int, k: int)
    requires
        seats.len() > 0,
        0 <= from,
        1 <= k,
    ensures
        scan_seats(seats, from, k) matches Some(j) ==> 0 <= j < seats.len() && j != from
            && seat_eligible(seats[j]),
    decreases seats.len() + 1 - k,
{
    if k <= seats.len() {
        lemma_mod_bound(from + k, seats.len() as int);
        lemma_next_seat(seats, from, k + 1);
    }
}

/// A walk from offset `k` that reaches an eligible seat at offset `k0`,
/// without passing its start, finds a seat.
proof fn lemma_scan_reaches(seats: Seq<Option<PlayerModel>>, from: int, k: int, k0: int)
    requires
        seats.len() > 0,
        0 <= from,
        1 <= k <= k0 <= seats.len(),
        seat_eligible(seats[(from + k0) % (seats.len() as int)]),
        forall|k2: int| k <= k2 <= k0 ==> #[trigger] ((from + k2) % (seats.len() as int)) != from,
    ensures
        scan_seats(seats, from, k) is Some,
    decreases k0 - k,
{
    lemma_scan_unfold(seats, from, k);
    assert((from + k) % (seats.len() as int) != from);
    if k < k0 {
        lemma_scan_reaches(seats, from, k + 1, k0);
    }
}

/// The walk from `from` finds a seat whenever a seat other than `from` may
/// act.
pub proof fn lemma_next_seat_complete(seats: Seq<Option<PlayerModel>>, from: int, e: int)
    requires
        0 <= from,
        0 <= e < seats.len(),
        e != from,
        seat_eligible(seats[e]),
    ensures
        next_seat(seats, from) is Some,
{
    let len = seats.len() as int;
    let k0 = lemma_offsets_cover(from, len, e);
    if from < len {
        lemma_fundamental_div_mod_converse_mod(from + len, len, 1, from);
        assert(k0 < len);
    }
    assert forall|k2: int| 1 <= k2 <= k0 implies #[trigger] ((from + k2) % len) != from by {
        lemma_mod_bound(from + k2, len);
        if from < len {
            if from + k2 < len {
                lemma_fundamental_div_mod_converse_mod(from + k2, len, 0, from + k2);
            } else {
                lemma_fundamental_div_mod_converse_mod(from + k2, len, 1, from + k2 - len);
            }
        }
    }
    lemma_scan_reaches(seats, from, 1, k0);
}

impl Table {
    /// The first seat taken by the player `player_id`.
    pub fn find_seat_index_by_player_id(&self, player_id: &str) -> (r: Option<usize>)
        ensures
            r matches Some(i) ==> find_seat(self@.seats, player_id@) == Some(i as int),
            r is None ==> find_seat(self@.seats, player_id@) is None,
    {
        let id = player_id.to_owned();
        let mut i: usize = 0;
        while i < self.seats.len()
            invariant
                i <= self.seats@.len(),
                id@ == player_id@,
                find_seat(self@.seats, player_id@) == find_seat_from(self@.seats, player_id@, i as int),
            decreases self.seats@.len() - i,
        {
            match &self.seats[i] {
                Some(p) => {
                    if p.id == id {
                        return Some(i);
                    }
                },
                None => {},
            }
            i = i + 1;
        }
        None
    }

    /// The id of the player in seat `seat_index`, if the seat exists and is taken.
    pub fn find_player_id_by_seat_index(&self, seat_index: usize) -> (r: Option<String>)
        ensures
            r matches Some(id) ==> seat_index < self@.seats.len() && self@.seats[seat_index as int] is Some
                && id@ == self@.seats[seat_index as int]->0.id,
            r is None ==> seat_index >= self@.seats.len() || self@.seats[seat_index as int] is None,
    {
        if seat_index >= self.seats.len() {
            return None;
        }
        match &self.seats[seat_index] {
            Some(p) => Some(p.id.clone()),
            None => None,
        }
    }

    /// The first seat after `seat_index`, clockwise, whose player may act
    /// (still in the hand and not all-in); `None` when no other seat may act.
    pub fn next_occupied_seat(&self, seat_index: usize) -> (r: Option<usize>)
        requires
            self.seats@.len() > 0,
            seat_index < usize::MAX,
            seat_index < self.seats@.len() || some_seat_eligible(self@.seats),
        ensures
            r matches Some(j) ==> next_seat(self@.seats, seat_index as int) == Some(j as int),
            r is None ==> next_seat(self@.seats, seat_index as int) is None,
    {
        let len = self.seats.len();
        let ghost seats = self@.seats;
        let ghost from = seat_index as int;
        let mut i = seat_index;
        let ghost mut k: int = 0;
        loop
            invariant
                len == seats.len(),
                seats == self@.seats,
                len > 0,
                from == seat_index,
                0 <= k <= len,
                k == 0 ==> i == seat_index,
                k > 0 ==> i as int == (from + k) % (len as int) && i < len,
                seat_index < usize::MAX,
                next_seat(seats, from) == scan_seats(seats, from, k + 1),
                from < len || some_seat_eligible(seats),
                forall|k2: int| 1 <= k2 <= k ==> !seat_eligible(#[trigger] seats[(from + k2) % (len as int)])
                    && (from + k2) % (len as int) != from,
            decreases len - k,
        {
            proof {
                if k == len {
                    if from < len {
                        lemma_fundamental_div_mod_converse_mod(from + len, len as int, 1, from);
                        assert(!seat_eligible(seats[(from + len) % (len as int)]));
                        assert(false);
                    } else {
                        let e = choose|e: int| 0 <= e < len && seat_eligible(#[trigger] seats[e]);
                        let k2 = lemma_offsets_cover(from, len as int, e);
                        assert(!seat_eligible(seats[(from + k2) % (len as int)]));
                    }
                }
                if k > 0 {
                    lemma_mod_step(from + k, len as int);
                }
                lemma_mod_bound(from + k + 1, len as int);
                lemma_mod_bound(from + k, len as int);
                lemma_scan_unfold(seats, from, k + 1);
            }
            i = (i + 1) % len;
            proof {
                k = k + 1;
            }
            if i == seat_index {
                return None;
            }
            match &self.seats[i] {
                Some(p) => {
                    if p.is_active && !p.is_all_in {
                        return Some(i);
                    }
                },
                None => {},
            }
        }
    }
}

impl Table {
    /// Whether the betting round is over: at most one player is still in the
    /// hand, or no player who may still act has yet to act.
    pub fn betting_round_complete(&self) -> (r: bool)
        ensures
            r == round_complete(self@.seats),
    {
        let ghost seats = self@.seats;
        let mut active_cnt: usize = 0;
        let mut has_pending_actor = false;
        let mut i: usize = 0;
        while i < self.seats.len()
            invariant
                seats == self@.seats,
                i <= seats.len(),
                active_cnt == count_active(seats.take(i as int)),
                active_cnt <= i,
                has_pending_actor == exists|j: int| 0 <= j < i && seat_pending(#[trigger] seats[j]),
            decreases seats.len() - i,
        {
            assert(seats.take(i + 1).drop_last() =~= seats.take(i as int));
            match &self.seats[i] {
                Some(p) => {
                    if p.is_active {
                        active_cnt = active_cnt + 1;
                        if !p.is_all_in && !p.has_acted {
                            has_pending_actor = true;
                        }
                    }
                },
                None => {},
            }
            i = i + 1;
        }
        assert(seats.take(seats.len() as int) =~= seats);
        if active_cnt <= 1 {
            return true;
        }
        !has_pending_actor
    }

    /// The player of seat `seat` puts in `amount` chips, or all they have if
    /// that is less, and is then all-in. Returns whether this raised the
    /// highest bet of the round.
    pub fn post_amount(&mut self, seat: usize, amount: u64) -> (r: bool)
        requires
            post_amount_fits(old(self)@, seat as int, amount),
        ensures
            (final(self)@, r) == post_amount_model(old(self)@, seat as int, amount),
    {
        let prev_bet = self.current_bet;
        let ghost m = self@;
        let mut street_bet: u64 = 0;
        match &mut self.seats[seat] {
            Some(player) => {
                let actual = if amount < player.balance { amount } else { player.balance };
                player.balance = player.balance - actual;
                player.street_bet = player.street_bet + actual;
                player.total_bet = player.total_bet + actual;
                self.pot = self.pot + actual;
                player.has_acted = true;
                if player.balance == 0 {
                    player.is_all_in = true;
                }
                street_bet = player.street_bet;
            },
            None => {},
        }
        proof {
            let (m2, _) = post_amount_model(m, seat as int, amount);
            assert(self@.seats =~= m2.seats);
        }
        if street_bet > prev_bet {
            self.current_bet = street_bet;
            self.last_raiser_pos = seat;
            return true;
        }
        false
    }
}

} // verus!
