use vstd::prelude::*;
use crate::card::AtlasCard;
use crate::chars::push_char;
use crate::evaluate::{card_text, card_words, flatten_cards};
use crate::player::{Player, PlayerModel};
use crate::rank::HandRank;
use crate::table::{Table, TableModel, TableState, TableStreet};
use crate::text::{decimal, push_decimal, push_text};

verus! {

// ---------------------------------------------------------------------------
// The table as the console shows it.
// ---------------------------------------------------------------------------

/// `n` copies of `c`.
pub open spec fn repeat_char(c: char, n: nat) -> Seq<char> {
    Seq::new(n, |i: int| c)
}

/// `s` right-aligned in a field of `width` characters, as `{:>width}` pads it.
pub open spec fn pad_left(s: Seq<char>, width: nat) -> Seq<char> {
    if s.len() < width {
        repeat_char(' ', (width - s.len()) as nat) + s
    } else {
        s
    }
}

pub open spec fn state_name(s: TableState) -> Seq<char> {
    match s {
        TableState::Waiting => "Waiting"@,
        TableState::Preparing => "Preparing"@,
        TableState::Battling => "Battling"@,
        TableState::Concluding => "Concluding"@,
    }
}

pub open spec fn street_name(s: TableStreet) -> Seq<char> {
    match s {
        TableStreet::PreFlop => "PreFlop"@,
        TableStreet::Flop => "Flop"@,
        TableStreet::Turn => "Turn"@,
        TableStreet::River => "River"@,
    }
}

/// A hand rank as `{:?}` shows it: the category, then its strength in brackets.
pub open spec fn rank_text(r: HandRank) -> Seq<char> {
    match r {
        HandRank::HighCard(v) => "HighCard("@ + decimal(v as nat) + ")"@,
        HandRank::OnePair(v) => "OnePair("@ + decimal(v as nat) + ")"@,
        HandRank::TwoPair(v) => "TwoPair("@ + decimal(v as nat) + ")"@,
        HandRank::ThreeOfAKind(v) => "ThreeOfAKind("@ + decimal(v as nat) + ")"@,
        HandRank::Straight(v) => "Straight("@ + decimal(v as nat) + ")"@,
        HandRank::Flush(v) => "Flush("@ + decimal(v as nat) + ")"@,
        HandRank::FullHouse(v) => "FullHouse("@ + decimal(v as nat) + ")"@,
        HandRank::FourOfAKind(v) => "FourOfAKind("@ + decimal(v as nat) + ")"@,
        HandRank::StraightFlush(v) => "StraightFlush("@ + decimal(v as nat) + ")"@,
    }
}

pub open spec fn rank_option_text(r: Option<HandRank>) -> Seq<char> {
    match r {
        Some(x) => "Some("@ + rank_text(x) + ")"@,
        None => "None"@,
    }
}

/// A hole card slot: the card, or `??`.
pub open spec fn slot_text(c: Option<AtlasCard>) -> Seq<char> {
    match c {
        Some(card) => card_text(card),
        None => "??"@,
    }
}

/// Each shown card followed by two spaces.
pub open spec fn board_text(words: Seq<Seq<char>>) -> Seq<char>
    decreases words.len(),
{
    if words.len() == 0 {
        seq![]
    } else {
        board_text(words.drop_last()) + words.last() + "  "@
    }
}

/// The mark of the seat's role in the hand: dealer, big blind, small blind.
pub open spec fn role_mark(m: TableModel, i: int) -> Seq<char> {
    if m.dealer_pos == i {
        "D"@
    } else if m.big_blind_pos == i {
        "B"@
    } else if m.small_blind_pos == i {
        "S"@
    } else {
        " "@
    }
}

pub open spec fn check_mark(b: bool) -> Seq<char> {
    if b {
        "\u{221a}"@
    } else {
        "\u{d7}"@
    }
}

/// The start of the line of seat `i` taken by `p`: the turn, raiser and
/// role marks, the seat number, the nickname, whether `p` is in the hand and
/// all-in.
pub open spec fn seat_head(m: TableModel, i: int, p: PlayerModel) -> Seq<char> {
    " ["@ + (if m.current_turn == i { "*"@ } else { " "@ }) + "]["@ + (if m.last_raiser_pos == i { "R"@ } else { " "@ }) + "]["@
        + role_mark(m, i) + "]   ["@ + decimal(i as nat) + "]: "@ + p.nickname + " "@ + check_mark(p.is_active) + " ["@ + (
    if p.is_all_in {
        " all-in "@
    } else {
        "        "@
    }) + "]"@
}

/// The chips part of a seat's line: balance, whether acted, round bet.
pub open spec fn seat_chips(p: PlayerModel) -> Seq<char> {
    "  ["@ + pad_left(decimal(p.balance as nat), 6) + "] ["@ + check_mark(p.has_acted) + "] ["@ + pad_left(
        decimal(p.street_bet as nat),
        6,
    ) + "]"@
}

/// The cards part of a seat's line: hole cards, the evaluated cards, whether
/// the player won, and the rank.
pub open spec fn seat_cards(p: PlayerModel) -> Seq<char> {
    "   hand_cards:"@ + slot_text(p.hand_cards[0]) + "  "@ + slot_text(p.hand_cards[1]) + "   merge_cards:"@ + pad_left(
        p.cards_str,
        26,
    ) + "  "@ + (if p.win { "win"@ } else { "   "@ }) + "  rank_cards:"@ + rank_option_text(p.cards_rank) + "\n"@
}

/// The console line of seat `i`.
pub open spec fn seat_line(m: TableModel, i: int) -> Seq<char> {
    match m.seats[i] {
        None => "             ["@ + decimal(i as nat) + "]  ( Empty )\n"@,
        Some(p) => seat_head(m, i, p) + seat_chips(p) + seat_cards(p),
    }
}

/// The console lines of the first `n` seats.
pub open spec fn seats_text(m: TableModel, n: int) -> Seq<char>
    decreases n,
{
    if n <= 0 {
        seq![]
    } else {
        seats_text(m, n - 1) + seat_line(m, n - 1)
    }
}

/// The table as the console shows it: a header with the ids, phase, pot,
/// bets, blinds and positions; the board; a line per seat; and the list of
/// console commands.
pub open spec fn table_text(m: TableModel) -> Seq<char> {
    "\n"@ + repeat_char('=', 80) + "\n"@
        + "TABLE ID: "@ + m.id + " | HAND ID: "@ + m.hand_id + "\n"@
        + "STATE: "@ + state_name(m.state) + " | STREET: "@ + street_name(m.street) + "\n"@
        + "TABLE ID: "@ + m.id + " | STATE: "@ + state_name(m.state) + " | street: "@ + street_name(m.street) + "\n"@
        + "POT: $"@ + decimal(m.pot as nat) + " | CURRENT BET:$"@ + decimal(m.current_bet as nat) + " | BLIND_AMOUNT :$("@
        + decimal(m.small_blind_amount as nat) + "/"@ + decimal(m.big_blind_amount as nat) + ")\n"@
        + "DEALER_POS: "@ + decimal(m.dealer_pos as nat) + " | SMALL_BLIND_POS BET: "@ + decimal(m.small_blind_pos as nat)
        + " | BIG_BLIND_POS BET: "@ + decimal(m.big_blind_pos as nat) + " | CURRENT_TURN_POS: "@ + decimal(m.current_turn as nat)
        + " | LAST_RAISER_POS: "@ + decimal(m.last_raiser_pos as nat) + "\n"@
        + repeat_char('-', 80) + "\n"@
        + "Community Cards: "@ + board_text(card_words(flatten_cards(m.community_cards))) + "\n"@
        + repeat_char('-', 80) + "\n"@
        + seats_text(m, m.seats.len() as int)
        + repeat_char('=', 80) + "\n"@
        + "command: \n"@
        + "         [ 1)show; 2)quit; 3)sit <seat> <balance> 4)leave <seat>; 5)start; 6)quick; ]\n"@
        + "         [ 5)act <check> <fold> <call> <bet amount> <raise amount>;]\n"@
}

fn push_repeat(s: &mut String, c: char, n: usize)
    ensures
        final(s)@ == old(s)@ + repeat_char(c, n as nat),
{
    let ghost start = s@;
    let mut i: usize = 0;
    while i < n
        invariant
            i <= n,
            s@ == start + repeat_char(c, i as nat),
        decreases n - i,
    {
        push_char(s, c);
        i = i + 1;
        proof {
            assert(s@ =~= start + repeat_char(c, i as nat));
        }
    }
}

/// Appends `t` right-aligned in `width` characters.
fn push_padded(s: &mut String, t: &String, width: usize)
    ensures
        final(s)@ == old(s)@ + pad_left(t@, width as nat),
{
    let n = crate::chars::chars_of(t.as_str()).len();
    if n < width {
        push_repeat(s, ' ', width - n);
    }
    push_text(s, t.as_str());
    proof {
        assert(s@ =~= old(s)@ + pad_left(t@, width as nat));
    }
}

fn decimal_text(n: u64) -> (r: String)
    ensures
        r@ == decimal(n as nat),
{
    let mut t = String::new();
    push_decimal(&mut t, n);
    proof {
        assert(t@ =~= decimal(n as nat));
    }
    t
}

fn push_state(s: &mut String, st: TableState)
    ensures
        final(s)@ == old(s)@ + state_name(st),
{
    match st {
        TableState::Waiting => push_text(s, "Waiting"),
        TableState::Preparing => push_text(s, "Preparing"),
        TableState::Battling => push_text(s, "Battling"),
        TableState::Concluding => push_text(s, "Concluding"),
    }
}

fn push_street(s: &mut String, st: TableStreet)
    ensures
        final(s)@ == old(s)@ + street_name(st),
{
    match st {
        TableStreet::PreFlop => push_text(s, "PreFlop"),
        TableStreet::Flop => push_text(s, "Flop"),
        TableStreet::Turn => push_text(s, "Turn"),
        TableStreet::River => push_text(s, "River"),
    }
}

fn push_rank(s: &mut String, r: Option<HandRank>)
    ensures
        final(s)@ == old(s)@ + rank_option_text(r),
{
    match r {
        None => push_text(s, "None"),
        Some(x) => {
            push_text(s, "Some(");
            let v = match x {
                HandRank::HighCard(v) => {
                    push_text(s, "HighCard(");
                    v
                },
                HandRank::OnePair(v) => {
                    push_text(s, "OnePair(");
                    v
                },
                HandRank::TwoPair(v) => {
                    push_text(s, "TwoPair(");
                    v
                },
                HandRank::ThreeOfAKind(v) => {
                    push_text(s, "ThreeOfAKind(");
                    v
                },
                HandRank::Straight(v) => {
                    push_text(s, "Straight(");
                    v
                },
                HandRank::Flush(v) => {
                    push_text(s, "Flush(");
                    v
                },
                HandRank::FullHouse(v) => {
                    push_text(s, "FullHouse(");
                    v
                },
                HandRank::FourOfAKind(v) => {
                    push_text(s, "FourOfAKind(");
                    v
                },
                HandRank::StraightFlush(v) => {
                    push_text(s, "StraightFlush(");
                    v
                },
            };
            push_decimal(s, v as u64);
            push_text(s, ")");
            push_text(s, ")");
            proof {
                assert(s@ =~= old(s)@ + rank_option_text(r));
            }
        },
    }
}

fn push_slot(s: &mut String, c: Option<AtlasCard>)
    ensures
        final(s)@ == old(s)@ + slot_text(c),
{
    match c {
        Some(card) => {
            let t = card.text();
            push_text(s, t.as_str());
        },
        None => push_text(s, "??"),
    }
}

fn push_check(s: &mut String, b: bool)
    ensures
        final(s)@ == old(s)@ + check_mark(b),
{
    if b {
        push_text(s, "\u{221a}");
    } else {
        push_text(s, "\u{d7}");
    }
}

/// `text` where `b` holds, a space elsewhere.
/// Appends the turn, raiser and role marks of a seat's line.
fn push_marks(s: &mut String, turn: &str, raiser: &str, role: &str)
    ensures
        final(s)@ == old(s)@ + (" ["@ + turn@ + "]["@ + raiser@ + "]["@ + role@ + "]   ["@),
{
    push_text(s, " [");
    push_text(s, turn);
    push_text(s, "][");
    push_text(s, raiser);
    push_text(s, "][");
    push_text(s, role);
    push_text(s, "]   [");
    assert(s@ =~= old(s)@ + (" ["@ + turn@ + "]["@ + raiser@ + "]["@ + role@ + "]   ["@));
}

/// Appends a seat's number, its player's nickname, whether they are in the
/// hand and whether all-in.
fn push_seat_name(s: &mut String, i: usize, p: &Player)
    ensures
        final(s)@ == old(s)@ + (decimal(i as nat) + "]: "@ + p.nickname@ + " "@ + check_mark(p.is_active) + " ["@ + (
        if p.is_all_in {
            " all-in "@
        } else {
            "        "@
        }) + "]"@),
{
    let all_in = if p.is_all_in { " all-in " } else { "        " };
    let ghost s0 = s@;
    push_decimal(s, i as u64);
    push_text(s, "]: ");
    push_text(s, p.nickname.as_str());
    push_text(s, " ");
    let ghost s1 = s@;
    assert(s1 =~= s0 + (decimal(i as nat) + "]: "@ + p.nickname@ + " "@));
    push_check(s, p.is_active);
    push_text(s, " [");
    push_text(s, all_in);
    push_text(s, "]");
    assert(s@ =~= s1 + (check_mark(p.is_active) + " ["@ + all_in@ + "]"@));
    assert(s@ =~= old(s)@ + (decimal(i as nat) + "]: "@ + p.nickname@ + " "@ + check_mark(p.is_active) + " ["@ + all_in@ + "]"@));
}

fn mark(b: bool, text: &'static str) -> (r: &'static str)
    ensures
        r@ == if b { text@ } else { " "@ },
{
    if b {
        text
    } else {
        " "
    }
}

fn push_seat_chips(s: &mut String, p: &Player)
    ensures
        final(s)@ == old(s)@ + seat_chips(p@),
{
    push_text(s, "  [");
    push_padded(s, &decimal_text(p.balance), 6);
    push_text(s, "] [");
    push_check(s, p.has_acted);
    push_text(s, "] [");
    push_padded(s, &decimal_text(p.street_bet), 6);
    push_text(s, "]");
    proof {
        assert(s@ =~= old(s)@ + seat_chips(p@));
    }
}

fn push_seat_cards(s: &mut String, p: &Player)
    ensures
        final(s)@ == old(s)@ + seat_cards(p@),
{
    push_text(s, "   hand_cards:");
    push_slot(s, p.hand_cards[0]);
    push_text(s, "  ");
    push_slot(s, p.hand_cards[1]);
    push_text(s, "   merge_cards:");
    push_padded(s, &p.cards_str, 26);
    push_text(s, "  ");
    push_text(s, if p.win { "win" } else { "   " });
    push_text(s, "  rank_cards:");
    push_rank(s, p.cards_rank);
    push_text(s, "\n");
    proof {
        assert(s@ =~= old(s)@ + seat_cards(p@));
    }
}

impl Table {
    fn role_mark_text(&self, i: usize) -> (r: &'static str)
        ensures
            r@ == role_mark(self@, i as int),
    {
        if self.dealer_pos == i {
            "D"
        } else if self.big_blind_pos == i {
            "B"
        } else if self.small_blind_pos == i {
            "S"
        } else {
            " "
        }
    }

    fn push_board(&self, s: &mut String)
        ensures
            final(s)@ == old(s)@ + board_text(card_words(flatten_cards(self@.community_cards))),
    {
        let ghost start = s@;
        let cards = self.community_cards;
        let mut i: usize = 0;
        while i < 5
            invariant
                i <= 5,
                cards@ == self@.community_cards,
                s@ == start + board_text(card_words(flatten_cards(cards@.take(i as int)))),
            decreases 5 - i,
        {
            proof {
                assert(cards@.take(i + 1).drop_last() =~= cards@.take(i as int));
            }
            match cards[i] {
                Some(c) => {
                    let t = c.text();
                    push_text(s, t.as_str());
                    push_text(s, "  ");
                    proof {
                        let f = flatten_cards(cards@.take(i as int));
                        assert(flatten_cards(cards@.take(i + 1)) == f.push(c));
                        assert(card_words(f.push(c)) =~= card_words(f).push(card_text(c)));
                        assert(card_words(f.push(c)).drop_last() =~= card_words(f));
                        assert(s@ =~= start + board_text(card_words(flatten_cards(cards@.take(i + 1)))));
                    }
                },
                None => {
                    proof {
                        assert(flatten_cards(cards@.take(i + 1)) == flatten_cards(cards@.take(i as int)));
                    }
                },
            }
            i = i + 1;
        }
        proof {
            assert(cards@.take(5) =~= cards@);
        }
    }

    fn push_seat_head(&self, s: &mut String, i: usize, p: &Player)
        ensures
            final(s)@ == old(s)@ + seat_head(self@, i as int, p@),
    {
        let turn = mark(self.current_turn == i, "*");
        let raiser = mark(self.last_raiser_pos == i, "R");
        let role = self.role_mark_text(i);
        let ghost m = self@;
        let ghost s0 = s@;
        push_marks(s, turn, raiser, role);
        let ghost s1 = s@;
        push_seat_name(s, i, p);
        proof {
            let a = " ["@ + turn@ + "]["@ + raiser@ + "]["@ + role@ + "]   ["@;
            let b = decimal(i as nat) + "]: "@ + p.nickname@ + " "@ + check_mark(p.is_active) + " ["@ + (if p.is_all_in {
                " all-in "@
            } else {
                "        "@
            }) + "]"@;
            assert(s1 == s0 + a);
            assert(s@ == s1 + b);
            assert(seat_head(m, i as int, p@) =~= a + b);
            assert(s@ =~= s0 + (a + b));
        }
    }

    fn push_seat_line(&self, s: &mut String, i: usize)
        requires
            i < self@.seats.len(),
        ensures
            final(s)@ == old(s)@ + seat_line(self@, i as int),
    {
        let ghost m = self@;
        match &self.seats[i] {
            None => {
                push_text(s, "             [");
                push_decimal(s, i as u64);
                push_text(s, "]  ( Empty )\n");
                proof {
                    assert(m.seats[i as int] is None);
                    assert(s@ =~= old(s)@ + seat_line(m, i as int));
                }
            },
            Some(p) => {
                let ghost s0 = s@;
                self.push_seat_head(s, i, p);
                let ghost s1 = s@;
                push_seat_chips(s, p);
                let ghost s2 = s@;
                push_seat_cards(s, p);
                proof {
                    assert(m.seats[i as int] == Some(p@));
                    assert(s@ =~= s0 + (seat_head(m, i as int, p@) + seat_chips(p@) + seat_cards(p@)));
                }
            },
        }
    }

    /// The table as the console shows it; see `table_text`.
    pub fn render(&self) -> (r: String)
        ensures
            r@ == table_text(self@),
    {
        let ghost m = self@;
        let mut s = String::new();
        push_text(&mut s, "\n");
        push_repeat(&mut s, '=', 80);
        push_text(&mut s, "\n");
        push_text(&mut s, "TABLE ID: ");
        push_text(&mut s, self.id.as_str());
        push_text(&mut s, " | HAND ID: ");
        push_text(&mut s, self.hand_id.as_str());
        push_text(&mut s, "\n");
        push_text(&mut s, "STATE: ");
        push_state(&mut s, self.state);
        push_text(&mut s, " | STREET: ");
        push_street(&mut s, self.street);
        push_text(&mut s, "\n");
        push_text(&mut s, "TABLE ID: ");
        push_text(&mut s, self.id.as_str());
        push_text(&mut s, " | STATE: ");
        push_state(&mut s, self.state);
        push_text(&mut s, " | street: ");
        push_street(&mut s, self.street);
        push_text(&mut s, "\n");
        push_text(&mut s, "POT: $");
        push_decimal(&mut s, self.pot);
        push_text(&mut s, " | CURRENT BET:$");
        push_decimal(&mut s, self.current_bet);
        push_text(&mut s, " | BLIND_AMOUNT :$(");
        push_decimal(&mut s, self.small_blind_amount);
        push_text(&mut s, "/");
        push_decimal(&mut s, self.big_blind_amount);
        push_text(&mut s, ")\n");
        push_text(&mut s, "DEALER_POS: ");
        push_decimal(&mut s, self.dealer_pos as u64);
        push_text(&mut s, " | SMALL_BLIND_POS BET: ");
        push_decimal(&mut s, self.small_blind_pos as u64);
        push_text(&mut s, " | BIG_BLIND_POS BET: ");
        push_decimal(&mut s, self.big_blind_pos as u64);
        push_text(&mut s, " | CURRENT_TURN_POS: ");
        push_decimal(&mut s, self.current_turn as u64);
        push_text(&mut s, " | LAST_RAISER_POS: ");
        push_decimal(&mut s, self.last_raiser_pos as u64);
        push_text(&mut s, "\n");
        push_repeat(&mut s, '-', 80);
        push_text(&mut s, "\n");
        push_text(&mut s, "Community Cards: ");
        self.push_board(&mut s);
        push_text(&mut s, "\n");
        push_repeat(&mut s, '-', 80);
        push_text(&mut s, "\n");
        let ghost head = s@;
        let mut i: usize = 0;
        while i < self.seats.len()
            invariant
                i <= m.seats.len(),
                m == self@,
                s@ == head + seats_text(m, i as int),
            decreases m.seats.len() - i,
        {
            self.push_seat_line(&mut s, i);
            i = i + 1;
            proof {
                assert(s@ =~= head + seats_text(m, i as int));
            }
        }
        push_repeat(&mut s, '=', 80);
        push_text(&mut s, "\n");
        push_text(&mut s, "command: \n");
        push_text(&mut s, "         [ 1)show; 2)quit; 3)sit <seat> <balance> 4)leave <seat>; 5)start; 6)quick; ]\n");
        push_text(&mut s, "         [ 5)act <check> <fold> <call> <bet amount> <raise amount>;]\n");
        proof {
            assert(s@ =~= table_text(m));
        }
        s
    }
}

} // verus!
