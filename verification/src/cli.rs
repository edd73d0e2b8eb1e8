use vstd::prelude::*;
use crate::card::AtlasCard;
use crate::chars::{is_space, is_space_char, parse_unsigned, parse_unsigned_chars, chars_of, same_chars, sub_chars};
use crate::ids::new_ulid_string;
use crate::player::{Player, PlayerAct};
use crate::text::{decimal, push_decimal, push_text};

verus! {

// ---------------------------------------------------------------------------
// The commands of the table console.
// ---------------------------------------------------------------------------

/// Which number of a command could not be read.
#[derive(Debug, Clone, Copy, PartialEq, Eq, Structural)]
pub enum CommandFault {
    Seat,
    Balance,
    Amount,
}

/// A line typed at the table console.
#[derive(Debug, Clone, Copy, PartialEq, Eq, Structural)]
pub enum Command {
    Quit,
    Show,
    /// Seat a new player with `balance` chips at `seat`.
    Sit { seat: usize, balance: u64 },
    Start,
    /// Play a scripted hand.
    Quick,
    /// The player on turn acts.
    Act(PlayerAct),
    /// A known command with a number that could not be read.
    Invalid(CommandFault),
    Unknown,
}

/// How many characters at the start of `s` are not whitespace.
pub open spec fn word_len(s: Seq<char>) -> nat
    decreases s.len(),
{
    if s.len() == 0 || is_space(s[0]) {
        0
    } else {
        1 + word_len(s.drop_first())
    }
}

pub proof fn lemma_word_len_bound(s: Seq<char>)
    ensures
        word_len(s) <= s.len(),
    decreases s.len(),
{
    if s.len() > 0 && !is_space(s[0]) {
        lemma_word_len_bound(s.drop_first());
    }
}

/// The words of `s`: its runs of non-whitespace characters, as
/// `str::split_whitespace` gives them.
pub open spec fn words(s: Seq<char>) -> Seq<Seq<char>>
    decreases s.len(),
{
    if s.len() == 0 {
        seq![]
    } else if is_space(s[0]) {
        words(s.drop_first())
    } else {
        let k = word_len(s);
        proof {
            lemma_word_len_bound(s);
        }
        seq![s.subrange(0, k as int)] + words(s.subrange(k as int, s.len() as int))
    }
}

/// The command that the words of a line stand for.
pub open spec fn command_of(w: Seq<Seq<char>>) -> Command {
    if w == seq!["quit"@] {
        Command::Quit
    } else if w == seq!["show"@] {
        Command::Show
    } else if w.len() == 3 && w[0] == "sit"@ {
        match parse_unsigned(w[1], usize::MAX as nat) {
            None => Command::Invalid(CommandFault::Seat),
            Some(seat) => match parse_unsigned(w[2], u64::MAX as nat) {
                None => Command::Invalid(CommandFault::Balance),
                Some(balance) => Command::Sit { seat: seat as usize, balance: balance as u64 },
            },
        }
    } else if w == seq!["start"@] {
        Command::Start
    } else if w == seq!["quick"@] {
        Command::Quick
    } else if w == seq!["act"@, "fold"@] {
        Command::Act(PlayerAct::Fold)
    } else if w == seq!["act"@, "call"@] {
        Command::Act(PlayerAct::Call)
    } else if w == seq!["act"@, "check"@] {
        Command::Act(PlayerAct::Check)
    } else if w.len() == 3 && w[0] == "act"@ && (w[1] == "bet"@ || w[1] == "raise"@) {
        match parse_unsigned(w[2], u64::MAX as nat) {
            None => Command::Invalid(CommandFault::Amount),
            Some(a) => if w[1] == "bet"@ {
                Command::Act(PlayerAct::Bet(a as u64))
            } else {
                Command::Act(PlayerAct::Raise(a as u64))
            },
        }
    } else {
        Command::Unknown
    }
}

proof fn lemma_words_skip_space(s: Seq<char>, i: int)
    requires
        0 <= i < s.len(),
        is_space(s[i]),
    ensures
        words(s.subrange(i, s.len() as int)) == words(s.subrange(i + 1, s.len() as int)),
{
    assert(s.subrange(i, s.len() as int).drop_first() =~= s.subrange(i + 1, s.len() as int));
}

proof fn lemma_word_len_step(s: Seq<char>, i: int, j: int)
    requires
        0 <= i <= j <= s.len(),
        forall|k: int| i <= k < j ==> !is_space(#[trigger] s[k]),
        j == s.len() || is_space(s[j]),
    ensures
        word_len(s.subrange(i, s.len() as int)) == j - i,
    decreases j - i,
{
    if i < j {
        assert(s.subrange(i, s.len() as int).drop_first() =~= s.subrange(i + 1, s.len() as int));
        lemma_word_len_step(s, i + 1, j);
    }
}

/// The words of `v`; see `words`.
pub fn words_chars(v: &[char]) -> (r: Vec<Vec<char>>)
    ensures
        r@.len() == words(v@).len(),
        forall|i: int| 0 <= i < r@.len() ==> #[trigger] r@[i]@ == words(v@)[i],
{
    let n = v.len();
    let mut out: Vec<Vec<char>> = Vec::new();
    let ghost done: Seq<Seq<char>> = seq![];
    let mut i: usize = 0;
    proof {
        assert(v@.subrange(0, n as int) =~= v@);
    }
    while i < n
        invariant
            i <= n,
            n == v@.len(),
            out@.len() == done.len(),
            forall|k: int| 0 <= k < out@.len() ==> #[trigger] out@[k]@ == done[k],
            words(v@) == done + words(v@.subrange(i as int, n as int)),
        decreases n - i,
    {
        if is_space_char(v[i]) {
            proof {
                lemma_words_skip_space(v@, i as int);
            }
            i = i + 1;
        } else {
            let mut j = i;
            while j < n && !is_space_char(v[j])
                invariant
                    i <= j <= n,
                    n == v@.len(),
                    forall|k: int| i <= k < j ==> !is_space(#[trigger] v@[k]),
                decreases n - j,
            {
                j = j + 1;
            }
            let word = sub_chars(v, i, j);
            proof {
                lemma_word_len_step(v@, i as int, j as int);
                let rest = v@.subrange(i as int, n as int);
                assert(rest[0] == v@[i as int]);
                assert(rest.subrange(0, (j - i) as int) =~= v@.subrange(i as int, j as int));
                assert(rest.subrange((j - i) as int, rest.len() as int) =~= v@.subrange(j as int, n as int));
                done = done.push(word@);
                assert(words(v@) =~= done + words(v@.subrange(j as int, n as int)));
            }
            out.push(word);
            i = j;
        }
    }
    proof {
        assert(v@.subrange(n as int, n as int) =~= Seq::<char>::empty());
        assert(words(v@) =~= done);
    }
    out
}

fn is_word(w: &Vec<char>, t: &str) -> (r: bool)
    ensures
        r == (w@ == t@),
{
    same_chars(w.as_slice(), chars_of(t).as_slice())
}

/// Reads a console line; see `command_of`.
pub fn parse_command(line: &str) -> (r: Command)
    ensures
        r == command_of(words(line@)),
{
    let v = chars_of(line);
    let w = words_chars(v.as_slice());
    let ghost ws = words(line@);
    proof {
        assert(ws.len() == w@.len());
    }
    if w.len() == 1 {
        proof {
            assert(ws =~= seq![w@[0]@]);
        }
        if is_word(&w[0], "quit") {
            return Command::Quit;
        } else if is_word(&w[0], "show") {
            return Command::Show;
        } else if is_word(&w[0], "start") {
            return Command::Start;
        } else if is_word(&w[0], "quick") {
            return Command::Quick;
        }
        return Command::Unknown;
    }
    if w.len() == 2 {
        proof {
            assert(ws =~= seq![w@[0]@, w@[1]@]);
        }
        if is_word(&w[0], "act") {
            if is_word(&w[1], "fold") {
                return Command::Act(PlayerAct::Fold);
            } else if is_word(&w[1], "call") {
                return Command::Act(PlayerAct::Call);
            } else if is_word(&w[1], "check") {
                return Command::Act(PlayerAct::Check);
            }
        }
        return Command::Unknown;
    }
    if w.len() == 3 {
        proof {
            assert(ws[0] == w@[0]@);
            assert(ws[1] == w@[1]@);
            assert(ws[2] == w@[2]@);
        }
        if is_word(&w[0], "sit") {
            let seat = match parse_unsigned_chars(w[1].as_slice(), usize::MAX as u64) {
                Some(s) => s as usize,
                None => {
                    return Command::Invalid(CommandFault::Seat);
                },
            };
            let balance = match parse_unsigned_chars(w[2].as_slice(), u64::MAX) {
                Some(b) => b,
                None => {
                    return Command::Invalid(CommandFault::Balance);
                },
            };
            return Command::Sit { seat, balance };
        }
        if is_word(&w[0], "act") {
            let bet = is_word(&w[1], "bet");
            let raise = is_word(&w[1], "raise");
            if bet || raise {
                let amount = match parse_unsigned_chars(w[2].as_slice(), u64::MAX) {
                    Some(a) => a,
                    None => {
                        return Command::Invalid(CommandFault::Amount);
                    },
                };
                if bet {
                    return Command::Act(PlayerAct::Bet(amount));
                }
                return Command::Act(PlayerAct::Raise(amount));
            }
        }
        return Command::Unknown;
    }
    Command::Unknown
}

/// The words of a console line, as the console echoes an unknown command.
pub fn command_words(line: &str) -> (r: Vec<String>)
    ensures
        r@.len() == words(line@).len(),
        forall|i: int| 0 <= i < r@.len() ==> #[trigger] r@[i]@ == words(line@)[i],
{
    let v = chars_of(line);
    let w = words_chars(v.as_slice());
    let mut out: Vec<String> = Vec::new();
    let mut i: usize = 0;
    while i < w.len()
        invariant
            i <= w@.len(),
            w@.len() == words(line@).len(),
            forall|k: int| 0 <= k < w@.len() ==> #[trigger] w@[k]@ == words(line@)[k],
            out@.len() == i,
            forall|k: int| 0 <= k < i ==> #[trigger] out@[k]@ == words(line@)[k],
        decreases w@.len() - i,
    {
        let s = crate::chars::string_of(w[i].as_slice(), 0, w[i].len());
        proof {
            assert(w@[i as int]@.subrange(0, w@[i as int]@.len() as int) =~= w@[i as int]@);
        }
        out.push(s);
        i = i + 1;
    }
    out
}

impl CommandFault {
    /// What the console answers to a number it could not read.
    pub fn message(&self) -> (r: &'static str)
        ensures
            r@ == match *self {
                CommandFault::Seat => "invalid seat"@,
                CommandFault::Balance => "invalid balance"@,
                CommandFault::Amount => "invalid raise amount"@,
            },
    {
        match self {
            CommandFault::Seat => "invalid seat",
            CommandFault::Balance => "invalid balance",
            CommandFault::Amount => "invalid raise amount",
        }
    }
}

/// The player that `sit <seat> <balance>` seats: a fresh id, the nickname
/// `player00<seat>`, and `balance` chips.
pub fn console_player(seat: usize, balance: u64) -> (r: Player)
    ensures
        r.id@.len() == 26,
        r.nickname@ == "player00"@ + decimal(seat as nat),
        r.balance == balance,
        r@.hand_cards == seq![None::<AtlasCard>, None],
        r.cards_str@ == Seq::<char>::empty(),
        r.cards_rank is None,
        !r.sit_out && !r.win && !r.is_active && !r.has_acted && !r.is_all_in,
        r.acted_view@ == Seq::<char>::empty(),
        r.street_bet == 0 && r.total_bet == 0,
{
    let mut nickname = String::new();
    push_text(&mut nickname, "player00");
    push_decimal(&mut nickname, seat as u64);
    proof {
        assert(nickname@ =~= "player00"@ + decimal(seat as nat));
    }
    crate::service::new_seated_player(new_ulid_string(), nickname, balance)
}

} // verus!
