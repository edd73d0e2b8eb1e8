use vstd::prelude::*;
use crate::chars::push_char;

verus! {

/// The character of a digit below ten.
pub open spec fn digit_char(d: nat) -> char {
    (48 + d) as char
}

/// `n` written in decimal, as `{}` prints an unsigned integer.
pub open spec fn decimal(n: nat) -> Seq<char>
    decreases n,
{
    if n < 10 {
        seq![digit_char(n)]
    } else {
        decimal(n / 10).push(digit_char(n % 10))
    }
}

/// The `k` lowest bits of `n`, most significant first.
pub open spec fn binary_digits(n: nat, k: nat) -> Seq<char>
    decreases k,
{
    if k == 0 {
        seq![]
    } else {
        binary_digits(n / 2, (k - 1) as nat).push(digit_char(n % 2))
    }
}

/// A byte as `{:#010b}` prints it: `0b` and its eight bits.
pub open spec fn byte_binary(b: u8) -> Seq<char> {
    "0b"@ + binary_digits(b as nat, 8)
}

/// The message of a buffer shorter than a header.
pub(crate) fn too_small_message(need: usize, got: usize) -> (s: String)
    ensures
        s@ == "buffer too small: need "@ + decimal(need as nat) + ", got "@ + decimal(got as nat),
{
    let mut s = String::new();
    push_text(&mut s, "buffer too small: need ");
    push_decimal(&mut s, need as u64);
    push_text(&mut s, ", got ");
    push_decimal(&mut s, got as u64);
    s
}

/// Appends the `k` lowest bits of `n`, most significant first.
fn push_binary(s: &mut String, n: u8, k: u32)
    requires
        k <= 8,
    ensures
        final(s)@ == old(s)@ + binary_digits(n as nat, k as nat),
    decreases k,
{
    if k > 0 {
        push_binary(s, n / 2, k - 1);
        let c = ((48 + n % 2) as u8) as char;
        assert(c == digit_char((n % 2) as nat));
        push_char(s, c);
        assert(s@ =~= old(s)@ + binary_digits(n as nat, k as nat));
    }
}

/// The message of an unknown kind byte, which `{:#010b}` prints as `0b` and
/// its eight bits.
pub(crate) fn invalid_kind_message(b: u8) -> (s: String)
    ensures
        s@ == "invalid AtlasWireKind: "@ + byte_binary(b),
{
    let mut s = String::new();
    push_text(&mut s, "invalid AtlasWireKind: 0b");
    push_binary(&mut s, b, 8);
    proof {
        reveal_strlit("invalid AtlasWireKind: 0b");
        reveal_strlit("invalid AtlasWireKind: ");
        reveal_strlit("0b");
    }
    assert(s@ =~= "invalid AtlasWireKind: "@ + byte_binary(b));
    s
}

/// The message of a refused buy-in.
pub(crate) fn buy_in_message(actual: u64, min: u64, max: u64) -> (s: String)
    ensures
        s@ == "buy-in "@ + decimal(actual as nat) + " not in allowed range ("@ + decimal(min as nat) + " - "@ + decimal(
            max as nat,
        ) + ")"@,
{
    let mut s = String::new();
    push_text(&mut s, "buy-in ");
    push_decimal(&mut s, actual);
    push_text(&mut s, " not in allowed range (");
    push_decimal(&mut s, min);
    push_text(&mut s, " - ");
    push_decimal(&mut s, max);
    push_text(&mut s, ")");
    s
}

/// Appends `n` written in decimal.
pub fn push_decimal(s: &mut String, n: u64)
    ensures
        final(s)@ == old(s)@ + decimal(n as nat),
    decreases n,
{
    if n < 10 {
        let c = ((48 + n) as u8) as char;
        assert(c == digit_char(n as nat));
        push_char(s, c);
        assert(s@ =~= old(s)@ + decimal(n as nat));
    } else {
        push_decimal(s, n / 10);
        let c = ((48 + n % 10) as u8) as char;
        assert(c == digit_char((n % 10) as nat));
        push_char(s, c);
        assert(s@ =~= old(s)@ + decimal(n as nat));
    }
}

/// Appends `t`.
pub fn push_text(s: &mut String, t: &str)
    ensures
        final(s)@ == old(s)@ + t@,
{
    s.append(t);
}

} // verus!
