use vstd::prelude::*;
use crate::wire::be_value;

verus! {

/// The 32 digits of Crockford's base32, as ULID texts use them.
pub open spec fn crockford_digits() -> Seq<char> {
    seq!['0', '1', '2', '3', '4', '5', '6', '7', '8', '9', 'A', 'B', 'C', 'D', 'E', 'F', 'G', 'H', 'J', 'K', 'M', 'N', 'P',
        'Q', 'R', 'S', 'T', 'V', 'W', 'X', 'Y', 'Z']
}

/// The `k` lowest base-32 digits of `n`, most significant first.
pub open spec fn base32_digits(n: nat, k: nat) -> Seq<char>
    decreases k,
{
    if k == 0 {
        seq![]
    } else {
        base32_digits(n / 32, (k - 1) as nat).push(crockford_digits()[(n % 32) as int])
    }
}

/// The ULID text of 16 id bytes: the 26 lowest base-32 digits of the number
/// that the bytes spell in big-endian order.
pub open spec fn ulid_text(bytes: Seq<u8>) -> Seq<char> {
    base32_digits(be_value(bytes), 26)
}

/// A fresh id: `ulid::Ulid::new()` written with `Ulid::to_string`. The
/// contract claims that it is 26 digits of Crockford's base32; which digits
/// depends on the clock and on chance.
#[verifier::external_body]
pub(crate) fn new_ulid_string() -> (s: String)
    ensures
        s@.len() == 26,
        forall|i: int| 0 <= i < s@.len() ==> crockford_digits().contains(#[trigger] s@[i]),
{
    ulid::Ulid::new().to_string()
}

/// The ULID text of the id bytes `bytes`, with `ulid::Ulid::from_bytes`
/// (the big-endian number of the bytes) and `Ulid::to_string` (its 26 lowest
/// base-32 digits).
#[verifier::external_body]
pub(crate) fn ulid_string_of(bytes: [u8; 16]) -> (s: String)
    ensures
        s@ == ulid_text(bytes@),
        s@.len() == 26,
{
    ulid::Ulid::from_bytes(bytes).to_string()
}

} // verus!
