use vstd::prelude::*;
use crate::text::{decimal, byte_binary, too_small_message, invalid_kind_message, buy_in_message};
use crate::table::TableError;

verus! {

/// The kind of an RPC packet, sent as a one-bit flag byte.
#[derive(Debug, Clone, Copy, PartialEq, Eq, Structural)]
pub enum AtlasWireKind {
    Request,
    ResponseOk,
    ResponseErr,
    Notify,
}

/// The byte that stands for a kind on the wire.
pub open spec fn kind_byte(k: AtlasWireKind) -> u8 {
    match k {
        AtlasWireKind::Request => 1,
        AtlasWireKind::ResponseOk => 2,
        AtlasWireKind::ResponseErr => 4,
        AtlasWireKind::Notify => 8,
    }
}

/// The kind a byte stands for, if any.
pub open spec fn kind_of_byte(b: u8) -> Option<AtlasWireKind> {
    if b == 1 {
        Some(AtlasWireKind::Request)
    } else if b == 2 {
        Some(AtlasWireKind::ResponseOk)
    } else if b == 4 {
        Some(AtlasWireKind::ResponseErr)
    } else if b == 8 {
        Some(AtlasWireKind::Notify)
    } else {
        None
    }
}

/// Each kind is read back from its byte.
pub proof fn lemma_kind_byte_roundtrip(k: AtlasWireKind)
    ensures
        kind_of_byte(kind_byte(k)) == Some(k),
{
}

impl AtlasWireKind {
    /// The byte that stands for this kind on the wire.
    pub fn as_u8(&self) -> (r: u8)
        ensures
            r == kind_byte(*self),
    {
        match self {
            AtlasWireKind::Request => 1,
            AtlasWireKind::ResponseOk => 2,
            AtlasWireKind::ResponseErr => 4,
            AtlasWireKind::Notify => 8,
        }
    }
}

/// The fixed header in front of every RPC packet.
#[derive(Debug, Clone, Copy, PartialEq, Eq, Structural)]
pub struct AtlasWireHeader {
    pub id: u64,
    pub slot_index: u32,
    pub method: u32,
    pub kind: AtlasWireKind,
}

/// The unsigned number that `bytes` spell in big-endian order.
pub open spec fn be_value(bytes: Seq<u8>) -> nat
    decreases bytes.len(),
{
    if bytes.len() == 0 {
        0
    } else {
        (be_value(bytes.drop_last()) * 256 + bytes.last()) as nat
    }
}

/// Reads a big-endian `u64` at `at` with `bytes::Buf::get_u64` on a slice.
#[verifier::external_body]
fn get_u64_at(buf: &[u8], at: usize) -> (r: u64)
    requires
        at + 8 <= buf@.len(),
    ensures
        r == be_value(buf@.subrange(at as int, at + 8)),
{
    let mut p = &buf[at..];
    bytes::Buf::get_u64(&mut p)
}

/// Reads a big-endian `u32` at `at` with `bytes::Buf::get_u32` on a slice.
#[verifier::external_body]
fn get_u32_at(buf: &[u8], at: usize) -> (r: u32)
    requires
        at + 4 <= buf@.len(),
    ensures
        r == be_value(buf@.subrange(at as int, at + 4)),
{
    let mut p = &buf[at..];
    bytes::Buf::get_u32(&mut p)
}

/// Reads the byte at `at` with `bytes::Buf::get_u8` on a slice.
#[verifier::external_body]
fn get_u8_at(buf: &[u8], at: usize) -> (r: u8)
    requires
        at + 1 <= buf@.len(),
    ensures
        r == buf@[at as int],
{
    let mut p = &buf[at..];
    bytes::Buf::get_u8(&mut p)
}

/// Length of a header on the wire.
pub const WIRE_LEN: usize = 17;

/// The header that a buffer starts with: id (8 bytes), slot index (4),
/// method (4), all big-endian, and the kind byte; or why it is not one.
pub open spec fn parse_wire_header(buf: Seq<u8>) -> Result<AtlasWireHeader, Seq<char>> {
    if buf.len() < 17 {
        Err("buffer too small: need "@ + decimal(17) + ", got "@ + decimal(buf.len()))
    } else {
        match kind_of_byte(buf[16]) {
            None => Err("invalid AtlasWireKind: "@ + byte_binary(buf[16])),
            Some(kind) => Ok(AtlasWireHeader {
                id: be_value(buf.subrange(0, 8)) as u64,
                slot_index: be_value(buf.subrange(8, 12)) as u32,
                method: be_value(buf.subrange(12, 16)) as u32,
                kind,
            }),
        }
    }
}

impl AtlasWireHeader {
    /// Reads the header at the start of `buf`; see `parse_wire_header`.
    pub fn read_wire_header(buf: &[u8]) -> (r: Result<Self, String>)
        ensures
            match (r, parse_wire_header(buf@)) {
                (Ok(h), Ok(h2)) => h == h2,
                (Err(e), Err(e2)) => e@ == e2,
                _ => false,
            },
    {
        if buf.len() < WIRE_LEN {
            return Err(too_small_message(WIRE_LEN, buf.len()));
        }
        let id = get_u64_at(buf, 0);
        let slot_index = get_u32_at(buf, 8);
        let method = get_u32_at(buf, 12);
        let kind_u8 = get_u8_at(buf, 16);
        let kind = if kind_u8 == 1 {
            AtlasWireKind::Request
        } else if kind_u8 == 2 {
            AtlasWireKind::ResponseOk
        } else if kind_u8 == 4 {
            AtlasWireKind::ResponseErr
        } else if kind_u8 == 8 {
            AtlasWireKind::Notify
        } else {
            return Err(invalid_kind_message(kind_u8));
        };
        Ok(AtlasWireHeader { id, slot_index, method, kind })
    }
}

/// 256 to the power `n`: how many values `n` bytes hold.
pub open spec fn byte_range(n: nat) -> nat
    decreases n,
{
    if n == 0 {
        1
    } else {
        256 * byte_range((n - 1) as nat)
    }
}

/// The `n` lowest bytes of `x`, most significant first.
pub open spec fn be_bytes(x: nat, n: nat) -> Seq<u8>
    decreases n,
{
    if n == 0 {
        seq![]
    } else {
        be_bytes(x / 256, (n - 1) as nat).push((x % 256) as u8)
    }
}

/// Writing a number in `n` bytes and reading them back gives the number,
/// when it fits.
pub proof fn lemma_be_roundtrip(x: nat, n: nat)
    requires
        x < byte_range(n),
    ensures
        be_bytes(x, n).len() == n,
        be_value(be_bytes(x, n)) == x,
    decreases n,
{
    if n > 0 {
        let r = byte_range((n - 1) as nat);
        assert(x / 256 < r) by (nonlinear_arith)
            requires
                x < 256 * r,
        ;
        lemma_be_roundtrip(x / 256, (n - 1) as nat);
        let b = be_bytes(x, n);
        assert(b.drop_last() =~= be_bytes(x / 256, (n - 1) as nat));
    } else {
        assert(x == 0);
    }
}

/// A header as it is sent: id (8 bytes), slot index (4), method (4), all
/// big-endian, then the kind byte.
pub open spec fn wire_bytes(h: AtlasWireHeader) -> Seq<u8> {
    be_bytes(h.id as nat, 8) + be_bytes(h.slot_index as nat, 4) + be_bytes(h.method as nat, 4) + seq![kind_byte(h.kind)]
}

/// Reading a written header gives it back.
pub proof fn lemma_wire_roundtrip(h: AtlasWireHeader)
    ensures
        parse_wire_header(wire_bytes(h)) == Ok::<AtlasWireHeader, Seq<char>>(h),
{
    reveal_with_fuel(byte_range, 9);
    assert(byte_range(8) == 0x1_0000_0000_0000_0000);
    assert(byte_range(4) == 0x1_0000_0000);
    lemma_be_roundtrip(h.id as nat, 8);
    lemma_be_roundtrip(h.slot_index as nat, 4);
    lemma_be_roundtrip(h.method as nat, 4);
    let a = be_bytes(h.id as nat, 8);
    let b = be_bytes(h.slot_index as nat, 4);
    let c = be_bytes(h.method as nat, 4);
    let w = wire_bytes(h);
    assert(w.subrange(0, 8) =~= a);
    assert(w.subrange(8, 12) =~= b);
    assert(w.subrange(12, 16) =~= c);
    assert(w[16] == kind_byte(h.kind));
    lemma_kind_byte_roundtrip(h.kind);
}

fn push_be(v: &mut Vec<u8>, x: u64, n: usize)
    ensures
        final(v)@ == old(v)@ + be_bytes(x as nat, n as nat),
    decreases n,
{
    if n > 0 {
        push_be(v, x / 256, n - 1);
        v.push((x % 256) as u8);
        proof {
            assert(v@ =~= old(v)@ + be_bytes(x as nat, n as nat));
        }
    } else {
        proof {
            assert(v@ =~= old(v)@ + be_bytes(x as nat, n as nat));
        }
    }
}

impl AtlasWireHeader {
    /// The header as it is sent; see `wire_bytes`.
    pub fn to_wire_bytes(&self) -> (r: Vec<u8>)
        ensures
            r@ == wire_bytes(*self),
    {
        let mut v: Vec<u8> = Vec::new();
        push_be(&mut v, self.id, 8);
        push_be(&mut v, self.slot_index as u64, 4);
        push_be(&mut v, self.method as u64, 4);
        v.push(self.kind.as_u8());
        proof {
            assert(v@ =~= wire_bytes(*self));
        }
        v
    }
}

/// An error as the RPC layer sends it to a client.
#[derive(Debug)]
pub struct AtlasWireError {
    pub code: u32,
    pub message: String,
    /// Named numbers that detail the error, if any.
    pub data: Option<Vec<(String, u64)>>,
}

/// The code of each table error on the wire.
pub open spec fn table_error_code(e: TableError) -> u32 {
    match e {
        TableError::InvalidSeat => 10001,
        TableError::SeatOccupied => 10002,
        TableError::AlreadySeated => 10003,
        TableError::PlayerNotAtTable => 10004,
        TableError::InvalidState => 10005,
        TableError::NotEnoughPlayers => 10006,
        TableError::InvalidAction => 10007,
        TableError::InvalidBuyIn { .. } => 10008,
    }
}

/// The message of each table error on the wire.
pub open spec fn table_error_message(e: TableError) -> Seq<char> {
    match e {
        TableError::InvalidSeat => "invalid seat index"@,
        TableError::SeatOccupied => "seat already occupied"@,
        TableError::AlreadySeated => "player already seated"@,
        TableError::PlayerNotAtTable => "player not at seated"@,
        TableError::InvalidState => "operation not allowed in current table state"@,
        TableError::NotEnoughPlayers => "not enough players to start game"@,
        TableError::InvalidAction => "invalid action for current betting state"@,
        TableError::InvalidBuyIn { min, max, actual } => "buy-in "@ + decimal(actual as nat) + " not in allowed range ("@
            + decimal(min as nat) + " - "@ + decimal(max as nat) + ")"@,
    }
}

pub open spec fn data_model(d: Option<Vec<(String, u64)>>) -> Option<Seq<(Seq<char>, u64)>> {
    match d {
        Some(v) => Some(Seq::new(v@.len(), |i: int| (v@[i].0@, v@[i].1))),
        None => None,
    }
}

impl AtlasWireError {
    /// The wire form of a table error: its code and message; a refused buy-in
    /// also carries `min`, `max` and `actual`.
    pub fn from_table_error(e: TableError) -> (r: AtlasWireError)
        ensures
            r.code == table_error_code(e),
            r.message@ == table_error_message(e),
            e matches TableError::InvalidBuyIn { min, max, actual } ==> data_model(r.data) == Some(
                seq![("min"@, min), ("max"@, max), ("actual"@, actual)],
            ),
            !(e is InvalidBuyIn) ==> r.data is None,
    {
        match e {
            TableError::InvalidSeat => AtlasWireError { code: 10001, message: "invalid seat index".to_owned(), data: None },
            TableError::SeatOccupied => AtlasWireError { code: 10002, message: "seat already occupied".to_owned(), data: None },
            TableError::AlreadySeated => AtlasWireError { code: 10003, message: "player already seated".to_owned(), data: None },
            TableError::PlayerNotAtTable => AtlasWireError { code: 10004, message: "player not at seated".to_owned(), data: None },
            TableError::InvalidState => AtlasWireError {
                code: 10005,
                message: "operation not allowed in current table state".to_owned(),
                data: None,
            },
            TableError::NotEnoughPlayers => AtlasWireError {
                code: 10006,
                message: "not enough players to start game".to_owned(),
                data: None,
            },
            TableError::InvalidAction => AtlasWireError {
                code: 10007,
                message: "invalid action for current betting state".to_owned(),
                data: None,
            },
            TableError::InvalidBuyIn { min, max, actual } => {
                let mut data: Vec<(String, u64)> = Vec::new();
                data.push(("min".to_owned(), min));
                data.push(("max".to_owned(), max));
                data.push(("actual".to_owned(), actual));
                proof {
                    assert(data_model(Some(data))->0 =~= seq![("min"@, min), ("max"@, max), ("actual"@, actual)]);
                }
                AtlasWireError { code: 10008, message: buy_in_message(actual, min, max), data: Some(data) }
            },
        }
    }
}

/// The RPC server: the address it listens on and the function that answers
/// each request.
pub struct AtlasNetServer<DispatchFn> {
    addr: String,
    dispatch_fn: DispatchFn,
}

impl<DispatchFn> AtlasNetServer<DispatchFn> {
    /// A server for `addr` that answers with `dispatch_fn`.
    pub fn new(addr: String, dispatch_fn: DispatchFn) -> (r: Self)
        ensures
            r.addr() == addr@,
            r.dispatch() == dispatch_fn,
    {
        Self { addr, dispatch_fn }
    }

    pub closed spec fn addr(&self) -> Seq<char> {
        self.addr@
    }

    pub closed spec fn dispatch(&self) -> DispatchFn {
        self.dispatch_fn
    }

    /// The address to listen on.
    pub fn address(&self) -> (r: &str)
        ensures
            r@ == self.addr(),
    {
        self.addr.as_str()
    }

    /// The function that answers requests.
    pub fn dispatcher(&self) -> (r: &DispatchFn)
        ensures
            *r == self.dispatch(),
    {
        &self.dispatch_fn
    }
}

} // verus!
