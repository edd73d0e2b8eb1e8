use atlas::module_rpc::{wire_method_id, AtlasModuleId, BasicAuthRpc, HoldemMethod, RegisterRpc, TokenAuthRpc};
use atlas::table::TableError;
use atlas::wire::{AtlasNetServer, AtlasWireHeader, AtlasWireKind, AtlasWireError, WIRE_LEN};

fn header_bytes(id: u64, slot: u32, method: u32, kind: u8) -> Vec<u8> {
    let mut v = Vec::new();
    v.extend_from_slice(&id.to_be_bytes());
    v.extend_from_slice(&slot.to_be_bytes());
    v.extend_from_slice(&method.to_be_bytes());
    v.push(kind);
    v
}

#[test]
fn reads_a_request_header() {
    let buf = header_bytes(0x0102_0304_0506_0708, 9, 0x0003_0001, 1);
    assert_eq!(buf.len(), WIRE_LEN);
    let h = AtlasWireHeader::read_wire_header(&buf).unwrap();
    assert_eq!(h.id, 0x0102_0304_0506_0708);
    assert_eq!(h.slot_index, 9);
    assert_eq!(h.method, 0x0003_0001);
    assert_eq!(h.kind, AtlasWireKind::Request);
}

#[test]
fn reads_every_kind_and_ignores_trailing_bytes() {
    for (b, k) in [
        (1u8, AtlasWireKind::Request),
        (2, AtlasWireKind::ResponseOk),
        (4, AtlasWireKind::ResponseErr),
        (8, AtlasWireKind::Notify),
    ] {
        let mut buf = header_bytes(u64::MAX, u32::MAX, 0, b);
        buf.extend_from_slice(b"payload");
        let h = AtlasWireHeader::read_wire_header(&buf).unwrap();
        assert_eq!(h.kind, k);
        assert_eq!(h.kind.as_u8(), b);
        assert_eq!(h.id, u64::MAX);
        assert_eq!(h.slot_index, u32::MAX);
    }
}

#[test]
fn refuses_a_short_buffer() {
    assert_eq!(
        AtlasWireHeader::read_wire_header(&[1, 2, 3]).unwrap_err(),
        "buffer too small: need 17, got 3"
    );
    assert_eq!(
        AtlasWireHeader::read_wire_header(&[]).unwrap_err(),
        "buffer too small: need 17, got 0"
    );
    let buf = header_bytes(1, 1, 1, 1);
    assert_eq!(
        AtlasWireHeader::read_wire_header(&buf[..16]).unwrap_err(),
        "buffer too small: need 17, got 16"
    );
}

#[test]
fn refuses_an_unknown_kind() {
    let buf = header_bytes(1, 2, 3, 3);
    assert_eq!(AtlasWireHeader::read_wire_header(&buf).unwrap_err(), "invalid AtlasWireKind: 0b00000011");
    let buf = header_bytes(1, 2, 3, 0xA5);
    assert_eq!(AtlasWireHeader::read_wire_header(&buf).unwrap_err(), "invalid AtlasWireKind: 0b10100101");
}

#[test]
fn table_errors_on_the_wire() {
    let cases = [
        (TableError::InvalidSeat, 10001, "invalid seat index"),
        (TableError::SeatOccupied, 10002, "seat already occupied"),
        (TableError::AlreadySeated, 10003, "player already seated"),
        (TableError::PlayerNotAtTable, 10004, "player not at seated"),
        (TableError::InvalidState, 10005, "operation not allowed in current table state"),
        (TableError::NotEnoughPlayers, 10006, "not enough players to start game"),
        (TableError::InvalidAction, 10007, "invalid action for current betting state"),
    ];
    for (e, code, msg) in cases {
        let w = AtlasWireError::from_table_error(e);
        assert_eq!(w.code, code);
        assert_eq!(w.message, msg);
        assert!(w.data.is_none());
    }
}

#[test]
fn a_refused_buy_in_carries_its_numbers() {
    let w = AtlasWireError::from_table_error(TableError::InvalidBuyIn { min: 400, max: 2000, actual: 100 });
    assert_eq!(w.code, 10008);
    assert_eq!(w.message, "buy-in 100 not in allowed range (400 - 2000)");
    assert_eq!(
        w.data,
        Some(vec![("min".to_string(), 400), ("max".to_string(), 2000), ("actual".to_string(), 100)])
    );
}

#[test]
fn method_ids_on_the_wire() {
    assert_eq!(wire_method_id(AtlasModuleId::Holdem, 1), 196609);
    assert_eq!(wire_method_id(AtlasModuleId::Auth, 2), 65538);
    assert_eq!(AtlasModuleId::Chat.number(), 2);
    assert_eq!(HoldemMethod::SitTable.wire(), 196611);
    assert_eq!(HoldemMethod::from_wire(196611), Some(HoldemMethod::SitTable));
    assert_eq!(HoldemMethod::from_wire(196614), Some(HoldemMethod::GameStart));
    assert_eq!(HoldemMethod::from_wire(196615), None);
    assert_eq!(HoldemMethod::from_wire(65537), None);
    for m in [
        HoldemMethod::GetTableList,
        HoldemMethod::GetTableInfo,
        HoldemMethod::SitTable,
        HoldemMethod::LeaveTable,
        HoldemMethod::GameAct,
        HoldemMethod::GameStart,
    ] {
        assert_eq!(HoldemMethod::from_wire(m.wire()), Some(m));
    }
    assert_eq!(RegisterRpc::MODULE_ID, AtlasModuleId::Auth);
    assert_eq!((RegisterRpc::METHOD_ID, BasicAuthRpc::METHOD_ID, TokenAuthRpc::METHOD_ID), (1, 2, 3));
    assert_eq!(TokenAuthRpc::MODULE_ID, AtlasModuleId::Auth);
}

#[test]
fn server_keeps_its_address_and_dispatcher() {
    let s = AtlasNetServer::new("127.0.0.1:9000".to_string(), 7u32);
    assert_eq!(s.address(), "127.0.0.1:9000");
    assert_eq!(*s.dispatcher(), 7);
}

#[test]
fn a_written_header_reads_back() {
    let h = AtlasWireHeader { id: 42, slot_index: 7, method: 196611, kind: AtlasWireKind::ResponseErr };
    let bytes = h.to_wire_bytes();
    assert_eq!(bytes, header_bytes(42, 7, 196611, 4));
    assert_eq!(AtlasWireHeader::read_wire_header(&bytes), Ok(h));
}
