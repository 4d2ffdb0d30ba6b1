use bitdump::packet::{classify, payload_word_count, Opcode, PacketClassification, Register};

#[test]
fn type1_read_fdri() {
    assert_eq!(
        classify(0x2800_4001),
        PacketClassification::Type1 { opcode: Opcode::Read, register: Register::Fdri, word_count: 1 }
    );
}

#[test]
fn type1_read_fdri_any_word_count() {
    assert_eq!(
        classify(0x2800_47FF),
        PacketClassification::Type1 { opcode: Opcode::Read, register: Register::Fdri, word_count: 0x7FF }
    );
}

#[test]
fn type1_write_cmd() {
    assert_eq!(
        classify(0x3000_8002),
        PacketClassification::Type1 { opcode: Opcode::Write, register: Register::Cmd, word_count: 2 }
    );
}

#[test]
fn type1_register_table_edges() {
    assert_eq!(
        classify(0x2803_E000),
        PacketClassification::Type1 { opcode: Opcode::Read, register: Register::Bspi, word_count: 0 }
    );
    assert_eq!(
        classify(0x2801_E000),
        PacketClassification::Type1 { opcode: Opcode::Read, register: Register::Invalid, word_count: 0 }
    );
    assert_eq!(
        classify(0x2804_4000),
        PacketClassification::Type1 { opcode: Opcode::Read, register: Register::Invalid, word_count: 0 }
    );
    assert_eq!(
        classify(0x2802_C000),
        PacketClassification::Type1 { opcode: Opcode::Read, register: Register::Bootsts, word_count: 0 }
    );
}

#[test]
fn type1_invalid_opcode() {
    assert_eq!(
        classify(0x3800_0000),
        PacketClassification::Type1 { opcode: Opcode::Invalid, register: Register::Crc, word_count: 0 }
    );
}

#[test]
fn type2_write() {
    assert_eq!(
        classify(0x5000_0010),
        PacketClassification::Type2 { opcode: Opcode::Write, word_count: 0x10 }
    );
    assert_eq!(
        classify(0x57FF_FFFF),
        PacketClassification::Type2 { opcode: Opcode::Write, word_count: 0x07FF_FFFF }
    );
}

#[test]
fn other_tags_are_unknown() {
    assert_eq!(classify(0xAA99_5566), PacketClassification::Unknown);
    assert_eq!(classify(0xFFFF_FFFF), PacketClassification::Unknown);
    assert_eq!(classify(0x0000_0000), PacketClassification::Unknown);
}

#[test]
fn nop_carries_no_payload() {
    let c = classify(0x2000_07FF);
    assert_eq!(
        c,
        PacketClassification::Type1 { opcode: Opcode::Nop, register: Register::Crc, word_count: 0x7FF }
    );
    assert_eq!(payload_word_count(c), 0);
    assert_eq!(payload_word_count(classify(0x3000_8002)), 2);
    assert_eq!(payload_word_count(classify(0x5000_0010)), 0x10);
    assert_eq!(payload_word_count(PacketClassification::Unknown), 0);
}

#[test]
fn labels() {
    assert_eq!(Opcode::Nop.label(), "NOOP");
    assert_eq!(Opcode::Read.label(), "READ");
    assert_eq!(Opcode::Invalid.label(), "InvOP");
    assert_eq!(Register::Fdri.label(), "FDRI");
    assert_eq!(Register::Bootsts.label(), "BOOTSTS");
    assert_eq!(Register::Invalid.label(), "InvREG");
}
