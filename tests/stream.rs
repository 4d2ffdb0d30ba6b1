use bitdump::error::DecodeError;
use bitdump::packet::{Opcode, PacketClassification, Register};
use bitdump::stream::{parse_stream, WordRecord};

fn words(ws: &[u32]) -> Vec<u8> {
    let mut out = Vec::new();
    for w in ws {
        out.extend_from_slice(&w.to_be_bytes());
    }
    out
}

#[test]
fn nop_takes_four_bytes() {
    let body = words(&[0x2000_07FF, 0xAAAA_AAAA]);
    let r = parse_stream(&body);
    assert_eq!(r.error, None);
    assert_eq!(
        r.records,
        vec![
            WordRecord {
                offset: 0,
                word: 0x2000_07FF,
                class: PacketClassification::Type1 {
                    opcode: Opcode::Nop,
                    register: Register::Crc,
                    word_count: 0x7FF
                },
            },
            WordRecord { offset: 4, word: 0xAAAA_AAAA, class: PacketClassification::Unknown },
        ]
    );
}

#[test]
fn payload_words_pass_through() {
    let body = words(&[0x5000_0002, 0x2800_4001, 0x3000_8002, 0x2000_0000]);
    let r = parse_stream(&body);
    assert_eq!(r.error, None);
    assert_eq!(r.records.len(), 4);
    assert_eq!(r.records[0].class, PacketClassification::Type2 { opcode: Opcode::Write, word_count: 2 });
    assert_eq!(r.records[1], WordRecord { offset: 4, word: 0x2800_4001, class: PacketClassification::Unknown });
    assert_eq!(r.records[2], WordRecord { offset: 8, word: 0x3000_8002, class: PacketClassification::Unknown });
    assert_eq!(r.records[3].offset, 12);
    assert_eq!(
        r.records[3].class,
        PacketClassification::Type1 { opcode: Opcode::Nop, register: Register::Crc, word_count: 0 }
    );
}

#[test]
fn truncated_packet_is_located() {
    let body = words(&[0xFFFF_FFFF, 0x3000_8002, 0x0000_0001]);
    let r = parse_stream(&body);
    assert_eq!(r.error, Some(DecodeError::TruncatedPacket { offset: 4 }));
    assert_eq!(r.records.len(), 2);
    assert_eq!(r.records[1].word, 0x3000_8002);
}

#[test]
fn partial_trailing_word_is_truncated_input() {
    let body = vec![0u8, 0, 0, 0, 1];
    let r = parse_stream(&body);
    assert_eq!(r.error, Some(DecodeError::TruncatedInput { offset: 4 }));
    assert_eq!(r.records.len(), 1);
}

#[test]
fn empty_body_has_no_records() {
    let r = parse_stream(&[]);
    assert_eq!(r.error, None);
    assert!(r.records.is_empty());
}
