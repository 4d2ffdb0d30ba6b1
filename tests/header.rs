use bitdump::dump::dump;
use bitdump::error::DecodeError;
use bitdump::header::parse_header;
use bitdump::packet::{Opcode, PacketClassification};
use bitdump::runs::DumpLine;

fn push_text(out: &mut Vec<u8>, key: Option<u8>, text: &[u8]) {
    if let Some(k) = key {
        out.push(k);
    }
    out.extend_from_slice(&(text.len() as u16).to_be_bytes());
    out.extend_from_slice(text);
}

fn sample() -> Vec<u8> {
    let mut b = vec![0u8, 0, 0, 0];
    push_text(&mut b, None, b"top");
    push_text(&mut b, Some(b'b'), b"7a;xc7a35t");
    push_text(&mut b, Some(b'c'), b"2021/01/01");
    push_text(&mut b, Some(b'd'), b"00:00:00");
    b.push(b'e');
    b.extend_from_slice(&8u32.to_be_bytes());
    b.extend_from_slice(&0x4000_0000u32.to_be_bytes());
    b.extend_from_slice(&0x4000_0000u32.to_be_bytes());
    b
}

#[test]
fn sample_header_fields() {
    let b = sample();
    let (h, off) = parse_header(&b).unwrap();
    assert_eq!(off, 51);
    assert!(h.field1.is_empty());
    assert!(h.field2.is_empty());
    assert_eq!(h.design_name, "top");
    assert_eq!(h.part_key, b'b');
    assert_eq!(h.part_number, "7a;xc7a35t");
    assert_eq!(h.date_key, b'c');
    assert_eq!(h.build_date, "2021/01/01");
    assert_eq!(h.time_key, b'd');
    assert_eq!(h.build_time, "00:00:00");
    assert_eq!(h.length_key, b'e');
    assert_eq!(h.payload_length, 8);
}

#[test]
fn sample_dump_lists_two_body_words() {
    let b = sample();
    let rep = dump(&b).unwrap();
    assert_eq!(rep.body_offset, 51);
    assert_eq!(rep.error, None);
    assert_eq!(rep.lines.len(), 2);
    for (i, line) in rep.lines.iter().enumerate() {
        match line {
            DumpLine::Word(r) => {
                assert_eq!(r.offset, 4 * i);
                assert_eq!(r.word, 0x4000_0000);
                assert_eq!(r.class, PacketClassification::Type2 { opcode: Opcode::Nop, word_count: 0 });
            }
            DumpLine::Elided => panic!("no elision expected"),
        }
    }
}

#[test]
fn opaque_fields_are_kept() {
    let mut b = vec![0u8, 2, 0xAB, 0xCD, 0, 1, 0x7F];
    push_text(&mut b, None, b"");
    push_text(&mut b, Some(1), b"p");
    push_text(&mut b, Some(2), b"d");
    push_text(&mut b, Some(3), b"t");
    b.push(4);
    b.extend_from_slice(&0x0102_0304u32.to_be_bytes());
    let (h, off) = parse_header(&b).unwrap();
    assert_eq!(h.field1, vec![0xAB, 0xCD]);
    assert_eq!(h.field2, vec![0x7F]);
    assert_eq!(h.design_name, "");
    assert_eq!(h.payload_length, 0x0102_0304);
    assert_eq!(off, 2 + 2 + 2 + 1 + 2 + 3 + 1 + 3 + 1 + 3 + 1 + 5);
    assert_eq!(off, b.len());
}

#[test]
fn utf8_text_is_decoded() {
    let mut b = vec![0u8, 0, 0, 0];
    push_text(&mut b, None, "é".as_bytes());
    push_text(&mut b, Some(1), b"");
    push_text(&mut b, Some(2), b"");
    push_text(&mut b, Some(3), b"");
    b.extend_from_slice(&[4, 0, 0, 0, 0]);
    let (h, _) = parse_header(&b).unwrap();
    assert_eq!(h.design_name, "é");
    assert_eq!(h.design_name.chars().count(), 1);
}

#[test]
fn invalid_text_is_malformed() {
    let mut b = vec![0u8, 0, 0, 0];
    push_text(&mut b, None, &[0xFF, 0x41]);
    assert_eq!(parse_header(&b).err(), Some(DecodeError::MalformedHeader { offset: 6 }));
    assert!(dump(&b).is_err());
}

#[test]
fn empty_buffer_is_truncated() {
    assert_eq!(parse_header(&[]).err(), Some(DecodeError::TruncatedInput { offset: 0 }));
    assert_eq!(parse_header(&[0]).err(), Some(DecodeError::TruncatedInput { offset: 0 }));
}

#[test]
fn declared_length_past_end_is_truncated() {
    let b = vec![0u8, 0, 0, 0, 0, 3, b't', b'o'];
    assert_eq!(parse_header(&b).err(), Some(DecodeError::TruncatedInput { offset: 6 }));
    let b = vec![0u8, 5, 1, 2];
    assert_eq!(parse_header(&b).err(), Some(DecodeError::TruncatedInput { offset: 2 }));
}

#[test]
fn truncated_build_time_is_located() {
    let mut b = vec![0u8, 0, 0, 0];
    push_text(&mut b, None, b"top");
    push_text(&mut b, Some(b'b'), b"7a;xc7a35t");
    push_text(&mut b, Some(b'c'), b"2021/01/01");
    b.push(b'd');
    b.extend_from_slice(&8u16.to_be_bytes());
    let start = b.len();
    b.extend_from_slice(b"00:00");
    assert_eq!(parse_header(&b).err(), Some(DecodeError::TruncatedInput { offset: start }));
}

#[test]
fn short_payload_length_is_truncated() {
    let mut b = vec![0u8, 0, 0, 0];
    push_text(&mut b, None, b"x");
    push_text(&mut b, Some(1), b"");
    push_text(&mut b, Some(2), b"");
    push_text(&mut b, Some(3), b"");
    let key_at = b.len();
    b.extend_from_slice(&[4, 0, 0]);
    assert_eq!(parse_header(&b).err(), Some(DecodeError::TruncatedInput { offset: key_at + 1 }));
    b.truncate(key_at);
    assert_eq!(parse_header(&b).err(), Some(DecodeError::TruncatedInput { offset: key_at }));
}

#[test]
fn dump_reports_body_failure_after_lines() {
    let mut b = sample();
    b.extend_from_slice(&0x3000_8002u32.to_be_bytes());
    let rep = dump(&b).unwrap();
    assert_eq!(rep.error, Some(DecodeError::TruncatedPacket { offset: 8 }));
    assert_eq!(rep.lines.len(), 3);
}
