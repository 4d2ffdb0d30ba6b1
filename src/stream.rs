//! Walking the configuration-packet body word by word.
use crate::bits::{be32, field, read_u32};
use crate::error::DecodeError;
use crate::packet::{
    classification, classify, payload_word_count, payload_words, PacketClassification, HEADER_TYPE1,
};
use vstd::prelude::*;

verus! {

/// One decoded 32-bit word of the body: where it stands, its value, and its
/// classification. Payload words are passed through as `Unknown`.
#[derive(Clone, Copy, Debug, PartialEq, Eq, Structural)]
pub struct WordRecord {
    pub offset: usize,
    pub word: u32,
    pub class: PacketClassification,
}

/// The records of a body, and the failure that ended the walk early, if any.
pub struct StreamDecode {
    pub records: Vec<WordRecord>,
    pub error: Option<DecodeError>,
}

/// The record of the word at `pos`, classified as a packet header.
pub open spec fn header_record(body: Seq<u8>, pos: int) -> WordRecord {
    let word = be32(body, pos) as u32;
    WordRecord { offset: pos as usize, word, class: classification(word) }
}

/// The record of the word at `pos`, passed through as payload.
pub open spec fn payload_record(body: Seq<u8>, pos: int) -> WordRecord {
    WordRecord {
        offset: pos as usize,
        word: be32(body, pos) as u32,
        class: PacketClassification::Unknown,
    }
}

/// The `n` payload records starting at `start`.
pub open spec fn payload_records(body: Seq<u8>, start: int, n: nat) -> Seq<WordRecord> {
    Seq::new(n, |i: int| payload_record(body, start + 4 * i))
}

/// The records produced by walking `body` from `pos` to its end, and the
/// failure met on the way, if any.
pub open spec fn stream_from(body: Seq<u8>, pos: int) -> (Seq<WordRecord>, Option<DecodeError>)
    decreases body.len() - pos,
{
    if pos < 0 || pos >= body.len() {
        (seq![], None)
    } else if pos + 4 > body.len() {
        (seq![], Some(DecodeError::TruncatedInput { offset: pos as usize }))
    } else {
        let head = header_record(body, pos);
        let n = payload_words(head.class);
        if pos + 4 + 4 * n > body.len() {
            (seq![head], Some(DecodeError::TruncatedPacket { offset: pos as usize }))
        } else {
            let rest = stream_from(body, pos + 4 + 4 * n);
            (seq![head] + payload_records(body, pos + 4, n) + rest.0, rest.1)
        }
    }
}

/// Decodes every word of `body`: each packet header is classified and its
/// payload words follow it as plain data.
pub fn parse_stream(body: &[u8]) -> (r: StreamDecode)
    ensures
        r.records@ == stream_from(body@, 0).0,
        r.error == stream_from(body@, 0).1,
{
    let len = body.len();
    let mut records: Vec<WordRecord> = Vec::new();
    let mut pos: usize = 0;
    while pos < len
        invariant
            len == body@.len(),
            pos <= len,
            records@ + stream_from(body@, pos as int).0 == stream_from(body@, 0).0,
            stream_from(body@, pos as int).1 == stream_from(body@, 0).1,
        decreases len - pos,
    {
        if len - pos < 4 {
            proof {
                assert(records@ + seq![] =~= records@);
            }
            return StreamDecode {
                records,
                error: Some(DecodeError::TruncatedInput { offset: pos }),
            };
        }
        let word = read_u32(body, pos);
        let class = classify(word);
        let head = WordRecord { offset: pos, word, class };
        let ghost old_records = records@;
        records.push(head);
        let n = payload_word_count(class);
        let need: u64 = 4 * (n as u64);
        if need > (len - pos - 4) as u64 {
            return StreamDecode {
                records,
                error: Some(DecodeError::TruncatedPacket { offset: pos }),
            };
        }
        let mut q: usize = pos + 4;
        let mut i: u32 = 0;
        while i < n
            invariant
                len == body@.len(),
                pos + 4 + 4 * (n as int) <= len,
                i <= n,
                q == pos + 4 + 4 * i,
                records@ == old_records.push(head) + payload_records(
                    body@,
                    pos + 4,
                    i as nat,
                ),
            decreases n - i,
        {
            let w = read_u32(body, q);
            let ghost before = records@;
            records.push(WordRecord { offset: q, word: w, class: PacketClassification::Unknown });
            proof {
                assert(payload_records(body@, pos + 4, (i + 1) as nat) =~= payload_records(
                    body@,
                    pos + 4,
                    i as nat,
                ).push(payload_record(body@, q as int)));
                assert(records@ =~= old_records.push(head) + payload_records(
                    body@,
                    pos + 4,
                    (i + 1) as nat,
                ));
            }
            q = q + 4;
            i = i + 1;
        }
        proof {
            let rest = stream_from(body@, q as int);
            assert(stream_from(body@, pos as int).0 =~= seq![head] + payload_records(
                body@,
                pos + 4,
                n as nat,
            ) + rest.0);
            assert(records@ + rest.0 =~= old_records + stream_from(body@, pos as int).0);
        }
        pos = q;
    }
    proof {
        assert(records@ + seq![] =~= records@);
    }
    StreamDecode { records, error: None }
}

/// A Type-1 NOP packet takes exactly its own word, whatever its word count
/// field holds: the walk goes on at the next word.
pub proof fn lemma_type1_nop_takes_one_word(body: Seq<u8>, pos: int)
    requires
        0 <= pos,
        pos + 4 <= body.len(),
        field(be32(body, pos) as u32, 29, 31) == HEADER_TYPE1,
        field(be32(body, pos) as u32, 27, 28) == 0b00,
    ensures
        stream_from(body, pos) == (
            seq![header_record(body, pos)] + stream_from(body, pos + 4).0,
            stream_from(body, pos + 4).1,
        ),
{
    let rest = stream_from(body, pos + 4);
    assert(payload_records(body, pos + 4, 0) =~= Seq::<WordRecord>::empty());
    assert(seq![header_record(body, pos)] + payload_records(body, pos + 4, 0) + rest.0
        =~= seq![header_record(body, pos)] + rest.0);
}

/// A packet whose declared payload runs past the end of the body ends the
/// walk with `TruncatedPacket` at the packet's own offset, after its header
/// record and before any of its payload.
pub proof fn lemma_truncated_packet_located(body: Seq<u8>, pos: int)
    requires
        0 <= pos,
        pos + 4 <= body.len(),
        pos + 4 + 4 * payload_words(classification(be32(body, pos) as u32)) > body.len(),
    ensures
        stream_from(body, pos) == (
            seq![header_record(body, pos)],
            Some(DecodeError::TruncatedPacket { offset: pos as usize }),
        ),
{
}

} // verus!
