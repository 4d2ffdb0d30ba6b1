//! The bitstream header: two opaque length-prefixed blocks, the design name,
//! three key-tagged text fields, and a key-tagged payload length.
use crate::bits::{be16, be32, read_n_byte, read_u16, read_u32};
use crate::error::DecodeError;
use vstd::prelude::*;
use vstd::seq_lib::lemma_concat_associative;
use vstd::slice::slice_to_vec;
use vstd::utf8::{
    decode_utf8, encode_utf8, encode_utf8_decode_utf8, encode_utf8_valid_utf8, valid_utf8,
};

verus! {

/// The decoded header fields.
pub struct ContainerHeader {
    pub field1: Vec<u8>,
    pub field2: Vec<u8>,
    pub design_name: String,
    pub part_key: u8,
    pub part_number: String,
    pub date_key: u8,
    pub build_date: String,
    pub time_key: u8,
    pub build_time: String,
    pub length_key: u8,
    pub payload_length: u32,
}

/// The mathematical value of a `ContainerHeader`.
pub struct HeaderView {
    pub field1: Seq<u8>,
    pub field2: Seq<u8>,
    pub design_name: Seq<char>,
    pub part_key: u8,
    pub part_number: Seq<char>,
    pub date_key: u8,
    pub build_date: Seq<char>,
    pub time_key: u8,
    pub build_time: Seq<char>,
    pub length_key: u8,
    pub payload_length: u32,
}

impl View for ContainerHeader {
    type V = HeaderView;

    open spec fn view(&self) -> HeaderView {
        HeaderView {
            field1: self.field1@,
            field2: self.field2@,
            design_name: self.design_name@,
            part_key: self.part_key,
            part_number: self.part_number@,
            date_key: self.date_key,
            build_date: self.build_date@,
            time_key: self.time_key,
            build_time: self.build_time@,
            length_key: self.length_key,
            payload_length: self.payload_length,
        }
    }
}

/// A `u16` length at `pos` followed by that many bytes: the bytes and the
/// offset just past them.
#[verifier::opaque]
pub open spec fn blob_at(b: Seq<u8>, pos: int) -> Result<(Seq<u8>, int), DecodeError> {
    if pos + 2 > b.len() {
        Err(DecodeError::TruncatedInput { offset: pos as usize })
    } else if pos + 2 + be16(b, pos) > b.len() {
        Err(DecodeError::TruncatedInput { offset: (pos + 2) as usize })
    } else {
        Ok((b.subrange(pos + 2, pos + 2 + be16(b, pos)), pos + 2 + be16(b, pos)))
    }
}

/// A length-prefixed block at `pos` read as UTF-8 text.
#[verifier::opaque]
pub open spec fn text_at(b: Seq<u8>, pos: int) -> Result<(Seq<char>, int), DecodeError> {
    match blob_at(b, pos) {
        Err(e) => Err(e),
        Ok((bytes, next)) => {
            if valid_utf8(bytes) {
                Ok((decode_utf8(bytes), next))
            } else {
                Err(DecodeError::MalformedHeader { offset: (pos + 2) as usize })
            }
        },
    }
}

/// A key byte at `pos` followed by length-prefixed text.
#[verifier::opaque]
pub open spec fn keyed_text_at(b: Seq<u8>, pos: int) -> Result<(u8, Seq<char>, int), DecodeError> {
    if pos + 1 > b.len() {
        Err(DecodeError::TruncatedInput { offset: pos as usize })
    } else {
        match text_at(b, pos + 1) {
            Err(e) => Err(e),
            Ok((text, next)) => Ok((b[pos], text, next)),
        }
    }
}

/// A key byte at `pos` followed by a big-endian `u32`.
#[verifier::opaque]
pub open spec fn keyed_u32_at(b: Seq<u8>, pos: int) -> Result<(u8, u32, int), DecodeError> {
    if pos + 1 > b.len() {
        Err(DecodeError::TruncatedInput { offset: pos as usize })
    } else if pos + 5 > b.len() {
        Err(DecodeError::TruncatedInput { offset: (pos + 1) as usize })
    } else {
        Ok((b[pos], be32(b, pos + 1) as u32, pos + 5))
    }
}

/// The header that `b` starts with and the offset of the body after it, or
/// the first failure met reading the fields in order.
pub open spec fn header_of(b: Seq<u8>) -> Result<(HeaderView, int), DecodeError> {
    match blob_at(b, 0) {
        Err(e) => Err(e),
        Ok((field1, p2)) => match blob_at(b, p2) {
            Err(e) => Err(e),
            Ok((field2, p3)) => match text_at(b, p3) {
                Err(e) => Err(e),
                Ok((design_name, p4)) => match keyed_text_at(b, p4) {
                    Err(e) => Err(e),
                    Ok((part_key, part_number, p5)) => match keyed_text_at(b, p5) {
                        Err(e) => Err(e),
                        Ok((date_key, build_date, p6)) => match keyed_text_at(b, p6) {
                            Err(e) => Err(e),
                            Ok((time_key, build_time, p7)) => match keyed_u32_at(b, p7) {
                                Err(e) => Err(e),
                                Ok((length_key, payload_length, body)) => Ok(
                                    (
                                        HeaderView {
                                            field1,
                                            field2,
                                            design_name,
                                            part_key,
                                            part_number,
                                            date_key,
                                            build_date,
                                            time_key,
                                            build_time,
                                            length_key,
                                            payload_length,
                                        },
                                        body,
                                    ),
                                ),
                            },
                        },
                    },
                },
            },
        },
    }
}

/// Relies on `std::str::from_utf8`: it accepts exactly the well-formed UTF-8
/// byte sequences, and the text it returns is the characters they encode.
#[verifier::external_body]
fn utf8_text(bytes: &[u8]) -> (r: Option<&str>)
    ensures
        r is Some <==> valid_utf8(bytes@),
        r matches Some(s) ==> s@ == decode_utf8(bytes@),
{
    std::str::from_utf8(bytes).ok()
}

/// Reads a length-prefixed block at `pos`.
fn read_blob(buffer: &[u8], pos: usize) -> (r: Result<(&[u8], usize), DecodeError>)
    requires
        pos <= buffer@.len(),
    ensures
        r matches Ok((s, next)) ==> blob_at(buffer@, pos as int) == Ok::<(Seq<u8>, int), DecodeError>(
            (s@, next as int),
        ) && pos + 2 <= next <= buffer@.len(),
        r matches Err(e) ==> blob_at(buffer@, pos as int) == Err::<(Seq<u8>, int), DecodeError>(e),
{
    reveal(blob_at);
    if buffer.len() - pos < 2 {
        return Err(DecodeError::TruncatedInput { offset: pos });
    }
    let length = read_u16(buffer, pos) as usize;
    let start = pos + 2;
    if buffer.len() - start < length {
        return Err(DecodeError::TruncatedInput { offset: start });
    }
    let (_, rest) = read_n_byte(buffer, start);
    let (value, _) = read_n_byte(rest, length);
    assert(value@ =~= buffer@.subrange(start as int, start + length));
    Ok((value, start + length))
}

/// Reads a length-prefixed UTF-8 text at `pos`.
fn read_text(buffer: &[u8], pos: usize) -> (r: Result<(String, usize), DecodeError>)
    requires
        pos <= buffer@.len(),
    ensures
        r matches Ok((s, next)) ==> text_at(buffer@, pos as int) == Ok::<(Seq<char>, int), DecodeError>(
            (s@, next as int),
        ) && next <= buffer@.len(),
        r matches Err(e) ==> text_at(buffer@, pos as int) == Err::<(Seq<char>, int), DecodeError>(e),
{
    reveal(text_at);
    let (bytes, next) = match read_blob(buffer, pos) {
        Ok(v) => v,
        Err(e) => return Err(e),
    };
    match utf8_text(bytes) {
        Some(s) => Ok((s.to_owned(), next)),
        None => Err(DecodeError::MalformedHeader { offset: pos + 2 }),
    }
}

/// Reads a key byte and a length-prefixed UTF-8 text at `pos`.
fn read_keyed_text(buffer: &[u8], pos: usize) -> (r: Result<(u8, String, usize), DecodeError>)
    requires
        pos <= buffer@.len(),
    ensures
        r matches Ok((k, s, next)) ==> keyed_text_at(buffer@, pos as int) == Ok::<
            (u8, Seq<char>, int),
            DecodeError,
        >((k, s@, next as int)) && next <= buffer@.len(),
        r matches Err(e) ==> keyed_text_at(buffer@, pos as int) == Err::<
            (u8, Seq<char>, int),
            DecodeError,
        >(e),
{
    reveal(keyed_text_at);
    if buffer.len() - pos < 1 {
        return Err(DecodeError::TruncatedInput { offset: pos });
    }
    let key = buffer[pos];
    match read_text(buffer, pos + 1) {
        Ok((text, next)) => Ok((key, text, next)),
        Err(e) => Err(e),
    }
}

/// Reads a key byte and a big-endian `u32` at `pos`.
fn read_keyed_u32(buffer: &[u8], pos: usize) -> (r: Result<(u8, u32, usize), DecodeError>)
    requires
        pos <= buffer@.len(),
    ensures
        r matches Ok((k, v, next)) ==> keyed_u32_at(buffer@, pos as int) == Ok::<
            (u8, u32, int),
            DecodeError,
        >((k, v, next as int)) && next <= buffer@.len(),
        r matches Err(e) ==> keyed_u32_at(buffer@, pos as int) == Err::<(u8, u32, int), DecodeError>(
            e,
        ),
{
    reveal(keyed_u32_at);
    if buffer.len() - pos < 1 {
        return Err(DecodeError::TruncatedInput { offset: pos });
    }
    if buffer.len() - pos < 5 {
        return Err(DecodeError::TruncatedInput { offset: pos + 1 });
    }
    let key = buffer[pos];
    let value = read_u32(buffer, pos + 1);
    Ok((key, value, pos + 5))
}

/// Parses the header at the start of `buffer`: returns the header and the
/// offset at which the configuration-packet body begins.
pub fn parse_header(buffer: &[u8]) -> (r: Result<(ContainerHeader, usize), DecodeError>)
    ensures
        r matches Ok((h, body)) ==> header_of(buffer@) == Ok::<(HeaderView, int), DecodeError>(
            (h@, body as int),
        ) && body <= buffer@.len(),
        r matches Err(e) ==> header_of(buffer@) == Err::<(HeaderView, int), DecodeError>(e),
{
    let (field1, p2) = match read_blob(buffer, 0) {
        Ok(v) => v,
        Err(e) => return Err(e),
    };
    let (field2, p3) = match read_blob(buffer, p2) {
        Ok(v) => v,
        Err(e) => return Err(e),
    };
    let (design_name, p4) = match read_text(buffer, p3) {
        Ok(v) => v,
        Err(e) => return Err(e),
    };
    let (part_key, part_number, p5) = match read_keyed_text(buffer, p4) {
        Ok(v) => v,
        Err(e) => return Err(e),
    };
    let (date_key, build_date, p6) = match read_keyed_text(buffer, p5) {
        Ok(v) => v,
        Err(e) => return Err(e),
    };
    let (time_key, build_time, p7) = match read_keyed_text(buffer, p6) {
        Ok(v) => v,
        Err(e) => return Err(e),
    };
    let (length_key, payload_length, body) = match read_keyed_u32(buffer, p7) {
        Ok(v) => v,
        Err(e) => return Err(e),
    };
    let header = ContainerHeader {
        field1: slice_to_vec(field1),
        field2: slice_to_vec(field2),
        design_name,
        part_key,
        part_number,
        date_key,
        build_date,
        time_key,
        build_time,
        length_key,
        payload_length,
    };
    Ok((header, body))
}

/// The two big-endian bytes of a length below `0x10000`.
#[verifier::opaque]
pub open spec fn be16_bytes(n: nat) -> Seq<u8> {
    seq![(n / 0x100) as u8, (n % 0x100) as u8]
}

/// The four big-endian bytes of `n`.
#[verifier::opaque]
pub open spec fn be32_bytes(n: u32) -> Seq<u8> {
    seq![
        (n / 0x1000000) as u8,
        ((n / 0x10000) % 0x100) as u8,
        ((n / 0x100) % 0x100) as u8,
        (n % 0x100) as u8,
    ]
}

/// `f` with its `u16` length in front.
#[verifier::opaque]
pub open spec fn blob_bytes(f: Seq<u8>) -> Seq<u8> {
    be16_bytes(f.len()) + f
}

/// A key byte, then `t` as length-prefixed UTF-8.
#[verifier::opaque]
pub open spec fn keyed_text_bytes(key: u8, t: Seq<char>) -> Seq<u8> {
    seq![key] + blob_bytes(encode_utf8(t))
}

/// The key and payload length that close the header.
#[verifier::opaque]
pub open spec fn length_bytes(h: HeaderView) -> Seq<u8> {
    seq![h.length_key] + be32_bytes(h.payload_length)
}

/// The bytes of `h` written field by field.
pub open spec fn header_bytes(h: HeaderView) -> Seq<u8> {
    blob_bytes(h.field1) + (blob_bytes(h.field2) + (blob_bytes(encode_utf8(h.design_name)) + (
    keyed_text_bytes(h.part_key, h.part_number) + (keyed_text_bytes(h.date_key, h.build_date) + (
    keyed_text_bytes(h.time_key, h.build_time) + length_bytes(h))))))
}

/// The bytes of `h` up to and including the build-time length prefix, the
/// last field whose length is declared.
pub open spec fn header_bytes_to_time_length(h: HeaderView) -> Seq<u8> {
    blob_bytes(h.field1) + (blob_bytes(h.field2) + (blob_bytes(encode_utf8(h.design_name)) + (
    keyed_text_bytes(h.part_key, h.part_number) + (keyed_text_bytes(h.date_key, h.build_date) + (
    seq![h.time_key] + be16_bytes(encode_utf8(h.build_time).len()))))))
}

/// Every length-prefixed field of `h` fits its `u16` length.
pub open spec fn header_fits(h: HeaderView) -> bool {
    &&& h.field1.len() < 0x10000
    &&& h.field2.len() < 0x10000
    &&& encode_utf8(h.design_name).len() < 0x10000
    &&& encode_utf8(h.part_number).len() < 0x10000
    &&& encode_utf8(h.build_date).len() < 0x10000
    &&& encode_utf8(h.build_time).len() < 0x10000
}

proof fn lemma_be16_bytes(pre: Seq<u8>, n: nat, rest: Seq<u8>)
    requires
        n < 0x10000,
    ensures
        be16((pre + be16_bytes(n)) + rest, pre.len() as int) == n,
        be16_bytes(n).len() == 2,
{
    reveal(be16_bytes);
    let b = (pre + be16_bytes(n)) + rest;
    assert(b[pre.len() as int] == (n / 0x100) as u8);
    assert(b[pre.len() as int + 1] == (n % 0x100) as u8);
}

proof fn lemma_blob_at(pre: Seq<u8>, f: Seq<u8>, rest: Seq<u8>)
    requires
        f.len() < 0x10000,
    ensures
        blob_at(pre + blob_bytes(f) + rest, pre.len() as int) == Ok::<(Seq<u8>, int), DecodeError>(
            (f, (pre.len() + 2 + f.len()) as int),
        ),
        blob_bytes(f).len() == 2 + f.len(),
{
    reveal(blob_at);
    reveal(blob_bytes);
    let b = pre + blob_bytes(f) + rest;
    assert(b =~= (pre + be16_bytes(f.len())) + (f + rest));
    lemma_be16_bytes(pre, f.len(), f + rest);
    assert(b.subrange(pre.len() + 2 as int, pre.len() + 2 + f.len() as int) =~= f);
}

proof fn lemma_keyed_text_truncated(pre: Seq<u8>, key: u8, n: nat, cut: Seq<u8>)
    requires
        n < 0x10000,
        cut.len() < n,
    ensures
        keyed_text_at(pre + (seq![key] + be16_bytes(n)) + cut, pre.len() as int) == Err::<
            (u8, Seq<char>, int),
            DecodeError,
        >(DecodeError::TruncatedInput { offset: (pre.len() + 3) as usize }),
        be16_bytes(n).len() == 2,
{
    reveal(keyed_text_at);
    reveal(text_at);
    reveal(blob_at);
    let b = pre + (seq![key] + be16_bytes(n)) + cut;
    assert(b =~= (pre + seq![key]) + be16_bytes(n) + cut);
    lemma_be16_bytes(pre + seq![key], n, cut);
}

proof fn lemma_text_at(pre: Seq<u8>, t: Seq<char>, rest: Seq<u8>)
    requires
        encode_utf8(t).len() < 0x10000,
    ensures
        text_at(pre + blob_bytes(encode_utf8(t)) + rest, pre.len() as int) == Ok::<
            (Seq<char>, int),
            DecodeError,
        >((t, (pre.len() + 2 + encode_utf8(t).len()) as int)),
        blob_bytes(encode_utf8(t)).len() == 2 + encode_utf8(t).len(),
{
    reveal(text_at);
    lemma_blob_at(pre, encode_utf8(t), rest);
    encode_utf8_valid_utf8(t);
    encode_utf8_decode_utf8(t);
}

proof fn lemma_keyed_text_at(pre: Seq<u8>, key: u8, t: Seq<char>, rest: Seq<u8>)
    requires
        encode_utf8(t).len() < 0x10000,
    ensures
        keyed_text_at(pre + keyed_text_bytes(key, t) + rest, pre.len() as int) == Ok::<
            (u8, Seq<char>, int),
            DecodeError,
        >((key, t, (pre.len() + 3 + encode_utf8(t).len()) as int)),
        keyed_text_bytes(key, t).len() == 3 + encode_utf8(t).len(),
{
    reveal(keyed_text_at);
    reveal(keyed_text_bytes);
    let b = pre + keyed_text_bytes(key, t) + rest;
    assert(b =~= (pre + seq![key]) + blob_bytes(encode_utf8(t)) + rest);
    lemma_text_at(pre + seq![key], t, rest);
    assert(b[pre.len() as int] == key);
}

proof fn lemma_length_at(pre: Seq<u8>, h: HeaderView, rest: Seq<u8>)
    ensures
        keyed_u32_at(pre + length_bytes(h) + rest, pre.len() as int) == Ok::<
            (u8, u32, int),
            DecodeError,
        >((h.length_key, h.payload_length, pre.len() + 5 as int)),
        length_bytes(h).len() == 5,
{
    reveal(keyed_u32_at);
    reveal(length_bytes);
    reveal(be32_bytes);
    let key = h.length_key;
    let n = h.payload_length;
    let b = pre + length_bytes(h) + rest;
    let p = pre.len() as int;
    assert(b[p] == key);
    assert(b[p + 1] == (n / 0x1000000) as u8);
    assert(b[p + 2] == ((n / 0x10000) % 0x100) as u8);
    assert(b[p + 3] == ((n / 0x100) % 0x100) as u8);
    assert(b[p + 4] == (n % 0x100) as u8);
    assert(be32(b, p + 1) == n);
}

/// A header written field by field reads back as the same fields, and the
/// body starts right after it: at the sum, over the fields in order, of each
/// prefix size (two bytes of length, one more where a key comes first) and
/// each declared length, plus five for the key and the payload length.
pub proof fn lemma_header_round_trip(h: HeaderView, body: Seq<u8>)
    requires
        header_fits(h),
    ensures
        header_of(header_bytes(h) + body) == Ok::<(HeaderView, int), DecodeError>(
            (h, header_bytes(h).len() as int),
        ),
        header_bytes(h).len() == 2 + h.field1.len() + 2 + h.field2.len() + 2 + encode_utf8(
            h.design_name,
        ).len() + 3 + encode_utf8(h.part_number).len() + 3 + encode_utf8(h.build_date).len() + 3
            + encode_utf8(h.build_time).len() + 5,
{
    let s1 = blob_bytes(h.field1);
    let s2 = blob_bytes(h.field2);
    let s3 = blob_bytes(encode_utf8(h.design_name));
    let s4 = keyed_text_bytes(h.part_key, h.part_number);
    let s5 = keyed_text_bytes(h.date_key, h.build_date);
    let s6 = keyed_text_bytes(h.time_key, h.build_time);
    let s7 = length_bytes(h);
    let t6 = s6 + s7;
    let t5 = s5 + t6;
    let t4 = s4 + t5;
    let t3 = s3 + t4;
    let t2 = s2 + t3;
    let r7 = s7 + body;
    let r6 = s6 + r7;
    let r5 = s5 + r6;
    let r4 = s4 + r5;
    let r3 = s3 + r4;
    let r2 = s2 + r3;
    let b = header_bytes(h) + body;
    lemma_concat_associative(s6, s7, body);
    lemma_concat_associative(s5, t6, body);
    lemma_concat_associative(s4, t5, body);
    lemma_concat_associative(s3, t4, body);
    lemma_concat_associative(s2, t3, body);
    lemma_concat_associative(s1, t2, body);
    assert(b == s1 + r2);
    let e = Seq::<u8>::empty();
    assert(e + s1 =~= s1);
    lemma_blob_at(e, h.field1, r2);
    let p2 = s1;
    lemma_concat_associative(p2, s2, r3);
    lemma_blob_at(p2, h.field2, r3);
    let p3 = p2 + s2;
    lemma_concat_associative(p3, s3, r4);
    lemma_text_at(p3, h.design_name, r4);
    let p4 = p3 + s3;
    lemma_concat_associative(p4, s4, r5);
    lemma_keyed_text_at(p4, h.part_key, h.part_number, r5);
    let p5 = p4 + s4;
    lemma_concat_associative(p5, s5, r6);
    lemma_keyed_text_at(p5, h.date_key, h.build_date, r6);
    let p6 = p5 + s5;
    lemma_concat_associative(p6, s6, r7);
    lemma_keyed_text_at(p6, h.time_key, h.build_time, r7);
    let p7 = p6 + s6;
    lemma_concat_associative(p7, s7, body);
    lemma_length_at(p7, h, body);
}

/// When the bytes after the build-time length prefix are fewer than it
/// declares, reading stops with `TruncatedInput` at the offset where the
/// build time was to start.
pub proof fn lemma_truncated_time_located(h: HeaderView, cut: Seq<u8>)
    requires
        header_fits(h),
        cut.len() < encode_utf8(h.build_time).len(),
    ensures
        header_of(header_bytes_to_time_length(h) + cut) == Err::<(HeaderView, int), DecodeError>(
            DecodeError::TruncatedInput {
                offset: header_bytes_to_time_length(h).len() as usize,
            },
        ),
{
    let s1 = blob_bytes(h.field1);
    let s2 = blob_bytes(h.field2);
    let s3 = blob_bytes(encode_utf8(h.design_name));
    let s4 = keyed_text_bytes(h.part_key, h.part_number);
    let s5 = keyed_text_bytes(h.date_key, h.build_date);
    let s6 = seq![h.time_key] + be16_bytes(encode_utf8(h.build_time).len());
    let t5 = s5 + s6;
    let t4 = s4 + t5;
    let t3 = s3 + t4;
    let t2 = s2 + t3;
    let r6 = s6 + cut;
    let r5 = s5 + r6;
    let r4 = s4 + r5;
    let r3 = s3 + r4;
    let r2 = s2 + r3;
    let b = header_bytes_to_time_length(h) + cut;
    lemma_concat_associative(s5, s6, cut);
    lemma_concat_associative(s4, t5, cut);
    lemma_concat_associative(s3, t4, cut);
    lemma_concat_associative(s2, t3, cut);
    lemma_concat_associative(s1, t2, cut);
    assert(b == s1 + r2);
    let e = Seq::<u8>::empty();
    assert(e + s1 =~= s1);
    lemma_blob_at(e, h.field1, r2);
    let p2 = s1;
    lemma_concat_associative(p2, s2, r3);
    lemma_blob_at(p2, h.field2, r3);
    let p3 = p2 + s2;
    lemma_concat_associative(p3, s3, r4);
    lemma_text_at(p3, h.design_name, r4);
    let p4 = p3 + s3;
    lemma_concat_associative(p4, s4, r5);
    lemma_keyed_text_at(p4, h.part_key, h.part_number, r5);
    let p5 = p4 + s4;
    lemma_concat_associative(p5, s5, r6);
    lemma_keyed_text_at(p5, h.date_key, h.build_date, r6);
    let p6 = p5 + s5;
    lemma_concat_associative(p6, s6, cut);
    lemma_keyed_text_truncated(p6, h.time_key, encode_utf8(h.build_time).len(), cut);
}

} // verus!
