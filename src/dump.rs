//! The full report of a bitstream: header, then the compressed listing of the
//! configuration-packet body.
use crate::error::DecodeError;
use crate::header::{header_of, parse_header, ContainerHeader, HeaderView};
use crate::runs::{compress, compressed, DumpLine};
use crate::stream::{parse_stream, stream_from};
use vstd::prelude::*;
use vstd::slice::slice_subrange;

verus! {

/// What a bitstream decodes to. Offsets in `lines` and `error` are relative
/// to the start of the body, which stands at `body_offset` in the buffer.
pub struct DumpReport {
    pub header: ContainerHeader,
    pub body_offset: usize,
    pub lines: Vec<DumpLine>,
    pub error: Option<DecodeError>,
}

/// The body of `b`: everything after a header that ends at `offset`.
pub open spec fn body_of(b: Seq<u8>, offset: int) -> Seq<u8> {
    b.subrange(offset, b.len() as int)
}

/// Decodes the header, walks the body after it, and compresses the listing.
/// A header failure ends decoding; a body failure is reported beside the
/// lines decoded before it.
pub fn dump(buffer: &[u8]) -> (r: Result<DumpReport, DecodeError>)
    ensures
        r matches Err(e) ==> header_of(buffer@) == Err::<(HeaderView, int), DecodeError>(e),
        r matches Ok(rep) ==> {
            &&& header_of(buffer@) == Ok::<(HeaderView, int), DecodeError>(
                (rep.header@, rep.body_offset as int),
            )
            &&& rep.lines@ == compressed(stream_from(body_of(buffer@, rep.body_offset as int), 0).0)
            &&& rep.error == stream_from(body_of(buffer@, rep.body_offset as int), 0).1
        },
{
    let (header, body_offset) = match parse_header(buffer) {
        Ok(v) => v,
        Err(e) => return Err(e),
    };
    let body = slice_subrange(buffer, body_offset, buffer.len());
    let decoded = parse_stream(body);
    let lines = compress(&decoded.records);
    Ok(DumpReport { header, body_offset, lines, error: decoded.error })
}

} // verus!
