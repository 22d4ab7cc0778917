//! What holds of the readers on every stream: the encoding that the element
//! reader inverts, and the ways in which the readers end.

use crate::dicom::meta::{
    element_len, element_of, element_taken, first_element, header_len, holds_element,
    is_long_vr, scan_end, scan_taken, value_len, ElementView, ScanEnd, META_GROUP,
};
use crate::dicom::preamble::{head_of, PreambleInfoView};
use crate::dicom::stream::{ReadError, StreamView};
use vstd::prelude::*;

verus! {

/// The little-endian bytes of a 16-bit number.
pub open spec fn le16_bytes(x: u16) -> Seq<u8> {
    seq![(x % 256) as u8, (x / 256) as u8]
}

/// The little-endian bytes of a 32-bit number.
pub open spec fn le32_bytes(x: u32) -> Seq<u8> {
    seq![
        (x % 256) as u8,
        ((x / 256) % 256) as u8,
        ((x / 65536) % 256) as u8,
        (x / 16777216) as u8,
    ]
}

/// The length field of an element: 2 bytes, or 2 reserved bytes of zero and
/// 4 bytes, as its value representation asks.
pub open spec fn length_field(e: ElementView) -> Seq<u8> {
    if is_long_vr(e.vr) {
        seq![0u8, 0u8] + le32_bytes(e.length)
    } else {
        le16_bytes(e.length as u16)
    }
}

/// An element in Explicit VR Little Endian encoding.
pub open spec fn encoded(e: ElementView) -> Seq<u8> {
    le16_bytes(e.tag.0) + le16_bytes(e.tag.1) + e.vr + length_field(e) + e.value
}

/// True for the elements that have an encoding: the code has two bytes, the
/// value is as long as the element declares, and the length fits its field.
pub open spec fn encodable(e: ElementView) -> bool {
    &&& e.vr.len() == 2
    &&& e.value.len() == e.length
    &&& !is_long_vr(e.vr) ==> e.length <= 0xFFFF
}

/// Decoding inverts encoding: a stream that begins with the encoding of an
/// element yields that element, tag, code, length and value, and the reader
/// takes the bytes of the encoding and no more, whatever follows them. The
/// length is read from 4 bytes behind 2 reserved bytes where the code asks
/// for it, and from 2 bytes otherwise.
pub proof fn lemma_decode_encoded(e: ElementView, tail: Seq<u8>, s: StreamView)
    requires
        encodable(e),
        s.rest == encoded(e) + tail,
    ensures
        holds_element(s.rest),
        first_element(s.rest) == e,
        header_len(s.rest) == (if is_long_vr(e.vr) { 12nat } else { 8nat }),
        value_len(s.rest) == e.length,
        element_of(s) == Ok::<Option<ElementView>, ReadError>(Some(e)),
        element_taken(s) == encoded(e).len(),
        s.advance(element_taken(s) as int).rest == tail,
{
    let b = s.rest;
    let head = le16_bytes(e.tag.0) + le16_bytes(e.tag.1) + e.vr + length_field(e);
    assert(b =~= head + e.value + tail);
    assert(b.subrange(4, 6) =~= e.vr);
    assert(head.len() == header_len(b));
    assert(value_len(b) == e.length);
    assert(b.subrange(header_len(b) as int, element_len(b) as int) =~= e.value);
    assert(b.skip(element_len(b) as int) =~= tail);
}

/// An element whose value is cut short is an error, never an element and
/// never a clean end: a truncation, or the failure of the source where the
/// stream has one.
pub proof fn lemma_short_value_is_error(s: StreamView)
    requires
        s.rest.len() >= 6,
        s.rest.len() >= header_len(s.rest),
        s.rest.len() < element_len(s.rest),
    ensures
        element_of(s) == Err::<Option<ElementView>, ReadError>(s.short_error()),
        s.fault is None ==> element_of(s) == Err::<Option<ElementView>, ReadError>(
            ReadError::UnexpectedEof,
        ),
{
}

/// A stream that ends cleanly before its first byte has neither preamble nor
/// prefix, and that is no error. One that ends after 1 to 127 bytes is in
/// error.
pub proof fn lemma_head_of_short_stream(s: StreamView)
    requires
        s.rest.len() < 128,
    ensures
        s.rest.len() == 0 && s.fault is None ==> head_of(s) == Ok::<
            PreambleInfoView,
            ReadError,
        >(PreambleInfoView { preamble: None, prefix: None }),
        s.rest.len() > 0 ==> head_of(s) == Err::<PreambleInfoView, ReadError>(s.short_error()),
        s.rest.len() > 0 && s.fault is None ==> head_of(s) == Err::<
            PreambleInfoView,
            ReadError,
        >(ReadError::UnexpectedEof),
{
}

/// A scan that meets an element outside the meta group first finds nothing
/// and reads nothing past that element.
pub proof fn lemma_scan_stops_outside_meta_group(s: StreamView)
    requires
        holds_element(s.rest),
        first_element(s.rest).tag.0 != META_GROUP,
    ensures
        scan_end(s) == ScanEnd::GroupMismatch,
        scan_taken(s) == element_len(s.rest),
{
}

/// A scan of a stream that has ended cleanly finds nothing, reads nothing,
/// and is no error.
pub proof fn lemma_scan_of_ended_stream(s: StreamView)
    requires
        s.rest.len() == 0,
        s.fault is None,
    ensures
        scan_end(s) == ScanEnd::EndOfStream,
        scan_taken(s) == 0,
{
}

/// Short reads change nothing: two streams with the same bytes and the same
/// ending hold the same head, the same element and the same scan, however
/// many bytes each hands out per read.
pub proof fn lemma_chunk_is_immaterial(s: StreamView, t: StreamView)
    requires
        s.rest == t.rest,
        s.fault == t.fault,
    ensures
        head_of(s) == head_of(t),
        element_of(s) == element_of(t),
        element_taken(s) == element_taken(t),
        scan_end(s) == scan_end(t),
        scan_taken(s) == scan_taken(t),
    decreases s.rest.len(),
{
    if holds_element(s.rest) {
        let n = element_len(s.rest) as int;
        lemma_chunk_is_immaterial(s.advance(n), t.advance(n));
    }
}

} // verus!
