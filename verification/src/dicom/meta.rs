//! Data elements in Explicit VR Little Endian encoding, and the scan of the
//! File Meta Information group for the Transfer Syntax UID.

use crate::dicom::stream::{fill, read_exact, ByteStream, ReadError, StreamView};
use crate::dicom::text::{decode_lossy, utf8_lossy};
use vstd::prelude::*;
use vstd::utf8::{decode_utf8, valid_utf8};

verus! {

/// The group of the File Meta Information elements.
pub const META_GROUP: u16 = 0x0002;

/// The element number of the Transfer Syntax UID within that group.
pub const TRANSFER_SYNTAX_ELEMENT: u16 = 0x0010;

/// One decoded data element. `length` is the length that the element
/// declares, and `value` holds that many bytes.
#[derive(Debug)]
pub struct DataElement {
    pub tag: (u16, u16),
    pub vr: [u8; 2],
    pub length: u32,
    pub value: Vec<u8>,
}

/// A data element as plain values.
pub struct ElementView {
    pub tag: (u16, u16),
    pub vr: Seq<u8>,
    pub length: u32,
    pub value: Seq<u8>,
}

impl View for DataElement {
    type V = ElementView;

    open spec fn view(&self) -> ElementView {
        ElementView { tag: self.tag, vr: self.vr@, length: self.length, value: self.value@ }
    }
}

impl Clone for DataElement {
    fn clone(&self) -> (copy: Self)
        ensures
            copy@ == self@,
    {
        DataElement {
            tag: (self.tag.0, self.tag.1),
            vr: self.vr,
            length: self.length,
            value: self.value.clone(),
        }
    }
}

impl DataElement {
    /// The value is as long as the element declares.
    pub open spec fn wf(&self) -> bool {
        self.value@.len() == self.length
    }
}

/// The 16-bit number whose little-endian bytes are `b0`, `b1`.
pub open spec fn le16(b0: u8, b1: u8) -> u16 {
    (b0 as int + 256 * (b1 as int)) as u16
}

/// The 32-bit number whose little-endian bytes are `b0` to `b3`.
pub open spec fn le32(b0: u8, b1: u8, b2: u8, b3: u8) -> u32 {
    (b0 as int + 256 * (b1 as int) + 65536 * (b2 as int) + 16777216 * (b3 as int)) as u32
}

/// True when `vr` is the two ASCII letters `c0`, `c1`.
pub open spec fn is_code(vr: Seq<u8>, c0: u8, c1: u8) -> bool {
    vr.len() == 2 && vr[0] == c0 && vr[1] == c1
}

/// True for the value representations whose length field has 4 bytes and
/// follows 2 reserved bytes: OB, OD, OF, OL, OW, SQ, UC, UR, UT and UN. Every
/// other code has a length field of 2 bytes.
pub open spec fn is_long_vr(vr: Seq<u8>) -> bool {
    ||| is_code(vr, 0x4F, 0x42)  // OB
    ||| is_code(vr, 0x4F, 0x44)  // OD
    ||| is_code(vr, 0x4F, 0x46)  // OF
    ||| is_code(vr, 0x4F, 0x4C)  // OL
    ||| is_code(vr, 0x4F, 0x57)  // OW
    ||| is_code(vr, 0x53, 0x51)  // SQ
    ||| is_code(vr, 0x55, 0x43)  // UC
    ||| is_code(vr, 0x55, 0x52)  // UR
    ||| is_code(vr, 0x55, 0x54)  // UT
    ||| is_code(vr, 0x55, 0x4E)  // UN
}

/// The number of bytes before the value of the element at the head of `s`:
/// tag, code and length field.
pub open spec fn header_len(s: Seq<u8>) -> nat
    recommends
        s.len() >= 6,
{
    if is_long_vr(s.subrange(4, 6)) {
        12
    } else {
        8
    }
}

/// The length that the element at the head of `s` declares for its value.
pub open spec fn value_len(s: Seq<u8>) -> nat
    recommends
        s.len() >= 6,
        s.len() >= header_len(s),
{
    if is_long_vr(s.subrange(4, 6)) {
        le32(s[8], s[9], s[10], s[11]) as nat
    } else {
        le16(s[6], s[7]) as nat
    }
}

/// The number of bytes that the element at the head of `s` takes in all.
pub open spec fn element_len(s: Seq<u8>) -> nat
    recommends
        s.len() >= 6,
        s.len() >= header_len(s),
{
    header_len(s) + value_len(s)
}

/// True when `s` begins with a whole element.
pub open spec fn holds_element(s: Seq<u8>) -> bool {
    s.len() >= 6 && s.len() >= header_len(s) && s.len() >= element_len(s)
}

/// The element at the head of `s`.
pub open spec fn first_element(s: Seq<u8>) -> ElementView
    recommends
        holds_element(s),
{
    ElementView {
        tag: (le16(s[0], s[1]), le16(s[2], s[3])),
        vr: s.subrange(4, 6),
        length: value_len(s) as u32,
        value: s.subrange(header_len(s) as int, element_len(s) as int),
    }
}

/// What reading one element from a stream returns: the element at its head;
/// nothing, where the stream ends cleanly before the first byte; an error,
/// where the stream gives out anywhere inside the element.
pub open spec fn element_of(s: StreamView) -> Result<Option<ElementView>, ReadError> {
    if holds_element(s.rest) {
        Ok(Some(first_element(s.rest)))
    } else if s.rest.len() == 0 && s.fault is None {
        Ok(None)
    } else {
        Err(s.short_error())
    }
}

/// The number of bytes that reading one element takes from a stream: those
/// of the element, or all there are where they do not make an element.
pub open spec fn element_taken(s: StreamView) -> nat {
    if holds_element(s.rest) {
        element_len(s.rest)
    } else {
        s.rest.len()
    }
}

/// True for the value representations with a 4-byte length field.
pub fn uses_32bit_length(vr: &[u8; 2]) -> (long: bool)
    ensures
        long == is_long_vr(vr@),
{
    let c0 = vr[0];
    let c1 = vr[1];
    (c0 == 0x4F && (c1 == 0x42 || c1 == 0x44 || c1 == 0x46 || c1 == 0x4C || c1 == 0x57)) || (c0
        == 0x53 && c1 == 0x51) || (c0 == 0x55 && (c1 == 0x43 || c1 == 0x52 || c1 == 0x54 || c1
        == 0x4E))
}

fn u16_from_le(b0: u8, b1: u8) -> (x: u16)
    ensures
        x == le16(b0, b1),
{
    let lo: u16 = b0 as u16;
    let hi: u16 = b1 as u16;
    lo + 256 * hi
}

fn u32_from_le(b0: u8, b1: u8, b2: u8, b3: u8) -> (x: u32)
    ensures
        x == le32(b0, b1, b2, b3),
{
    let x0: u32 = b0 as u32;
    let x1: u32 = b1 as u32;
    let x2: u32 = b2 as u32;
    let x3: u32 = b3 as u32;
    x0 + 256 * x1 + 65536 * x2 + 16777216 * x3
}

/// Turns the clean end that `fill` reports into a truncation: for a field
/// that follows the tag, a stream that has ended is an element cut short.
fn fill_field(reader: &mut ByteStream, buf: &mut [u8]) -> (r: Result<(), ReadError>)
    ensures
        r == old(reader)@.read_exact_result(old(buf)@.len()),
        final(reader)@ == old(reader)@.advance(
            old(reader)@.available(old(buf)@.len()) as int,
        ),
        r is Ok ==> final(buf)@ == old(reader)@.rest.take(old(buf)@.len() as int),
{
    match fill(reader, buf) {
        Ok(true) => Ok(()),
        Ok(false) => Err(ReadError::UnexpectedEof),
        Err(e) => Err(e),
    }
}

/// Reads the next data element, in Explicit VR Little Endian encoding.
///
/// `Ok(None)` is the clean end: the stream had no byte left where the
/// element would begin. A stream that gives out anywhere after that is an
/// error, and so is the failure of its source.
pub fn read_element_explicit_le(reader: &mut ByteStream) -> (r: Result<
    Option<DataElement>,
    ReadError,
>)
    ensures
        match r {
            Ok(Some(e)) => element_of(old(reader)@) == Ok::<Option<ElementView>, ReadError>(
                Some(e@),
            ) && e.wf(),
            Ok(None) => element_of(old(reader)@) == Ok::<Option<ElementView>, ReadError>(None),
            Err(err) => element_of(old(reader)@) == Err::<Option<ElementView>, ReadError>(err),
        },
        final(reader)@ == old(reader)@.advance(element_taken(old(reader)@) as int),
{
    let ghost s = reader@;
    let ghost bytes = s.rest;

    let mut tag_bytes = [0u8; 4];
    match fill(reader, &mut tag_bytes) {
        Ok(true) => {},
        Ok(false) => {
            return Ok(None);
        },
        Err(e) => {
            return Err(e);
        },
    }
    let group = u16_from_le(tag_bytes[0], tag_bytes[1]);
    let element = u16_from_le(tag_bytes[2], tag_bytes[3]);

    let mut vr = [0u8; 2];
    let vr_read = fill_field(reader, &mut vr);
    proof {
        let got = s.advance(4).available(2) as int;
        assert(bytes.skip(4).skip(got) =~= bytes.skip(4 + got));
    }
    match vr_read {
        Ok(()) => {},
        Err(e) => {
            return Err(e);
        },
    }
    assert(vr@ =~= bytes.subrange(4, 6));

    let ghost head = header_len(bytes) as int;
    let length: u32 = if uses_32bit_length(&vr) {
        let mut reserved = [0u8; 2];
        let reserved_read = fill_field(reader, &mut reserved);
        proof {
            let got = s.advance(6).available(2) as int;
            assert(bytes.skip(6).skip(got) =~= bytes.skip(6 + got));
        }
        match reserved_read {
            Ok(()) => {},
            Err(e) => {
                return Err(e);
            },
        }

        let mut len_bytes = [0u8; 4];
        let len_read = fill_field(reader, &mut len_bytes);
        proof {
            let got = s.advance(8).available(4) as int;
            assert(bytes.skip(8).skip(got) =~= bytes.skip(8 + got));
        }
        match len_read {
            Ok(()) => {},
            Err(e) => {
                return Err(e);
            },
        }
        u32_from_le(len_bytes[0], len_bytes[1], len_bytes[2], len_bytes[3])
    } else {
        let mut len_bytes = [0u8; 2];
        let len_read = fill_field(reader, &mut len_bytes);
        proof {
            let got = s.advance(6).available(2) as int;
            assert(bytes.skip(6).skip(got) =~= bytes.skip(6 + got));
        }
        match len_read {
            Ok(()) => {},
            Err(e) => {
                return Err(e);
            },
        }
        let short = u16_from_le(len_bytes[0], len_bytes[1]);
        short as u32
    };

    let mut value = vec![0u8; length as usize];
    if length > 0 {
        let value_read = read_exact(reader, value.as_mut_slice());
        proof {
            let got = s.advance(head).available(length as nat) as int;
            assert(bytes.skip(head).skip(got) =~= bytes.skip(head + got));
        }
        match value_read {
            Ok(()) => {},
            Err(e) => {
                return Err(e);
            },
        }
    }
    assert(value@ =~= bytes.subrange(head, head + length));

    Ok(Some(DataElement { tag: (group, element), vr, length, value }))
}

/// The length of the text at the head of `v`: the number of bytes before
/// the first NUL, or all of them where there is none.
pub open spec fn text_len(v: Seq<u8>) -> nat
    decreases v.len(),
{
    if v.len() == 0 || v[0] == 0 {
        0
    } else {
        1 + text_len(v.drop_first())
    }
}

/// True when `n` is where the text at the head of `v` ends.
pub open spec fn text_end(v: Seq<u8>, n: int) -> bool {
    &&& 0 <= n <= v.len()
    &&& forall|i: int| 0 <= i < n ==> #[trigger] v[i] != 0
    &&& n < v.len() ==> v[n] == 0
}

/// `text_len` is the one place where the text ends.
pub proof fn lemma_text_len(v: Seq<u8>, n: int)
    ensures
        text_end(v, text_len(v) as int),
        text_end(v, n) ==> n == text_len(v),
    decreases v.len(),
{
    if v.len() > 0 && v[0] != 0 {
        let w = v.drop_first();
        lemma_text_len(w, n - 1);
        let m = text_len(w) as int;
        assert forall|i: int| 0 <= i < m + 1 implies #[trigger] v[i] != 0 by {
            if i > 0 {
                assert(v[i] == w[i - 1]);
            }
        }
        if text_end(v, n) {
            assert forall|i: int| 0 <= i < n - 1 implies #[trigger] w[i] != 0 by {
                assert(w[i] == v[i + 1]);
            }
            assert(text_end(w, n - 1));
        }
    }
}

/// The part of `value` before its first NUL: the text of a value that is
/// padded with NUL to an even length.
pub fn text_before_nul(value: &[u8]) -> (text: &[u8])
    ensures
        text@ == value@.take(text_len(value@) as int),
{
    let mut n: usize = 0;
    while n < value.len() && value[n] != 0
        invariant
            n <= value@.len(),
            forall|i: int| 0 <= i < n ==> #[trigger] value@[i] != 0,
        decreases value@.len() - n,
    {
        n += 1;
    }
    proof {
        lemma_text_len(value@, n as int);
    }
    vstd::slice::slice_subrange(value, 0, n)
}

/// How a scan for the Transfer Syntax UID ends.
pub enum ScanEnd {
    /// The element was found; `value` is its value up to the first NUL.
    Found { value: Seq<u8> },
    /// An element of another group came first: the meta group is over.
    GroupMismatch,
    /// The stream ended cleanly between two elements.
    EndOfStream,
    /// The stream gave out inside an element, or its source failed.
    Error { error: ReadError },
}

/// True when a scan goes on after the element `e`: an element of the meta
/// group other than the Transfer Syntax UID.
pub open spec fn scan_goes_on(e: ElementView) -> bool {
    e.tag.0 == META_GROUP && e.tag.1 != TRANSFER_SYNTAX_ELEMENT
}

/// How the scan of a stream ends: at the first element that is the Transfer
/// Syntax UID or lies outside the meta group, or where no element is read.
pub open spec fn scan_end(s: StreamView) -> ScanEnd
    decreases s.rest.len(),
{
    match element_of(s) {
        Err(error) => ScanEnd::Error { error },
        Ok(None) => ScanEnd::EndOfStream,
        Ok(Some(e)) => if e.tag.0 != META_GROUP {
            ScanEnd::GroupMismatch
        } else if e.tag.1 == TRANSFER_SYNTAX_ELEMENT {
            ScanEnd::Found { value: e.value.take(text_len(e.value) as int) }
        } else {
            scan_end(s.advance(element_len(s.rest) as int))
        },
    }
}

/// The number of bytes that the scan takes from a stream: every element up
/// to the one that ends it, that one included.
pub open spec fn scan_taken(s: StreamView) -> nat
    decreases s.rest.len(),
{
    match element_of(s) {
        Ok(Some(e)) => if scan_goes_on(e) {
            element_len(s.rest) + scan_taken(s.advance(element_len(s.rest) as int))
        } else {
            element_len(s.rest)
        },
        _ => element_taken(s),
    }
}

/// What a scan returns for each way it can end.
pub open spec fn scan_result(end: ScanEnd) -> Result<Option<Seq<char>>, ReadError> {
    match end {
        ScanEnd::Found { value } => Ok(Some(utf8_lossy(value))),
        ScanEnd::GroupMismatch => Ok(None),
        ScanEnd::EndOfStream => Ok(None),
        ScanEnd::Error { error } => Err(error),
    }
}

/// Scans the File Meta Information elements for the Transfer Syntax UID.
///
/// The stream stands where the prefix ended. Elements are read one after
/// the other. The first that is the Transfer Syntax UID ends the scan: its
/// value up to the first NUL is returned as text, with U+FFFD in place of
/// what is not valid UTF-8. The first element of another group ends the scan
/// with nothing found, and so does the clean end of the stream. An error of
/// the element reader is handed on as it is. Nothing is read past the
/// element that ends the scan.
pub fn read_transfer_syntax_uid(reader: &mut ByteStream) -> (r: Result<
    Option<String>,
    ReadError,
>)
    ensures
        match r {
            Ok(Some(uid)) => scan_result(scan_end(old(reader)@)) == Ok::<
                Option<Seq<char>>,
                ReadError,
            >(Some(uid@)),
            Ok(None) => scan_result(scan_end(old(reader)@)) == Ok::<
                Option<Seq<char>>,
                ReadError,
            >(None),
            Err(e) => scan_result(scan_end(old(reader)@)) == Err::<
                Option<Seq<char>>,
                ReadError,
            >(e),
        },
        match (r, scan_end(old(reader)@)) {
            (Ok(Some(uid)), ScanEnd::Found { value }) => valid_utf8(value) ==> uid@
                == decode_utf8(value),
            _ => true,
        },
        final(reader)@ == old(reader)@.advance(scan_taken(old(reader)@) as int),
{
    let ghost s = reader@;
    let ghost taken: int = 0;
    assert(s.rest.skip(0) =~= s.rest);
    loop
        invariant
            s == old(reader)@,
            0 <= taken <= s.rest.len(),
            reader@ == s.advance(taken),
            scan_end(s) == scan_end(reader@),
            scan_taken(s) == taken + scan_taken(reader@),
        decreases reader@.rest.len(),
    {
        let ghost here = reader@;
        let next = read_element_explicit_le(reader);
        proof {
            let got = element_taken(here) as int;
            assert(s.rest.skip(taken).skip(got) =~= s.rest.skip(taken + got));
        }
        match next {
            Err(e) => {
                return Err(e);
            },
            Ok(None) => {
                return Ok(None);
            },
            Ok(Some(element)) => {
                if element.tag.0 != META_GROUP {
                    return Ok(None);
                }
                if element.tag.1 == TRANSFER_SYNTAX_ELEMENT {
                    let text = text_before_nul(element.value.as_slice());
                    return Ok(Some(decode_lossy(text)));
                }
                proof {
                    taken = taken + element_len(here.rest);
                }
            },
        }
    }
}

} // verus!
