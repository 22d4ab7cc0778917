//! The 128-byte preamble and the 4-byte prefix at the head of a file.

use crate::dicom::stream::{fill, ByteStream, ReadError, StreamView};
use crate::dicom::text::{ascii_text, decode_lossy, is_ascii_bytes, lemma_ascii_is_utf8};
use vstd::prelude::*;
use vstd::utf8::*;

verus! {

/// The prefix of a DICOM file: the ASCII letters `DICM`.
pub open spec fn dicm() -> Seq<u8> {
    seq![0x44u8, 0x49u8, 0x43u8, 0x4Du8]
}

/// NUL, or an ASCII control character.
pub open spec fn is_control_byte(b: u8) -> bool {
    b < 0x20 || b == 0x7F
}

/// A byte that a preview may hold: NUL, a visible ASCII character, or ASCII
/// white space (space, tab, line feed, form feed, carriage return).
pub open spec fn is_preview_byte(b: u8) -> bool {
    b == 0 || (0x21 <= b <= 0x7E) || b == 0x20 || b == 0x09 || b == 0x0A || b == 0x0C || b
        == 0x0D
}

/// True when `n` is where the trailing control bytes of `s` begin.
pub open spec fn trim_point(s: Seq<u8>, n: int) -> bool {
    &&& 0 <= n <= s.len()
    &&& forall|i: int| n <= i < s.len() ==> is_control_byte(#[trigger] s[i])
    &&& n > 0 ==> !is_control_byte(s[n - 1])
}

/// The length of `s` without its trailing control bytes.
pub open spec fn trimmed_len(s: Seq<u8>) -> nat
    decreases s.len(),
{
    if s.len() == 0 {
        0
    } else if is_control_byte(s.last()) {
        trimmed_len(s.drop_last())
    } else {
        s.len()
    }
}

/// The preview of `s`: its bytes as characters, without the trailing control
/// characters.
pub open spec fn preview_text(s: Seq<u8>) -> Seq<char> {
    ascii_text(s.take(trimmed_len(s) as int))
}

/// True when every byte of `s` may stand in a preview.
pub open spec fn previewable(s: Seq<u8>) -> bool {
    forall|i: int| 0 <= i < s.len() ==> is_preview_byte(#[trigger] s[i])
}

/// `trimmed_len` is the one place where the trailing control bytes begin.
pub proof fn lemma_trimmed_len(s: Seq<u8>, n: int)
    ensures
        trim_point(s, trimmed_len(s) as int),
        trim_point(s, n) ==> n == trimmed_len(s),
    decreases s.len(),
{
    if s.len() > 0 && is_control_byte(s.last()) {
        let t = s.drop_last();
        lemma_trimmed_len(t, n);
        let m = trimmed_len(t) as int;
        assert forall|i: int| m <= i < s.len() implies is_control_byte(#[trigger] s[i]) by {
            if i < t.len() {
                assert(s[i] == t[i]);
            }
        }
        if trim_point(s, n) {
            assert(n < s.len());
            assert forall|i: int| n <= i < t.len() implies is_control_byte(#[trigger] t[i]) by {
                assert(t[i] == s[i]);
            }
            assert(trim_point(t, n));
        }
    }
}

fn is_control(b: u8) -> (r: bool)
    ensures
        r == is_control_byte(b),
{
    b < 0x20 || b == 0x7F
}

fn is_preview(b: u8) -> (r: bool)
    ensures
        r == is_preview_byte(b),
{
    b == 0 || (0x21 <= b && b <= 0x7E) || b == 0x20 || b == 0x09 || b == 0x0A || b == 0x0C
        || b == 0x0D
}

/// The first 128 bytes of a file.
#[derive(Debug, Clone, Copy, PartialEq, Eq)]
pub struct Preamble([u8; 128]);

impl View for Preamble {
    type V = Seq<u8>;

    closed spec fn view(&self) -> Seq<u8> {
        self.0@
    }
}

impl Preamble {
    pub fn new(bytes: [u8; 128]) -> (p: Self)
        ensures
            p@ == bytes@,
    {
        Preamble(bytes)
    }

    pub fn as_bytes(&self) -> (bytes: &[u8; 128])
        ensures
            bytes@ == self@,
    {
        &self.0
    }

    /// True when every byte is zero, as the format recommends.
    pub fn is_zeroed(&self) -> (zeroed: bool)
        ensures
            zeroed == (forall|i: int| 0 <= i < 128 ==> self@[i] == 0),
    {
        let mut i: usize = 0;
        while i < 128
            invariant
                i <= 128,
                forall|j: int| 0 <= j < i ==> self@[j] == 0,
            decreases 128 - i,
        {
            if self.0[i] != 0 {
                assert(self@[i as int] != 0);
                return false;
            }
            i += 1;
        }
        true
    }

    /// The preamble as text, without its trailing control characters, where
    /// it holds nothing but NUL, visible ASCII and ASCII white space.
    pub fn ascii_preview(&self) -> (preview: Option<String>)
        ensures
            preview is Some <==> previewable(self@),
            preview matches Some(text) ==> text@ == preview_text(self@),
    {
        let mut i: usize = 0;
        while i < 128
            invariant
                i <= 128,
                forall|j: int| 0 <= j < i ==> is_preview_byte(#[trigger] self@[j]),
            decreases 128 - i,
        {
            if !is_preview(self.0[i]) {
                return None;
            }
            i += 1;
        }
        let mut end: usize = 128;
        while end > 0 && is_control(self.0[end - 1])
            invariant
                end <= 128,
                forall|j: int| end <= j < 128 ==> is_control_byte(#[trigger] self@[j]),
            decreases end,
        {
            end -= 1;
        }
        let kept = vstd::slice::slice_subrange(self.0.as_slice(), 0, end);
        proof {
            lemma_trimmed_len(self@, end as int);
            assert forall|j: int| 0 <= j < kept@.len() implies #[trigger] kept@[j] < 128 by {
                assert(is_preview_byte(self@[j]));
            }
            lemma_ascii_is_utf8(kept@);
        }
        Some(decode_lossy(kept))
    }

    /// The number of bytes that are not zero.
    pub fn non_zero_len(&self) -> (n: usize)
        ensures
            n == self@.filter(|b: u8| b != 0).len(),
    {
        let mut n: usize = 0;
        let mut i: usize = 0;
        proof {
            reveal(Seq::filter);
            assert(self@.take(0).len() == 0);
        }
        while i < 128
            invariant
                i <= 128,
                n <= i,
                n == self@.take(i as int).filter(|b: u8| b != 0).len(),
            decreases 128 - i,
        {
            proof {
                reveal(Seq::filter);
                assert(self@.take(i + 1).drop_last() =~= self@.take(i as int));
            }
            if self.0[i] != 0 {
                n += 1;
            }
            i += 1;
        }
        assert(self@.take(128) =~= self@);
        n
    }
}

/// The 4 bytes that follow the preamble.
#[derive(Debug, Clone, Copy, PartialEq, Eq)]
pub struct Prefix([u8; 4]);

impl View for Prefix {
    type V = Seq<u8>;

    closed spec fn view(&self) -> Seq<u8> {
        self.0@
    }
}

impl Prefix {
    pub fn new(bytes: [u8; 4]) -> (p: Self)
        ensures
            p@ == bytes@,
    {
        Prefix(bytes)
    }

    pub fn as_bytes(&self) -> (bytes: &[u8; 4])
        ensures
            bytes@ == self@,
    {
        &self.0
    }

    /// The prefix as text, where its bytes are valid UTF-8.
    pub fn as_str(&self) -> (text: Option<&str>)
        ensures
            text is Some <==> valid_utf8(self@),
            text matches Some(s) ==> s@ == decode_utf8(self@),
    {
        std::str::from_utf8(self.0.as_slice()).ok()
    }

    /// True when the prefix is the one of a DICOM file.
    pub fn is_dicom(&self) -> (yes: bool)
        ensures
            yes == (self@ == dicm()),
    {
        let yes = self.0[0] == 0x44 && self.0[1] == 0x49 && self.0[2] == 0x43 && self.0[3]
            == 0x4D;
        proof {
            if yes {
                assert(self@ =~= dicm());
            }
        }
        yes
    }
}

/// What the head of a stream held: the preamble and the prefix, each as far
/// as the stream reached.
#[derive(Debug, Clone, Copy, PartialEq, Eq)]
pub struct PreambleInfo {
    pub preamble: Option<Preamble>,
    pub prefix: Option<Prefix>,
}

/// A `PreambleInfo` as the bytes it holds.
pub struct PreambleInfoView {
    pub preamble: Option<Seq<u8>>,
    pub prefix: Option<Seq<u8>>,
}

impl View for PreambleInfo {
    type V = PreambleInfoView;

    open spec fn view(&self) -> PreambleInfoView {
        PreambleInfoView {
            preamble: match self.preamble {
                Some(p) => Some(p@),
                None => None,
            },
            prefix: match self.prefix {
                Some(p) => Some(p@),
                None => None,
            },
        }
    }
}

impl Default for PreambleInfo {
    fn default() -> (info: Self)
        ensures
            info.preamble is None,
            info.prefix is None,
    {
        PreambleInfo { preamble: None, prefix: None }
    }
}

/// What the head of a stream holds.
///
/// A stream that ends cleanly before its first byte has neither preamble nor
/// prefix. One that gives out inside the preamble is in error. One that
/// holds the preamble and ends cleanly before or inside the prefix has a
/// preamble and no prefix. The failure of the source is an error wherever it
/// cuts one of the two short.
pub open spec fn head_of(s: StreamView) -> Result<PreambleInfoView, ReadError> {
    if s.rest.len() >= 132 {
        Ok(
            PreambleInfoView {
                preamble: Some(s.rest.take(128)),
                prefix: Some(s.rest.subrange(128, 132)),
            },
        )
    } else if s.fault is Some {
        Err(s.short_error())
    } else if s.rest.len() >= 128 {
        Ok(PreambleInfoView { preamble: Some(s.rest.take(128)), prefix: None })
    } else if s.rest.len() == 0 {
        Ok(PreambleInfoView { preamble: None, prefix: None })
    } else {
        Err(ReadError::UnexpectedEof)
    }
}

/// Reads the preamble and the prefix from the head of a stream, taking at
/// most 132 bytes from it. The bytes are handed back as they are: nothing is
/// made of what they hold.
pub fn read_preamble_and_prefix(reader: &mut ByteStream) -> (r: Result<PreambleInfo, ReadError>)
    ensures
        match r {
            Ok(info) => head_of(old(reader)@) == Ok::<PreambleInfoView, ReadError>(info@),
            Err(e) => head_of(old(reader)@) == Err::<PreambleInfoView, ReadError>(e),
        },
        final(reader)@ == old(reader)@.advance(old(reader)@.available(132) as int),
{
    let ghost s = reader@;
    let mut info = PreambleInfo::default();

    let mut preamble = [0u8; 128];
    match fill(reader, &mut preamble) {
        Ok(true) => {
            assert(preamble@ =~= s.rest.take(128));
            info.preamble = Some(Preamble::new(preamble));
        },
        Ok(false) => {
            return Ok(info);
        },
        Err(e) => {
            return Err(e);
        },
    }

    let mut prefix = [0u8; 4];
    let filled = fill(reader, &mut prefix);
    proof {
        let got = s.advance(128).available(4) as int;
        assert(s.rest.skip(128).skip(got) =~= s.rest.skip(128 + got));
    }
    match filled {
        Ok(true) => {
            assert(prefix@ =~= s.rest.subrange(128, 132));
            info.prefix = Some(Prefix::new(prefix));
        },
        Ok(false) => {},
        Err(ReadError::UnexpectedEof) => {},
        Err(e) => {
            return Err(e);
        },
    }

    Ok(info)
}

} // verus!
