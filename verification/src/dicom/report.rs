//! What there is to say of a preamble and of a prefix, decided here and put
//! into words by whoever prints it.

use crate::dicom::preamble::{dicm, preview_text, previewable, Preamble, Prefix};
use vstd::prelude::*;
use vstd::utf8::valid_utf8;

verus! {

/// What a preamble holds.
#[derive(Debug)]
pub enum PreambleReport {
    /// Nothing: zeros only, or nothing but control characters.
    Empty,
    /// Text, given without its trailing control characters.
    Text(String),
    /// Bytes that are no text, of which this many are not zero.
    Opaque(usize),
}

/// Says what a preamble holds.
pub fn preamble_report(preamble: &Preamble) -> (report: PreambleReport)
    ensures
        match report {
            PreambleReport::Empty => previewable(preamble@) && preview_text(preamble@).len()
                == 0,
            PreambleReport::Text(text) => previewable(preamble@) && text@ == preview_text(
                preamble@,
            ) && text@.len() > 0,
            PreambleReport::Opaque(n) => !previewable(preamble@) && n == preamble@.filter(
                |b: u8| b != 0,
            ).len(),
        },
{
    match preamble.ascii_preview() {
        Some(preview) => {
            if preview.as_str().is_empty() {
                PreambleReport::Empty
            } else {
                PreambleReport::Text(preview)
            }
        },
        None => PreambleReport::Opaque(preamble.non_zero_len()),
    }
}

/// What a prefix holds.
#[derive(Debug, Clone, Copy, PartialEq, Eq, Structural)]
pub enum PrefixReport {
    /// The prefix of a DICOM file.
    Dicom,
    /// Text, but not that of a DICOM file.
    Other,
    /// Bytes that are not valid UTF-8.
    NotText,
}

/// Says what a prefix holds.
pub fn prefix_report(prefix: &Prefix) -> (report: PrefixReport)
    ensures
        report == (if !valid_utf8(prefix@) {
            PrefixReport::NotText
        } else if prefix@ == dicm() {
            PrefixReport::Dicom
        } else {
            PrefixReport::Other
        }),
{
    match prefix.as_str() {
        Some(_) => {
            if prefix.is_dicom() {
                PrefixReport::Dicom
            } else {
                PrefixReport::Other
            }
        },
        None => PrefixReport::NotText,
    }
}

} // verus!
