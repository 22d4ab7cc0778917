//! Inspection of the head of a DICOM file: the 128-byte preamble, the 4-byte
//! prefix, and the File Meta Information elements up to the Transfer Syntax
//! UID, all read from a forward-only byte stream.

pub mod dicom;

pub use dicom::meta::{
    read_element_explicit_le, read_transfer_syntax_uid, text_before_nul, uses_32bit_length,
    DataElement,
};
pub use dicom::preamble::{read_preamble_and_prefix, Preamble, PreambleInfo, Prefix};
pub use dicom::report::{preamble_report, prefix_report, PreambleReport, PrefixReport};
pub use dicom::stream::{fill, read_exact, ByteStream, ReadError};
