pub mod laws;
pub mod meta;
pub mod preamble;
pub mod report;
pub mod stream;
pub mod text;

pub use meta::{read_element_explicit_le, read_transfer_syntax_uid, DataElement};
pub use preamble::{read_preamble_and_prefix, Preamble, PreambleInfo, Prefix};
