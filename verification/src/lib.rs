//! Immutable strings with cheap cloning and zero-copy slicing.
//!
//! The central type is [`Text`]: an immutable sequence of UTF-8 bytes that is
//! either a whole reference-counted buffer or a sub-range of one. Slicing a
//! `Text` never copies; it produces a new handle onto the same buffer.
//! Borrowed `&str` values obtained from string operations on a `Text`'s
//! contents can be lifted back into the sharing scheme when their memory lies
//! inside the originating buffer.

mod lift;
mod order;
mod text;

pub use lift::{lemma_lift_identity, lift_result};
pub use order::lex_cmp_bytes;
pub use text::{is_slice_of, lemma_slicing_flattens, Text};
