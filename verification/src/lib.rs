//! An immutable, cheaply shareable string key.
//!
//! The key stores its text as a shared, reference-counted byte buffer that is
//! valid UTF-8 by construction. Cloning a key shares the buffer instead of
//! copying it, while equality, ordering and conversions all behave exactly as
//! they would on the text itself.

pub mod buffer;
pub mod key;
pub mod order;
pub mod scalar;

pub use key::KeyString;
pub use scalar::DeserializationError;
pub use scalar::Scalar;
pub use scalar::ScalarView;
pub use order::byte_lex_lt;
pub use order::char_lex_lt;
