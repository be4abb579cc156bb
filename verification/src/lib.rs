//! A binary data buffer for building and parsing packets of a
//! legacy-style network protocol.
//!
//! The central type, [`DataBuffer`], owns a growable byte store with
//! independent read and write cursors, each carrying a bit-level
//! sub-cursor that byte-level operations implicitly flush.  It encodes
//! and decodes fixed-width integers in big-endian, little-endian and two
//! protocol-specific mixed-endian byte orders, per-byte obfuscated
//! variants, variable-width "smart" integers, three-byte "medium"
//! integers, three string framings, raw bit runs, and a two-pass packet
//! frame whose length field is patched in once the payload size is
//! known.
//!
//! Every encoding is specified by spec functions over mathematical byte
//! sequences, and the round-trip laws - that decoding an encoding yields
//! the original value - are stated and proved in [`codec`], [`bits`],
//! [`text`] and [`buffer`].

pub mod bits;
pub mod buffer;
pub mod codec;
pub mod encodings;
pub mod strings;
pub mod text;

pub use buffer::BufView;
pub use buffer::BufferError;
pub use buffer::DataBuffer;
pub use buffer::PacketHeader;
