//! A compact, nibble- and bit-addressable binary wire codec.
//!
//! Readers and writers work over borrowed byte buffers. Values are laid out
//! most-significant nibble (and bit) first; variable-length integers use
//! three payload bits per nibble with the high bit as continuation flag.

pub mod bit_buf;
pub mod bits;
pub mod buf_writer;
pub mod error;
pub mod laws;
pub mod nibble;
pub mod nibble_buf;
pub mod serdes;
pub mod text;
pub mod uri;
pub mod vec;
pub mod vlu;

pub use buf_writer::{BufWriter, SerializeShrinkWrap};
pub use error::Error;
pub use nibble_buf::{NibbleBuf, NibbleBufIter, NibbleBufMut};
pub use uri::{Uri, UriIter, Vlu4U32Array, Vlu4U32ArrayIter};
pub use vec::{Vlu4Vec, Vlu4VecBuilder};
pub use vlu::{Vlu16N, Vlu32N};
