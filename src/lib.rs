//! A self-describing framing for compressed byte payloads.
//!
//! A frame is an ASCII token naming the algorithm, a `;`, the body length as a
//! base-128 variable-length integer, and the compressed body itself.

pub mod codec;
pub mod compress;
pub mod serialize;
pub mod varnum;

pub use compress::{
    bytes_wanted, decode_payload, parse_frame, unpack, Compression, CompressionResult, Frame,
    FrameError,
};
pub use serialize::{Deserializer, RawBytes};
pub use varnum::{read_varnum, write_varnum};
