//! Decoding of the FastNet instrument bus used by B&G Hydra / H2000 systems.
//!
//! Raw bus bytes are framed, checked and decoded into channel values, and the
//! channel values are projected onto Signal K paths. Every numeric value is
//! carried exactly as a scaled integer; the conversion to SI units is named by
//! a `Conversion` and left to the caller.

pub mod constants;
pub mod decode;
pub mod frame;
pub mod map;
pub mod n2k;
pub mod pgn_map;
pub mod text;
pub mod utils;

pub use decode::{
    decode_ascii_frame, decode_frame, decode_light_frame, DecodedFrame, DecodedValue,
};
pub use frame::FrameBuffer;
pub use map::{channel_map, project, unit_for, ChannelInfo};
pub use utils::calculate_checksum;
