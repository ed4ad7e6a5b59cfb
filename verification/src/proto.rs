//! Wire-level message definitions and codecs for the execute call surface.

pub mod execute;
pub mod wire;
