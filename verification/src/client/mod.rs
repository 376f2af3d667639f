pub mod frame;
pub mod buf;
pub mod codec;
pub mod transport;
pub mod builder;
pub mod laws;
