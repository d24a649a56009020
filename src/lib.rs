//! Read-only decoding of ESP application images: a fixed header followed by
//! length-prefixed code segments, exposed as borrowed views of the buffer.

pub mod layout;
pub mod image;
pub mod lemmas;
