//! Decoded-value model and versioned schema envelope for a self-describing
//! runtime, with a verified byte codec: values and schema records round-trip
//! through their wire form, and the envelope validates its magic prefix and
//! version discriminant before anything else is interpreted.

pub mod codec;
pub mod substrate_value;
pub mod value_codec;
pub mod decode_different;
pub mod metadata;
pub mod render;
