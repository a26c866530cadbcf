//! The flat output layout and the serializer that fills it.

pub mod profile;
pub mod serializer;
