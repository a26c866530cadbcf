//! A statistical sampling profiler core: bounded sample buffering,
//! profile accumulation, stack-tree and table deduplication, and the
//! session configuration rules, each stated and proved with Verus.

pub mod configuration;
pub mod marker;
pub mod profile;
pub mod profile_serializer;
pub mod ringbuffer;
pub mod sample;
pub mod serialization;
pub mod session;
