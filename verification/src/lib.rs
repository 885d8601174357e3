//! Verified core of the cubic engine: keyboard input tracking, the entity
//! allocator and sparse component stores, and the CPU-side planning of quad
//! batches and of the presentation shell's decisions.

pub mod input;
pub mod quad;
pub mod shell;
pub mod world;
