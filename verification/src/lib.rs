//! A verified core for a two-dimensional, stack-based esoteric language
//! interpreter: sparse program memory, the stepping virtual machine with its
//! opcode set, an optional raster-graphics sub-machine, a variable-rate
//! execution scheduler, and the editing/running session that owns them.

pub mod colors;
pub mod decimal;
pub mod errors;
pub mod graphics;
pub mod history;
pub mod laws;
pub mod scheduler;
pub mod session;
pub mod settings;
pub mod space;
pub mod stdlib;
pub mod text;
pub mod vm;
