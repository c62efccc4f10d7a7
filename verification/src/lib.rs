//! Verified core of a small instanced 2D/3D rendering engine: draw keys and
//! commands, the ordering and batching of commands into shared vertex, index
//! and instance buffers, the plan of render-pass operations that draws them
//! with as few pipeline and bind-group switches as possible, the growth policy
//! of the dynamic GPU buffers, and the bookkeeping of the renderer state.
pub mod frontend;
pub mod order;
pub mod batch;
pub mod buffer;
pub mod builders;
pub mod bytes;
pub mod state;
pub mod plan;

pub use frontend::{Command, DrawKey, SimpleCommand, NO_MATERIAL};
