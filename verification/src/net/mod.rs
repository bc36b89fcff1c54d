//! What machines of the mesh are called and what they tell each other.

pub mod endpoint;
pub mod sync;
