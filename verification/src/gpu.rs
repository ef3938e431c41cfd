//! The GPU side of the network, as far as it is decided on the host: which
//! shapes each kernel accepts, how many workgroups it is dispatched with, which
//! uniforms it is given, and how scratch buffers are reused.
pub mod buffer_pool;
pub mod layer;
pub mod loss;
pub mod matrix;
