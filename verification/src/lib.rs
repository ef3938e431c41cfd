//! A small neural-network toolkit: dense matrices, the IDX (MNIST) file
//! format, mini-batch planning and the shape discipline of the network layers.
pub mod activations;
pub mod gpu;
pub mod idx;
pub mod matrix;
pub mod mnist_parser;
pub mod network;
pub mod wasm_network;
