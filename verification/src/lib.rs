//! Core of a compiler from quantized computational graphs to zero-knowledge
//! circuit descriptions: graph data model, fixed-point quantization rules,
//! operator classification, circuit-size accounting, witness generation, and
//! a container for finished proofs.

pub mod scale;
pub mod model;
pub mod supportedop;
pub mod graphsettings;
pub mod snark;
pub mod graphwitness;
pub mod runargs;
pub mod circuit;
