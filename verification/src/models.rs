pub mod determinism;
pub mod laws;
pub mod llama;
