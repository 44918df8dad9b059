pub mod determinism;
pub mod fast_lora;
