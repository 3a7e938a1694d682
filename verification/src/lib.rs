pub mod components;
pub mod duplicate;
pub mod error;
pub mod ffi;
pub mod frama_c;
pub mod json;
pub mod linear_invariant;
pub mod mcp;
pub mod names;
pub mod state;
pub mod text;
pub mod topo;
