//! Host-side support for WIT-shaped imports of core WebAssembly modules.

pub mod resources;
