//! Splat import, per-splat evidence and training diagnostics.

pub mod cli;
pub mod compressed;
pub mod confidence;
pub mod config;
pub mod count;
pub mod diagnostics;
pub mod eval;
pub mod evidence;
pub mod header;
pub mod import;
pub mod launch;
pub mod render;
pub mod scalar;
pub mod splat_data;
pub mod text;
pub mod ui;
