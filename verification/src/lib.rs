//! A terminal file navigator.
pub mod error;
pub mod globals;
pub mod io;
pub mod log_store;
pub mod logging;
pub mod marks;
pub mod memory;
pub mod navigator;
pub mod notice;
pub mod path;
pub mod path_laws;
pub mod plan;
pub mod plan_laws;
pub mod preview;
pub mod screen;
pub mod session;
pub mod text;
pub mod text_laws;
