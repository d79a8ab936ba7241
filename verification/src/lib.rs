//! The decisions behind a viewer for QEMU D-Bus displays.

pub mod bus;
pub mod cli;
pub mod layout_laws;
pub mod numeral;
pub mod text;
pub mod viewer;
