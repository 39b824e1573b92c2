//! The interactive console's state.
pub mod app;
