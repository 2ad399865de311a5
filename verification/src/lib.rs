//! Coordination core of a shared-canvas broadcast server.
//!
//! A [`models::server_models::CanvasServer`] owns the rooms and the sessions
//! registered in them and decides who receives each message; a
//! [`models::websocket_session::WsCanvasSession`] is the state machine of one
//! connection. Neither performs any I/O: every operation returns the messages
//! and commands that the surrounding transport layer has to carry out.

pub mod models;
pub mod state;
