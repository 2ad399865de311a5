pub mod server_models;
pub mod server_spec;
pub mod session_spec;
pub mod text;
pub mod websocket_session;
