pub mod chat;
pub mod client_state;
pub mod vehicle;
