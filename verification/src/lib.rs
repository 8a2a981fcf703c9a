pub mod chat;
pub mod cli;
pub mod config;
pub mod crypto;
pub mod draw;
pub mod file_transfer;
pub mod friends;
pub mod identity;
pub mod laws;
pub mod net;
pub mod protocol;
pub mod screen_laws;
pub mod state;
pub mod swarm;
pub mod table;
pub mod text;
pub mod transfer_laws;
pub mod tui;
