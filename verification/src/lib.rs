//! Verified core of the regional-routing fix for Discord.

pub mod texto;
pub mod sessao;
pub mod routing;
pub mod utf16;
pub mod processos;
pub mod discord;
pub mod pac;
pub mod caminhos;
pub mod linux;
pub mod cli;
pub mod pool;
pub mod socks;
pub mod windows;
pub mod interface;
