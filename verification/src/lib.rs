//! A configuration-driven HTTP edge server, as a library of decisions: for each
//! URL prefix it serves files from below a confinement root or forwards to an
//! upstream. Everything here works on plain values and on header maps; reading
//! files and talking to sockets is left to the program around it.

pub mod cli;
pub mod config;
pub mod handlers;
pub mod headers;
pub mod listing;
pub mod middleware;
pub mod paths;
pub mod proxy;
pub mod router;
pub mod server;
pub mod text;
pub mod utils;
