//! The verified core of metsuke.

pub mod bytes;
pub mod count;
pub mod date;
pub mod fetch;
pub mod hex;
pub mod id;
pub mod key;
pub mod names;
mod outside;
pub mod path;
pub mod percent;
pub mod search;
pub mod server;
pub mod table;
pub mod text;
pub mod wire;
