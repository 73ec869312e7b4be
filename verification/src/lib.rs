//! A collaborative pixel canvas: painters each own a tile, the compositor lays
//! the tiles out on a growing square grid, and a session protocol decides what
//! every connection is sent.

pub mod buffer;
pub mod grid;
pub mod image;
pub mod request;
pub mod server;
pub mod session;
pub mod text;
