//! A chat service in rooms: people log in to a room with a name and a
//! password, receive a signed token, and chat over a WebSocket with the
//! other people in the room; messages are stored and can be listed.
//!
//! This crate holds the service's decisions and formats, each with its
//! contract: the room registry that routes messages (`room`), the login
//! steps, the connection's frames, the answers of each request and their
//! JSON bodies (`controller`), the order of keys (`keys`) and the text
//! forms used in bodies (`text`).

pub mod controller;
pub mod keys;
pub mod room;
pub mod text;
