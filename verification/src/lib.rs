//! A small real-time chat, and a tool that changes texts.
//!
//! The chat is a length-prefixed binary message protocol ([`message`],
//! [`frame`], [`wire`]), the decisions of a server that passes every message
//! on to all the other clients ([`server`]), and the decisions of a client
//! that reads the user and the network at the same time ([`command`],
//! [`interactive`]). The tool applies one of a handful of operations to a
//! text ([`mutation`]). [`text`] holds what they share, and [`greeting`] says
//! hello.
//!
//! The library reads no socket and no file and writes nothing for the user:
//! the program that links it does, and hands over plain values. All that the
//! library asks of its surroundings is the time of day, for the name of a
//! stored image, and the width of the terminal, for the drawing of a table.

pub mod command;
pub mod frame;
pub mod greeting;
pub mod interactive;
pub mod message;
pub mod mutation;
pub mod server;
pub mod text;
pub mod wire;
