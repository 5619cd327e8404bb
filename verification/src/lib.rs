//! Real-time comment relay.
//!
//! A relay keeps every connected client in step with the comments in a
//! store. Each client holds one socket to the relay; the relay subscribes
//! the socket's session to change feeds of the store and forwards what they
//! report. On the client one worker shares the socket among the consumers
//! on the page.
//!
//! The library holds what is decided along the way, each part with its
//! contract:
//!
//! - the messages ([`messages`]) and their two framings, binary
//!   ([`wire`], [`layout`], [`codec`]) and text ([`json`], [`text`],
//!   [`text_codec`]), and the frames that carry them ([`frames`]);
//! - the change feed: its channels, the text of a change, and the life of
//!   a listener ([`channel_listeners`]);
//! - the relay session, from login to close ([`ws`]);
//! - the multiplexer on the client ([`worker`]);
//! - the consumers on the page ([`components`], [`pages`], [`router`],
//!   [`stores`]).
//!
//! Sockets, the store and the page itself are not in the library: it tells
//! its surroundings what to do, and is told what happened.

pub mod channel_listeners;
pub mod codec;
pub mod comments;
pub mod components;
pub mod errors;
pub mod frames;
pub mod json;
pub mod layout;
pub mod messages;
pub mod models;
pub mod pages;
pub mod reactors;
pub mod router;
pub mod stores;
pub mod text;
pub mod text_codec;
pub mod users;
pub mod utils;
pub mod wire;
pub mod worker;
pub mod ws;
