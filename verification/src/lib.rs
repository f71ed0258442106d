//! The logic of a relay server: machines that cannot reach each other directly both connect to
//! the server, and it hands on what each of them sends to the other.
//!
//! - [`startup`] reads lists of addresses, ports and the like when the server starts.
//! - [`key`] decides on the key that connections have to know.
//! - [`pairing`] decides who is let in and brings the two sides of a relay together.
//! - [`relay`] counts what is relayed and decides how fast it may be.
//! - [`console`] carries out the commands that come in over the loopback interface, with
//!   [`settings`] and [`usage`]; [`commands`] says what they do, as they are typed.
//! - [`api`] and [`request`] are the interface through which the whitelist is kept.
//! - [`text`], [`number`], [`encoding`] and [`table`] are what all of this is made of.
pub mod api;
pub mod commands;
pub mod console;
pub mod encoding;
pub mod key;
pub mod number;
pub mod pairing;
pub mod relay;
pub mod request;
pub mod settings;
pub mod startup;
pub mod table;
pub mod text;
pub mod usage;
