//! A device location tracker, verified.
//!
//! The library reads and writes documents ([`parser`], [`value`]), keeps
//! the latest report of a device and a bounded history of reports
//! ([`location`], [`history`], [`store`]), and decides what each request
//! over the wire is answered with ([`http`], [`store`]). Every function
//! states what it returns; the statements are proved.
//!
//! Numbers are kept as they are written ([`number`]): the library never
//! computes with them, so it never rounds them.

pub mod unicode;
pub mod text;
pub mod decimal;
pub mod number;
pub mod value;
pub mod parser;
pub mod roundtrip;
pub mod location;
pub mod history;
pub mod http;
pub mod store;

pub use crate::parser::{parse, JsonError, JsonParser};
pub use crate::value::{JsonObject, JsonValue};
