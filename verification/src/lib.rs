//! A JSON-RPC message transport library: a length-prefixed framing codec,
//! a structural message model (requests, responses, notifications), FIFO
//! queues bridging I/O threads to the application, and a two-phase shutdown
//! handshake.

pub mod ast;
pub mod codec;
pub mod connection;
pub mod json;
pub mod msg;
pub mod parse;
pub mod render;
pub mod text;

pub use ast::{AstBlock, ParseAstInRangeParams, ParseAstInRangeResponse, Position};
pub use connection::ProtocolError;
pub use json::JsonValue;
pub use msg::{Message, Notification, Request, RequestId, Response, ResponseError};
