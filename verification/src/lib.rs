//! A synchronous HTTP/1.x message core: framing decisions, head and chunk
//! codecs, streaming body models and the per-connection rules of a server
//! and a client, stated as contracts and proved.

pub mod body;
pub mod bytes;
pub mod chunked;
pub mod client;
pub mod header;
pub mod input;
pub mod message;
pub mod read_queue;
pub mod request;
pub mod response;
pub mod server;
pub mod upgrade;

pub use body::{Body, HttpBody};
pub use message::{Method, Request, Response, StatusCode, Uri, Version};
