//! A small HTTP/1.1 server core: request parsing, a route table with
//! named-segment templates, and response serialization, all verified.
pub mod http;
pub mod text;
pub mod response;
pub mod router;
pub mod request;
pub mod dispatch;
