//! A small HTTP/1.1 request-line and query-string decoder whose results are
//! views into the caller's buffer.
pub mod method;
pub mod query_string;
pub mod request;
pub mod text;
pub mod website_handler;
