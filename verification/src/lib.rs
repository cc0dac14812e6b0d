pub mod addr;
pub mod cache;
pub mod envelope;
pub mod error;
pub mod packet;
pub mod ping;
pub mod query;
pub mod resolver;
pub mod service;
pub mod strings;
pub mod text;
pub mod varint;
