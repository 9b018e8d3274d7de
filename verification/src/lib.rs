//! The logic of a reverse proxy for Minecraft: Bedrock Edition: the Query
//! Protocol codec, the server and client sides of a query, and the decisions of
//! the proxy core.

pub mod address_laws;
pub mod answer_laws;
pub mod buffer;
pub mod codec_laws;
pub mod config;
pub mod error;
pub mod exchange;
pub mod exchange_laws;
mod foreign;
pub mod handler;
pub mod ip;
pub mod ip_lemmas;
pub mod kv;
pub mod packet;
pub mod proxy;
pub mod response;
pub mod response_laws;
pub mod session_laws;
pub mod socket;
pub mod text;
pub mod view_laws;
pub mod wire_laws;
