pub mod text;
pub mod json;
pub mod json_laws;
pub mod frame;
pub mod message;
pub mod queue;
pub mod uri;
pub mod http;
pub mod crypto;
pub mod session;
pub mod args;
pub mod sys;
pub mod manage;
pub mod handshake;
pub mod json_reader;
