//! A codec for a line-oriented chat protocol: raw lines become structured
//! messages, and messages become the exact text of their line again.
pub mod codec_laws;
pub mod command;
pub mod input_handler;
pub mod message_handler;
pub mod messages;
pub mod text;
