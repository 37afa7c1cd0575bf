pub mod chat;
pub mod client;
pub mod codec;
pub mod file;
pub mod handlers;
pub mod properties;
pub mod protocol;
pub mod room;
pub mod rope;
pub mod user;
pub mod util;
