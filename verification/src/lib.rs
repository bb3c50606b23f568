pub mod app;
pub mod codec;
pub mod server;
pub mod text;
