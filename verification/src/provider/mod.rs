//! Model providers.
pub mod deepseek;
pub mod request_laws;
pub mod stream;
pub mod stream_laws;
pub mod turn;
