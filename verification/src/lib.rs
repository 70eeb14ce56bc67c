//! A line-delimited stream framing protocol: a codec that turns a raw byte
//! stream into newline-delimited UTF-8 messages and back, a transport that
//! binds the codec to a connection's buffers, and a per-connection pipeline
//! that feeds each decoded request to a service and writes the encoded
//! response back in order.

pub mod codec;
pub mod pipeline;
pub mod service;
pub mod utf8;

pub use codec::Buffer;
pub use codec::CodecError;
pub use codec::LineCodec;
pub use codec::Message;
pub use pipeline::LineProto;
pub use pipeline::Pipeline;
pub use pipeline::PipelineState;
pub use pipeline::Transport;
pub use service::Echo;
pub use service::Service;
pub use service::ServiceError;
pub use utf8::validate_utf8;
