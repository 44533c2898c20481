pub mod codec;
pub mod conn;
pub mod dispatch;
pub mod hello;
pub mod registry;
pub mod stream;

pub use codec::ControlPacket;
pub use codec::DecodeError;
pub use codec::StreamId;
pub use stream::StreamMessage;
