//! A verified streaming codec for the x-user-defined web encoding.
//!
//! The codec converts between raw bytes in this single-byte legacy encoding
//! and Unicode text, under a streaming, bounded-buffer contract: each call
//! walks its source, checks destination space before every write through a
//! space-checked destination handle, and returns an outcome together with
//! exact consumed and written counts, so that the caller can resume with the
//! unconsumed remainder of the source on the next call.

pub mod handles;
pub mod x_user_defined;

pub use x_user_defined::DecoderResult;
pub use x_user_defined::EncoderResult;
pub use x_user_defined::UserDefinedDecoder;
pub use x_user_defined::UserDefinedEncoder;
