//! A verified implementation of the Jupyter kernel wire protocol:
//! envelope framing and HMAC signing, the per-channel message content
//! model, the execution-cell tracker, and the pure decision logic of the
//! channel listeners.

pub mod connection_file;
pub mod crypto;
pub mod external;
pub mod handlers;
pub mod json;
pub mod kernel_info;
pub mod messages;
pub mod register_kernel;
