//! The control protocol shared by client and server: messages, service
//! descriptions, their encodings and the HMAC proof of the shared key.

pub mod crypto;
pub mod encoding;
pub mod msg;
pub mod net;
pub mod tls;
