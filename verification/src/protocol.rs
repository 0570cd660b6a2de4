pub mod writer;
pub mod tea;
pub mod jce;
pub mod protobuf;
pub mod text;
pub mod helper;
pub mod ecdh;
pub mod device;
pub mod network;
pub mod base_client;
pub mod tlv;
pub mod error;
pub mod login;
pub mod session;
