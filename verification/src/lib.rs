pub mod protocol;
pub mod message;
pub mod event_1;
pub mod internal;
