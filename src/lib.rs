pub mod wire;
pub mod label;
pub mod name;
pub mod request;
pub mod handler;
pub mod resourcerecord;
pub mod response;
pub mod round_trip;
pub mod server;
