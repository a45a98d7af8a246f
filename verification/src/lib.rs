pub mod api;
pub mod auth;
pub mod catalog;
pub mod clock;
pub mod codec;
pub mod crypto;
pub mod engine;
pub mod gateway;
pub mod sigv4;
pub mod string_map;
pub mod text;
