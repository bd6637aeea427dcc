pub mod bytes;
pub mod clipboard;
pub mod connection;
pub mod error;
pub mod event;
pub mod event_loop;
pub mod media;
pub mod native;
pub mod pointer;
pub mod registry;
pub mod surface;
pub mod window;
