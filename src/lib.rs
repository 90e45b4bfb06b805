//! Lazy execution and operation fusion for streams of tensor operations.
pub mod backend;
pub mod description;
pub mod device;
pub mod error;
pub mod index;
pub mod multi;
pub mod processor;
pub mod store;
pub mod stream;
