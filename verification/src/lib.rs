//! A minimal container launcher, without its input and output: the registry
//! protocol, the bearer-token challenge and the order of the sandbox's steps,
//! each as a function from plain values to plain values.

pub mod endpoint;
pub mod error;
pub mod image;
pub mod listing;
pub mod order;
pub mod registry;
pub mod sandbox;
pub mod text;
pub mod www_authenticate;

pub use error::ContainerError;
