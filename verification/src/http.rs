//! The stages a request passes through, leaves first: the path resolver,
//! the request parser, the content classifier, the response builder, and the
//! decisions of the connection handler that ties them together.

pub mod path;
pub mod request;
pub mod content;
pub mod response;
pub mod handler;
