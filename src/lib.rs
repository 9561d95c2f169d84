//! A registry of numbered shortcuts to named compositor workspaces, with the line protocol
//! that clients speak to it and the batch of compositor directives that it produces.

pub mod hypr;
pub mod path_builder;
pub mod registry;
pub mod request;
pub mod server;
pub mod signature;
pub mod text;
