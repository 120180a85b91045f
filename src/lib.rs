//! A per-user Go toolchain version manager: version identifiers, the
//! registry of installed versions, the activation pointer and the
//! search-path precedence check.
pub mod text;
pub mod version;
pub mod registry;
pub mod system;
pub mod activation;
pub mod download;
pub mod cli;
