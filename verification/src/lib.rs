//! A verified library for building and editing a modpack manifest: an
//! in-memory model of the manifest document, three append-only editing
//! operations, and a serializer and parser for the fixed on-disk JSON schema.

pub mod de;
pub mod laws;
pub mod model;
pub mod ser;

pub use model::FileRef;
pub use model::Loader;
pub use model::Manifest;
