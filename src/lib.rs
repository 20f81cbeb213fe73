//! Manifest store for synchronized directory pairs: the manifest model,
//! its normalization before saving, and its JSON encoding and decoding.
pub mod codec;
pub mod hello;
pub mod json;
pub mod manifest;
pub mod store;
