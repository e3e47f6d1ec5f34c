//! A directory-scoped key-value store.
//!
//! Values are bound to directories. A lookup made from a working directory
//! walks upward through its ancestors, and a value bound nearer to the working
//! directory overrides one bound higher up.
//!
//! - [`path`]: directory paths in clean form.
//! - [`values`]: the flat mapping that one directory holds.
//! - [`context`]: the store, its lookups and its changes.
//! - [`laws`]: what holds of every store.
//! - [`storage`]: the store as the JSON document of its backing file.
//! - [`arguments`], [`config`]: from raw arguments and environment to a
//!   validated request.
//! - [`effect`]: one operation applied to a store.
//! - [`entries`], [`text`]: the sequences of entries and the strings that the
//!   others are built on.

pub mod arguments;
pub mod config;
pub mod context;
pub mod effect;
pub mod entries;
pub mod laws;
pub mod path;
pub mod storage;
pub mod text;
pub mod values;
