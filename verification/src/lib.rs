//! Fast i18next key extraction: verified core logic.
pub mod ast;
pub mod batch;
pub mod calls;
pub mod cleanup;
pub mod comments;
pub mod components;
pub mod config;
pub mod detect;
pub mod extractor;
pub mod json;
pub mod keys;
pub mod lint;
pub mod locale;
pub mod locale_sync;
pub mod locize;
pub mod logging;
pub mod order;
pub mod patterns;
pub mod rename;
pub mod scope;
pub mod status;
pub mod summary;
pub mod template;
pub mod text;
pub mod trans;
pub mod typegen;
pub mod visit;
pub mod watcher;
