//! The core of a plugin host for a text editor: the contract that plugins
//! implement, the discovery and loading of plugin libraries, the registry
//! that fans lifecycle and per-frame calls out to them, and the document
//! model on which the host carries out what a plugin asked for.

pub mod dialogs;
pub mod discovery;
pub mod editor;
pub mod host;
pub mod loader;
pub mod plugin;
pub mod plugins;
pub mod sdk;
pub mod search;
pub mod text;
pub mod ui;
