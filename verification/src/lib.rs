//! PacketSmith core: template variables, text editing, URL and header
//! editing, command routing, settings, workbench layout and the other
//! protocol-neutral rules of the API client.
use vstd::prelude::*;

pub mod annotations;
pub mod buffer;
pub mod collection;
pub mod command;
pub mod desktop;
pub mod domain;
pub mod engine;
pub mod executor;
pub mod env_editor;
pub mod environments;
pub mod http;
pub mod dynamic;
pub mod json;
pub mod resolver;
pub mod response;
pub mod settings;
pub mod shell;
pub mod storage;
pub mod template;
pub mod text;
pub mod ui;
pub mod url_sync;
pub mod vault;
pub mod workbench;
pub mod workspace;

verus! {
} // verus!
