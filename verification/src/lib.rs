//! An interactive console line editor: a flat text transcript with a prompt,
//! command history, reverse incremental history search, and filesystem path
//! tab-completion.

pub mod text;
pub mod tokenizer;
pub mod history;
pub mod complete;
pub mod keys;
pub mod model;
pub mod console;
pub mod commands;

pub use commands::syntax;
pub use console::ConsoleWindow;
pub use keys::ConsoleEvent;
