//! Knowledge base of the 1C:Enterprise built-in language served over MCP:
//! launch-parameter resolution, the V8 container format of help books, the
//! taking apart of help pages into objects, methods and language sections,
//! the knowledge base and its search, the tool and prompt answers, the index
//! cache's validity, the build's progress and the installation self-check.

pub mod text;
pub mod cli;
pub mod protocol;
pub mod container;
pub mod html;
pub mod schema;
pub mod lang;
pub mod progress;
pub mod platform;
pub mod knowledge;
pub mod handler;
pub mod capabilities;
pub mod paths;
pub mod config;
pub mod server;
pub mod data;
pub mod prompts;
pub mod index;
pub mod pattern;
pub mod storage;
pub mod keyed;
pub mod graph;
pub mod extract;
pub mod cache;
pub mod jsonrpc;
pub mod check;
pub mod loader;
