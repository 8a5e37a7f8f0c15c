//! Verified core of the VS Code Copilot bring-your-own-key integration:
//! provider catalog model, store normalization, VS Code target selection,
//! language-model file merging, Copilot CLI environment planning and the
//! local proxy's routing decisions.

pub mod text;
pub mod bridge;
pub mod error;
pub mod kv;
pub mod json;
pub mod model;
pub mod order;
pub mod vscode;
pub mod store;
pub mod cli;
pub mod rollback;
pub mod proxy;
pub mod targets;
pub mod sync;
pub mod catalog;
pub mod mcp;
pub mod import;
