//! Discovery of executable tools in a directory, and the metadata model that
//! describes how each tool is invoked and how its output is interpreted.
//!
//! The crate has two halves that share only data types:
//!
//! - [`scanner`]: classifies directory entries as tool candidates and resolves
//!   where each candidate's metadata lives (embedded in the executable, or in
//!   a sidecar `.yaml` file).
//! - [`definitions`]: the rich serving-oriented `ToolDefinition` shape, its
//!   minimal protocol projection `McpTool`, and the parsing and serialization
//!   between those shapes and YAML text, built on the structured
//!   [`document::Document`] value type.

pub mod definitions;
pub mod document;
pub mod scanner;
pub mod text;
pub mod yaml;
