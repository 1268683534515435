//! The core of a templating runtime that renders HTML documents with embedded
//! script blocks: the template parser, the conversion of blocks into script
//! source, the per-request render bookkeeping, the native extension registry
//! and call protocol, `include` resolution and HTTP request routing.

pub mod bridge;
pub mod cli;
pub mod config;
pub mod emit;
pub mod inclusion;
pub mod parser;
pub mod paths;
pub mod registry;
pub mod render;
pub mod route;
pub mod text;

pub use bridge::{call_result_steps, BridgeStep};
pub use cli::parse_host_port;
pub use config::{DocumentRoot, EngineConfig, HttpServerConfig};
pub use emit::blocks_to_js;
pub use parser::{CodeBlock, CodeBlockContent, ParseResults, Parser};
pub use registry::{module_name_candidates, object_name_for, LoadError, ModuleRegistry};
pub use render::{format_exception, BlockAction, ErrorLocation, Renderer};
pub use route::{Action, Reply};
