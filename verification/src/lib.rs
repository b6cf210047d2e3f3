//! Verified core of a JSON Logic compiler: the logic model, its compiler,
//! configuration, path handling, tracked data and dependency ordering.

pub mod config;
pub mod json;
pub mod text;
pub mod paths;
pub mod compiled;
pub mod analysis;
pub mod forward;
pub mod compiler_laws;
pub mod compiled_clone;
pub mod json_text;
pub mod compiled_logic_store;
pub mod logic_store;
pub mod timing;
pub mod types;
pub mod path;
pub mod data_wrapper;
pub mod cache;
pub mod topo_sort;
pub mod schema_graph;
pub mod table_plan;
pub mod pointer;
pub mod logic_parts;
pub mod evaluate;

pub use config::RLogicConfig;
