//! A verified core for a cross-dialect database data-movement tool: a
//! neutral column-value model, per-provider SQL rendering rules, and the
//! streamed-batch transfer machinery with two-tier failure recovery.
pub mod cli;
pub mod ddl;
pub mod dialect;
pub mod dialects;
pub mod dump;
pub mod grammar;
pub mod import;
pub mod migrate;
pub mod octets;
pub mod value;
pub mod pipeline;
pub mod restore;
pub mod sql_escape;
pub mod text;
