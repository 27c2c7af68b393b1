//! Verified core of rheo: a typesetting and static-site engine built on Typst.
//!
//! The modules here hold the engine's own logic — configuration rules, path
//! handling, HTML head injection, build bookkeeping, diagnostics and the
//! small parsers — each function stated by a contract and proved by Verus.

pub mod error;
pub mod text;
pub mod ident;

pub use error::{Result, RheoError};
pub mod timing;
pub mod paths;
pub mod output;
pub mod reporter;
pub mod results;
pub mod report;
pub mod html;
pub mod config;
pub mod convergence;
pub mod init;
pub mod watch;
pub mod plugins;
pub mod parser;
pub mod logging;
pub mod packages;
pub mod assets;
pub mod migrate;
pub mod globs;
pub mod orchestrate;
pub mod manifest;
pub mod cache;
