//! A verified core for rewriting git history through the fast-export /
//! fast-import wire format.
//!
//! The library tokenizes an export byte stream into raw records, builds
//! fully-owned structured commit and blob objects out of them, reassembles
//! concurrently built objects in exact stream order, and serializes
//! objects back into the byte-exact import format.  Around that core sit
//! the tool's pure option types, its repo-file rules, and the
//! repository-name extraction its commands rely on.

pub mod bytestr;
pub mod wire;
pub mod unstructured_parse;
pub mod structured_parse;
pub mod export_parser;
pub mod cli;
pub mod commands;
pub mod repo_core;
pub mod repo_file;
