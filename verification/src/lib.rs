//! A declarative language for describing command-line interfaces.
//!
//! A specification document names a tool, its arguments, flags, subcommands
//! and configuration options. This crate compiles such a document into a
//! command tree, merges the trees of several documents, annotates every
//! command with its full path and a usage line, and writes a tree back out
//! as a document.
//!
//! The modules, from the leaves up:
//!
//! - `text`, `keyed`: strings as sequences of characters, and lists of keyed
//!   items in which no key stands twice;
//! - `error`, `context`, `data_types`: errors with their places, where a
//!   document came from, the kinds of value;
//! - `node`, `document`: the tree of nodes of a document, and reading and
//!   writing it as text;
//! - `arg`, `flag`, `config`, `command`, `spec`: what a document declares;
//! - `parse`, `script`: the compiler, and specification files;
//! - `render`: writing a specification out;
//! - `roundtrip`, `places`: what is written out is read back.
#![allow(non_camel_case_types)]

pub mod text;
pub mod keyed;
pub mod error;
pub mod context;
pub mod data_types;
pub mod node;
pub mod document;
pub mod arg;
pub mod flag;
pub mod config;
pub mod command;
pub mod spec;
pub mod parse;
pub mod script;
pub mod render;
pub mod roundtrip;
pub mod places;

pub use crate::arg::Arg;
pub use crate::command::{set_subcommand_ancestors, Command, CommandMap};
pub use crate::config::{SpecConfig, SpecConfigProp};
pub use crate::context::ParsingContext;
pub use crate::data_types::SpecDataTypes;
pub use crate::document::{find_stuck, read_nodes};
pub use crate::error::{Span, UsageErr};
pub use crate::flag::Flag;
pub use crate::node::{Entry, Node, Value};
pub use crate::parse::NodeKind;
pub use crate::script::{check_chain, choose_path, referred_file, split_script};
pub use crate::spec::Spec_old;
