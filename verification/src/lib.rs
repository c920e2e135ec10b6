//! The logic of `jj-gt`, which submits stacks of jj bookmarks with Graphite and
//! cleans up after what has landed.
//!
//! The library runs no tool itself. Each command is a pipeline, a state machine
//! that says what is to be done next ([`command::Command`]) and takes what came
//! back ([`command::Reply`]): [`fetch`], [`submit`] and [`track`]. A `_model`
//! module defines the transitions of a pipeline as mathematical functions, which
//! the executable steps are proved to compute; a `_laws` module proves what holds
//! of every run, whatever the tools reply. [`fetch_history`], [`fetch_order`],
//! [`fetch_deeds`] and [`fetch_foresight`] go on with the laws of `fetch`;
//! [`fetch_asks`], [`fetch_turns`] and [`submit_asks`] say word by word what the
//! pipelines ask for.
//!
//! [`cleanup`], [`hooks`], [`stack`] and [`status`] hold the decisions that the
//! pipelines rest on.

pub mod cleanup;
pub mod command;
pub mod error;
pub mod fetch;
pub mod fetch_asks;
pub mod fetch_deeds;
pub mod fetch_foresight;
pub mod fetch_frames;
pub mod fetch_history;
pub mod fetch_laws;
pub mod fetch_model;
pub mod fetch_order;
pub mod fetch_turns;
pub mod gh;
pub mod hooks;
pub mod jj;
pub mod stack;
pub mod status;
pub mod submit;
pub mod submit_asks;
pub mod submit_laws;
pub mod submit_model;
pub mod text;
pub mod track;

pub use crate::hooks::Runner;
