//! Weave keeps several local copies of one Git repository in sync in real
//! time, while Git keeps its role as the durable, publishable history.
//!
//! This crate holds the rules: what a path may be called, when two edits
//! converge or conflict, how canonical revisions are assigned and applied, how
//! blobs travel, and what every command answers. Files, sockets and processes
//! belong to the program around it.

pub mod blobs;
pub mod blobwire;
pub mod bootstrap;
pub mod capture_laws;
pub mod cli;
pub mod client;
pub mod client_blobs;
pub mod client_commands;
pub mod client_content;
pub mod client_ipc;
pub mod client_laws;
pub mod client_publish;
pub mod client_results;
pub mod client_rules;
pub mod client_session;
pub mod client_step;
pub mod client_tree;
pub mod command_laws;
pub mod commit;
pub mod convergence;
pub mod coordination_laws;
pub mod daemon;
pub mod display_laws;
pub mod doctor;
pub mod error;
pub mod git_laws;
pub mod gitx;
pub mod host;
pub mod host_blobs;
pub mod host_laws;
pub mod host_publish;
pub mod host_requests;
pub mod host_rules;
pub mod host_session;
pub mod host_step;
pub mod host_submit;
pub mod install;
pub mod ipc;
pub mod link;
pub mod live;
pub mod model;
pub mod path;
pub mod proto;
pub mod publish;
pub mod publish_laws;
pub mod publish_rules;
pub mod reconcile;
pub mod record_laws;
pub mod recover;
pub mod render;
pub mod replica_laws;
pub mod routing_laws;
pub mod scan;
pub mod scope_laws;
pub mod session_laws;
pub mod setup_laws;
pub mod steady;
pub mod store_client;
pub mod store_host;
pub mod text;
pub mod text_laws;
pub mod transfer_laws;
pub mod upkeep_laws;
pub mod util;
pub mod writes;
