//! The rules of Roteiro, a knowledge graph of a repository: how configuration is
//! layered, which key of one repository is which key of another, what a change
//! touches, and what may be shown or sent. Files, git, sockets and routes are not
//! here; what they give comes in as plain values.
use vstd::prelude::*;

pub mod config;
pub mod diff;
pub mod explorer_app;
pub mod graph;
pub mod graph_api;
pub mod infer_links;
pub mod init;
pub mod names;
pub mod okf_discovery;
pub mod okf_viewer;
pub mod overview;
pub mod pins;
pub mod remote_engine;
pub mod remote_transport;
pub mod review;
pub mod seqs;
pub mod text;

verus! {

} // verus!
