//! homeos: the decision logic of a dotfiles-style package manager.
use vstd::prelude::*;

pub mod action_plan;
pub mod apply;
pub mod completion;
pub mod config;
pub mod context;
pub mod deps;
pub mod error;
pub mod git;
pub mod guide;
pub mod init;
pub mod output;
pub mod plan;
pub mod plugins;
pub mod refresh;
pub mod registry;
pub mod shell;
pub mod state;
pub mod strmap;
pub mod table;
pub mod template;
pub mod text;
pub mod topo;
pub mod update_check;

verus! {

} // verus!
