pub mod app_state;
pub mod batcher;
pub mod branch_visibility;
pub mod buffer;
pub mod chunk;
pub mod git_types;
pub mod graph_service;
pub mod graph_panes;
pub mod snapshot;
pub mod text;
pub mod files;
pub mod heatmap;
pub mod remotes;
pub mod time;
pub mod layers;
pub mod changes;
pub mod diffs;
pub mod worktrees;
pub mod paths;
pub mod submodules;
pub mod file_history;
pub mod oids;
pub mod reflogs;
pub mod gitmodules;
pub mod commits;
pub mod staging;
pub mod refs;
pub mod checkout;
pub mod submodule_actions;
pub mod submodule_list;
pub mod workdir_changes;
pub mod file_search;
pub mod branch_config;
