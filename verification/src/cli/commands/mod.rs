//! The commands of the command-line interface.

pub mod book;
pub mod cancel;
pub mod canvas;
pub mod enrich;
pub mod init;
pub mod portfolio;
pub mod portfolio_status;
pub mod tui_test;
pub mod version;
pub mod daemon;
pub mod orders;
pub mod install;
pub mod pipeline;
pub mod datasets;
pub mod selections;
pub mod sell;
pub mod trades;
pub mod stream;
pub mod markets;
pub mod worktree;
pub mod portfolio_tui;
pub mod gamma;
pub mod run_strategy;
pub mod index;
pub mod fetch_all_markets;
