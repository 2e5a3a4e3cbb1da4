//! Verified core of the Polybot command-line trading tool: the address book,
//! the request signing used for the exchange API, and the decision logic of the
//! command-line commands.

pub mod text;
pub mod auth;
pub mod auth_env;
pub mod address_book;
pub mod cli;
pub mod paths;
