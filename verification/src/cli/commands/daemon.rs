//! Streaming daemon command arguments and its start-up checks.

use vstd::prelude::*;
use crate::auth_env::ApiCreds;

verus! {

#[derive(Debug)]
pub struct DaemonArgs {
    /// Asset IDs to stream (comma-separated)
    pub assets: Vec<String>,
    /// Markets for user feed (comma-separated, requires auth)
    pub markets: Option<Vec<String>>,
    /// API key for user feed authentication
    pub api_key: Option<String>,
    /// API secret for user feed authentication
    pub secret: Option<String>,
    /// API passphrase for user feed authentication
    pub passphrase: Option<String>,
    /// WebSocket heartbeat interval in seconds
    pub heartbeat_interval: u64,
    /// Print order book summary every N seconds
    pub summary_interval: u64,
    /// Use sandbox environment
    pub sandbox: bool,
}

pub struct DaemonCommand {
    args: DaemonArgs,
}

impl View for DaemonCommand {
    type V = DaemonArgs;

    closed spec fn view(&self) -> DaemonArgs {
        self.args
    }
}

impl DaemonCommand {
    pub fn new(args: DaemonArgs) -> (r: Self)
        ensures
            r@ == args,
    {
        DaemonCommand { args: args }
    }

    /// The arguments the command was made with.
    pub fn args(&self) -> (r: &DaemonArgs)
        ensures
            *r == self@,
    {
        &self.args
    }
}

/// How the daemon's user feed is set up.
#[derive(Debug)]
pub enum UserFeed {
    /// Key, secret and passphrase were all given.
    Authenticated(ApiCreds),
    /// Markets were given without full credentials: the feed is disabled.
    DisabledWithoutAuth,
    /// No user feed was asked for.
    NotRequested,
}

/// The user feed that the daemon's arguments ask for: authenticated where
/// all three credentials are given, else disabled (with a warning) where
/// markets are given, else none.
pub fn daemon_user_feed(args: &DaemonArgs) -> (r: UserFeed)
    ensures
        match (args.api_key, args.secret, args.passphrase) {
            (Some(k), Some(s), Some(p)) => r matches UserFeed::Authenticated(c) && c.api_key@ == k@
                && c.secret@ == s@ && c.passphrase@ == p@,
            _ => if args.markets is Some {
                r is DisabledWithoutAuth
            } else {
                r is NotRequested
            },
        },
{
    match (&args.api_key, &args.secret, &args.passphrase) {
        (Some(k), Some(s), Some(p)) => UserFeed::Authenticated(
            ApiCreds { api_key: k.clone(), secret: s.clone(), passphrase: p.clone() },
        ),
        _ => if args.markets.is_some() {
            UserFeed::DisabledWithoutAuth
        } else {
            UserFeed::NotRequested
        },
    }
}

/// The daemon starts only with at least one asset.
pub fn daemon_can_start(args: &DaemonArgs) -> (r: bool)
    ensures
        r == (args.assets@.len() > 0),
{
    args.assets.len() > 0
}

} // verus!
