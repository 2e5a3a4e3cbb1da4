//! Market data streaming command arguments and where its assets come from.

use vstd::prelude::*;
use crate::address_book::types::opt_view;
use crate::text::{contains_seq, str_contains, strings_view};
use crate::cli::commands::daemon::UserFeed;
use crate::auth_env::ApiCreds;

verus! {

#[derive(Debug)]
pub struct StreamArgs {
    /// Asset IDs to stream (comma-separated)
    pub assets: Vec<String>,
    /// Path to a markets JSON file to take token ids from
    pub markets_path: Option<String>,
    /// Name of a saved token selection
    pub selection: Option<String>,
    /// Markets for user feed (comma-separated, requires auth)
    pub markets: Option<Vec<String>>,
    /// API key for user feed authentication
    pub api_key: Option<String>,
    /// API secret for user feed authentication
    pub secret: Option<String>,
    /// API passphrase for user feed authentication
    pub passphrase: Option<String>,
    /// WebSocket heartbeat interval in seconds
    pub heartbeat_interval: u64,
    /// Maximum reconnection attempts (0 = infinite)
    pub max_reconnection_attempts: u32,
    /// Show order book updates
    pub show_book: bool,
    /// Show trades
    pub show_trades: bool,
    /// Show user order and trade events
    pub show_user: bool,
    /// Print order book summary every N seconds
    pub summary_interval: Option<u64>,
    /// Use sandbox environment
    pub sandbox: bool,
    /// Use the terminal interface
    pub tui: bool,
}

pub struct StreamCommand {
    args: StreamArgs,
}

impl View for StreamCommand {
    type V = StreamArgs;

    closed spec fn view(&self) -> StreamArgs {
        self.args
    }
}

impl StreamCommand {
    pub fn new(args: StreamArgs) -> (r: Self)
        ensures
            r@ == args,
    {
        StreamCommand { args: args }
    }

    /// The arguments the command was made with.
    pub fn args(&self) -> (r: &StreamArgs)
        ensures
            *r == self@,
    {
        &self.args
    }
}

/// Where the assets to stream come from.
#[derive(Debug)]
pub enum AssetSource {
    /// The assets given directly.
    Direct(Vec<String>),
    /// The token ids of a markets file.
    MarketsFile(String),
    /// The tokens of a saved selection.
    Selection(String),
    /// Nothing was given: a selector or the list of selections.
    Selector,
}

/// Direct assets come first, then a markets file, then a selection.
pub fn asset_source(args: &StreamArgs) -> (r: AssetSource)
    ensures
        args.assets@.len() > 0 ==> (r matches AssetSource::Direct(v) && strings_view(v@)
            == strings_view(args.assets@)),
        args.assets@.len() == 0 && args.markets_path is Some ==> (r matches AssetSource::MarketsFile(
            p,
        ) && Some(p@) == opt_view(args.markets_path)),
        args.assets@.len() == 0 && args.markets_path is None && args.selection is Some ==> (r matches AssetSource::Selection(
            s,
        ) && Some(s@) == opt_view(args.selection)),
        args.assets@.len() == 0 && args.markets_path is None && args.selection is None ==> r is Selector,
{
    if args.assets.len() > 0 {
        return AssetSource::Direct(crate::address_book::types::clone_strings(&args.assets));
    }
    if let Some(p) = &args.markets_path {
        return AssetSource::MarketsFile(p.clone());
    }
    if let Some(s) = &args.selection {
        return AssetSource::Selection(s.clone());
    }
    AssetSource::Selector
}

/// The error that looking up the assets ends in, where it ends in one
/// without reading anything: with no source given, the dataset selector is
/// unavailable and the listing of saved selections ends in
/// `No assets specified`. The other sources give no error here.
pub fn source_error(source: &AssetSource) -> (r: Option<String>)
    ensures
        (source is Selector) == (r is Some),
        r matches Some(m) ==> m@ == "No assets specified"@,
{
    match source {
        AssetSource::Selector => Some(String::from_str("No assets specified")),
        _ => None,
    }
}

/// The token ids of a markets file, market by market: a market without a
/// tokens array gives none, a token without a `token_id` string is passed
/// over.
pub open spec fn market_token_ids(markets: Seq<Option<Seq<Option<Seq<char>>>>>) -> Seq<Seq<char>>
    decreases markets.len(),
{
    if markets.len() == 0 {
        Seq::empty()
    } else {
        market_token_ids(markets.drop_last()) + match markets.last() {
            Some(tokens) => present(tokens),
            None => Seq::empty(),
        }
    }
}

/// The values that are present, in order.
pub open spec fn present(v: Seq<Option<Seq<char>>>) -> Seq<Seq<char>>
    decreases v.len(),
{
    if v.len() == 0 {
        Seq::empty()
    } else {
        present(v.drop_last()) + match v.last() {
            Some(t) => seq![t],
            None => Seq::empty(),
        }
    }
}

/// The values of the tokens arrays of markets.
pub open spec fn markets_view(m: Seq<Option<Vec<Option<String>>>>) -> Seq<Option<Seq<Option<Seq<char>>>>> {
    m.map_values(
        |o: Option<Vec<Option<String>>>| match o {
            Some(v) => Some(v@.map_values(|t: Option<String>| opt_view(t))),
            None => None,
        },
    )
}

/// The markets of a markets file's text, as `serde_json` reads it into an
/// array of values: each market's `tokens` array, where it is one, and each
/// token's `token_id`, where it is a string. `None` where the text is not a
/// JSON array.
pub uninterp spec fn markets_json_model(text: Seq<char>) -> Option<
    Seq<Option<Seq<Option<Seq<char>>>>>,
>;

/// Parses a markets file's text with `serde_json::from_str` into an array
/// of JSON values and converts each market to its tokens array and each
/// token to its `token_id` string, field by field. The result is named by
/// `markets_json_model`.
#[verifier::external_body]
pub(crate) fn parse_markets_json(text: &str) -> (r: Option<Vec<Option<Vec<Option<String>>>>>)
    ensures
        r is Some <==> markets_json_model(text@) is Some,
        r matches Some(m) ==> markets_view(m@) == markets_json_model(text@)->0,
{
    let markets: Vec<serde_json::Value> = serde_json::from_str(text).ok()?;
    Some(markets.iter().map(|m| m.get("tokens").and_then(|v| v.as_array()).map(|ts| {
        ts.iter().map(|t| t.get("token_id").and_then(|v| v.as_str()).map(|x| x.to_string())).collect()
    })).collect())
}

/// The positions of the markets that have no tokens array.
pub open spec fn untokened_markets(markets: Seq<Option<Seq<Option<Seq<char>>>>>) -> Seq<int>
    decreases markets.len(),
{
    if markets.len() == 0 {
        Seq::empty()
    } else {
        untokened_markets(markets.drop_last()) + if markets.last() is None {
            seq![markets.len() - 1]
        } else {
            Seq::empty()
        }
    }
}

fn untokened_of(markets: &Vec<Option<Vec<Option<String>>>>) -> (r: Vec<usize>)
    ensures
        r@.map_values(|i: usize| i as int) == untokened_markets(markets_view(markets@)),
{
    let ghost mv = markets_view(markets@);
    let mut r: Vec<usize> = Vec::new();
    let mut i: usize = 0;
    while i < markets.len()
        invariant
            i <= markets.len(),
            mv == markets_view(markets@),
            r@.map_values(|k: usize| k as int) == untokened_markets(mv.take(i as int)),
        decreases markets.len() - i,
    {
        proof {
            assert(mv.take(i + 1).drop_last() =~= mv.take(i as int));
        }
        if markets[i].is_none() {
            r.push(i);
        }
        proof {
            assert(r@.map_values(|k: usize| k as int) =~= untokened_markets(mv.take(i + 1)));
        }
        i = i + 1;
    }
    proof {
        assert(mv.take(i as int) =~= mv);
    }
    r
}

/// The assets named in a markets file's text: the token ids of its markets
/// in order, and the positions of the markets that have no tokens array;
/// `None` where the text is not a JSON array.
pub fn assets_of_markets_text(text: &str) -> (r: Option<(Vec<String>, Vec<usize>)>)
    ensures
        match markets_json_model(text@) {
            Some(m) => r matches Some(p) && strings_view(p.0@) == market_token_ids(m)
                && p.1@.map_values(|i: usize| i as int) == untokened_markets(m),
            None => r is None,
        },
{
    match parse_markets_json(text) {
        Some(m) => Some((token_ids_of_markets(&m), untokened_of(&m))),
        None => None,
    }
}

/// Collects the token ids of the markets of a markets file, in order; each
/// market is given as its tokens array, if it has one, and each token as its
/// `token_id` string, if it has one.
pub fn token_ids_of_markets(markets: &Vec<Option<Vec<Option<String>>>>) -> (r: Vec<String>)
    ensures
        strings_view(r@) == market_token_ids(markets_view(markets@)),
{
    let ghost mv = markets_view(markets@);
    let mut r: Vec<String> = Vec::new();
    let mut i: usize = 0;
    while i < markets.len()
        invariant
            i <= markets.len(),
            mv == markets_view(markets@),
            strings_view(r@) == market_token_ids(mv.take(i as int)),
        decreases markets.len() - i,
    {
        proof {
            assert(mv.take(i + 1).drop_last() =~= mv.take(i as int));
        }
        match &markets[i] {
            Some(tokens) => {
                let ghost tv = tokens@.map_values(|t: Option<String>| opt_view(t));
                let ghost r_start = strings_view(r@);
                let mut j: usize = 0;
                while j < tokens.len()
                    invariant
                        j <= tokens.len(),
                        tv == tokens@.map_values(|t: Option<String>| opt_view(t)),
                        strings_view(r@) == r_start + present(tv.take(j as int)),
                    decreases tokens.len() - j,
                {
                    proof {
                        assert(tv.take(j + 1).drop_last() =~= tv.take(j as int));
                    }
                    match &tokens[j] {
                        Some(t) => {
                            let ghost r0 = r@;
                            r.push(t.clone());
                            proof {
                                assert(strings_view(r@) =~= strings_view(r0).push(t@));
                                assert(strings_view(r@) =~= r_start + present(tv.take(j + 1)));
                            }
                        },
                        None => {
                            proof {
                                assert(present(tv.take(j + 1)) =~= present(tv.take(j as int)) + Seq::<Seq<char>>::empty());
                            }
                        },
                    }
                    j = j + 1;
                }
                proof {
                    assert(tv.take(j as int) =~= tv);
                    assert(strings_view(r@) =~= market_token_ids(mv.take(i + 1)));
                }
            },
            None => {
                proof {
                    assert(market_token_ids(mv.take(i + 1)) =~= market_token_ids(mv.take(i as int)));
                }
            },
        }
        i = i + 1;
    }
    proof {
        assert(mv.take(i as int) =~= mv);
    }
    r
}

/// The marker before the `i`th listed asset: the last of the (at most five)
/// listed ones closes the list.
pub fn asset_list_marker(i: usize, len: usize) -> (r: &'static str)
    requires
        i < len,
    ensures
        r@ == (if i == len - 1 || i == 4 { "\u{2514}"@ } else { "\u{251c}"@ }),
{
    if i == len - 1 || i == 4 {
        "\u{2514}"
    } else {
        "\u{251c}"
    }
}

/// The user feed of a stream: authenticated where a key, a secret and a
/// passphrase are all given; else disabled where user markets were asked
/// for, and not requested otherwise.
pub fn stream_user_feed(args: &StreamArgs) -> (r: UserFeed)
    ensures
        match (args.api_key, args.secret, args.passphrase) {
            (Some(k), Some(s), Some(p)) => r matches UserFeed::Authenticated(c) && c.api_key@ == k@
                && c.secret@ == s@ && c.passphrase@ == p@,
            _ => if args.markets is Some {
                r is DisabledWithoutAuth
            } else {
                r is NotRequested
            },
        },
{
    match (&args.api_key, &args.secret, &args.passphrase) {
        (Some(k), Some(s), Some(p)) => UserFeed::Authenticated(
            ApiCreds { api_key: k.clone(), secret: s.clone(), passphrase: p.clone() },
        ),
        _ => if args.markets.is_some() {
            UserFeed::DisabledWithoutAuth
        } else {
            UserFeed::NotRequested
        },
    }
}

/// A key pressed in the streaming terminal interface.
#[derive(Debug, Clone, Copy, PartialEq, Eq, Structural)]
pub enum StreamKey {
    Char(char),
    Up,
    Down,
    Enter,
    Esc,
    Backspace,
    Other,
}

/// What the streaming interface does on a key.
#[derive(Debug, Clone, Copy, PartialEq, Eq, Structural)]
pub enum StreamAction {
    Quit,
    ScrollOrderBookUp,
    SelectPrevious,
    ScrollOrderBookDown,
    SelectNext,
    ResetOrderBookScroll,
    SelectToken,
    GoBack,
    Refresh,
    Nothing,
}

/// The action of a key: `q` quits; the arrows scroll an open order book or
/// move the selection; `m` resets an open order book's scroll; Enter
/// selects; Esc and Backspace go back; `r` refreshes the event stream.
pub open spec fn key_action(key: StreamKey, in_order_book: bool) -> StreamAction {
    match key {
        StreamKey::Char(c) => if c == 'q' || c == 'Q' {
            StreamAction::Quit
        } else if (c == 'm' || c == 'M') && in_order_book {
            StreamAction::ResetOrderBookScroll
        } else if c == 'r' {
            StreamAction::Refresh
        } else {
            StreamAction::Nothing
        },
        StreamKey::Up => if in_order_book {
            StreamAction::ScrollOrderBookUp
        } else {
            StreamAction::SelectPrevious
        },
        StreamKey::Down => if in_order_book {
            StreamAction::ScrollOrderBookDown
        } else {
            StreamAction::SelectNext
        },
        StreamKey::Enter => StreamAction::SelectToken,
        StreamKey::Esc | StreamKey::Backspace => StreamAction::GoBack,
        StreamKey::Other => StreamAction::Nothing,
    }
}

/// The action of a key in the streaming interface, given whether an order
/// book is open.
pub fn stream_key_action(key: StreamKey, in_order_book: bool) -> (r: StreamAction)
    ensures
        r == key_action(key, in_order_book),
{
    match key {
        StreamKey::Char(c) => if c == 'q' || c == 'Q' {
            StreamAction::Quit
        } else if (c == 'm' || c == 'M') && in_order_book {
            StreamAction::ResetOrderBookScroll
        } else if c == 'r' {
            StreamAction::Refresh
        } else {
            StreamAction::Nothing
        },
        StreamKey::Up => if in_order_book {
            StreamAction::ScrollOrderBookUp
        } else {
            StreamAction::SelectPrevious
        },
        StreamKey::Down => if in_order_book {
            StreamAction::ScrollOrderBookDown
        } else {
            StreamAction::SelectNext
        },
        StreamKey::Enter => StreamAction::SelectToken,
        StreamKey::Esc | StreamKey::Backspace => StreamAction::GoBack,
        StreamKey::Other => StreamAction::Nothing,
    }
}

/// Why the terminal interface could not start.
#[derive(Debug, Clone, Copy, PartialEq, Eq, Structural)]
pub enum TerminalFailure {
    /// There is no terminal to draw on.
    Unavailable,
    /// The terminal could not be set up.
    SetupFailed,
}

/// A set-up error whose message tells that no terminal is there.
pub open spec fn no_terminal_message(m: Seq<char>) -> bool {
    contains_seq(m, "Device not configured"@) || contains_seq(m, "not a terminal"@) || contains_seq(
        m,
        "Inappropriate ioctl"@,
    )
}

/// The kind of a terminal set-up failure, from its message.
pub fn terminal_failure(message: &str) -> (r: TerminalFailure)
    ensures
        r == (if no_terminal_message(message@) {
            TerminalFailure::Unavailable
        } else {
            TerminalFailure::SetupFailed
        }),
{
    if str_contains(message, "Device not configured") || str_contains(message, "not a terminal")
        || str_contains(message, "Inappropriate ioctl") {
        TerminalFailure::Unavailable
    } else {
        TerminalFailure::SetupFailed
    }
}

/// What the wait for the first streamed data sees in one check.
#[derive(Debug, Clone, Copy, PartialEq, Eq, Structural)]
pub enum WaitEvent {
    /// An event arrived.
    Data,
    /// The channel lagged: the connection works.
    Lagged,
    /// The channel closed.
    Closed,
    /// Nothing came within the check interval.
    Timeout,
}

/// Where the wait stands after a check.
#[derive(Debug, Clone, Copy, PartialEq, Eq, Structural)]
pub enum WaitStep {
    /// Check again.
    Waiting,
    /// Stop waiting and look at what was seen.
    Done,
    /// The event channel closed: the connection failed.
    ChannelClosed,
}

/// How the wait for the first streamed data ended.
#[derive(Debug, Clone, Copy, PartialEq, Eq, Structural)]
pub enum WaitOutcome {
    /// Real-time data arrived.
    RealTime,
    /// No real-time data yet, but the connection works or order books came
    /// from the REST API, or the wait was bypassed.
    RestOnly,
    /// Nothing arrived in time.
    TimedOut,
}

/// The milliseconds waited for the first data before giving up.
pub open spec fn wait_limit_ms() -> u64 {
    10000
}

/// The milliseconds of one check.
pub open spec fn check_interval_ms() -> u64 {
    500
}

/// The state of the wait for the first streamed data.
#[derive(Debug, Clone, Copy, PartialEq, Eq, Structural)]
pub struct InitialDataWait {
    pub elapsed_ms: u64,
    /// The progress indicator shows one more dot than this.
    pub progress_dots: u8,
    pub data_received: bool,
    pub connection_established: bool,
}

impl InitialDataWait {
    /// Nothing seen, nothing waited.
    pub fn new() -> (r: Self)
        ensures
            r == (InitialDataWait {
                elapsed_ms: 0,
                progress_dots: 0,
                data_received: false,
                connection_established: false,
            }),
    {
        InitialDataWait { elapsed_ms: 0, progress_dots: 0, data_received: false, connection_established: false }
    }

    /// The time waited is a whole number of checks within the limit, and
    /// the indicator stays within four dots.
    pub open spec fn wf(&self) -> bool {
        self.elapsed_ms <= wait_limit_ms() && self.elapsed_ms % check_interval_ms() == 0
            && self.progress_dots < 4
    }

    /// One check: data ends the wait with a connection and data; a lag ends
    /// it with a connection; a closed channel fails; a timeout adds the
    /// check interval and a dot, and ends the wait at the limit.
    pub fn on_event(&mut self, event: WaitEvent) -> (r: WaitStep)
        requires
            old(self).wf(),
            old(self).elapsed_ms < wait_limit_ms(),
        ensures
            final(self).wf(),
            match event {
                WaitEvent::Data => r == WaitStep::Done && *final(self) == (InitialDataWait {
                    data_received: true,
                    connection_established: true,
                    ..*old(self)
                }),
                WaitEvent::Lagged => r == WaitStep::Done && *final(self) == (InitialDataWait {
                    connection_established: true,
                    ..*old(self)
                }),
                WaitEvent::Closed => r == WaitStep::ChannelClosed && *final(self) == *old(self),
                WaitEvent::Timeout => {
                    &&& final(self).elapsed_ms == old(self).elapsed_ms + check_interval_ms()
                    &&& final(self).progress_dots == (old(self).progress_dots + 1) % 4
                    &&& final(self).data_received == old(self).data_received
                    &&& final(self).connection_established == old(self).connection_established
                    &&& r == if final(self).elapsed_ms < wait_limit_ms() {
                        WaitStep::Waiting
                    } else {
                        WaitStep::Done
                    }
                },
            },
    {
        match event {
            WaitEvent::Data => {
                self.data_received = true;
                self.connection_established = true;
                WaitStep::Done
            },
            WaitEvent::Lagged => {
                self.connection_established = true;
                WaitStep::Done
            },
            WaitEvent::Closed => WaitStep::ChannelClosed,
            WaitEvent::Timeout => {
                self.elapsed_ms = self.elapsed_ms + 500;
                self.progress_dots = (self.progress_dots + 1) % 4;
                if self.elapsed_ms < 10000 {
                    WaitStep::Waiting
                } else {
                    WaitStep::Done
                }
            },
        }
    }

    /// How the wait ended, given the number of order books the REST API
    /// gave and whether waiting may be bypassed: with data it is real-time;
    /// without, order books or a working connection let the stream start
    /// from REST data, as does a bypass; otherwise it timed out.
    pub fn outcome(&self, order_books: usize, bypass: bool) -> (r: WaitOutcome)
        ensures
            r == (if self.data_received {
                WaitOutcome::RealTime
            } else if self.connection_established || order_books > 0 || bypass {
                WaitOutcome::RestOnly
            } else {
                WaitOutcome::TimedOut
            }),
    {
        if self.data_received {
            WaitOutcome::RealTime
        } else if self.connection_established || order_books > 0 || bypass {
            WaitOutcome::RestOnly
        } else {
            WaitOutcome::TimedOut
        }
    }
}

} // verus!
