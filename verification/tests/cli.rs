use polybot::address_book::activity::Instant;
use polybot::cli::commands::book::{BookArgs, BookCommand};
use polybot::cli::commands::cancel::{cancellation_allowed, CancelArgs, CancelCommand};
use polybot::cli::commands::canvas::{CanvasArgs, CanvasCommand};
use polybot::cli::commands::daemon::{daemon_can_start, daemon_user_feed, DaemonArgs, DaemonCommand, UserFeed};
use polybot::cli::commands::datasets::{
    deletion_refusal, missing_datasets, DatasetKind, DatasetsAction, DatasetsArgs, DatasetsCommand,
};
use polybot::cli::commands::fetch_all_markets::{
    cache_duration_seconds, cache_still_valid, cache_valid_at, checks_cache, force_refresh, format_duration, metadata_args,
};
use polybot::cli::commands::gamma::{
    build_list_query, category_cell, db_list_interactive, market_status, page_hints, page_window,
    question_cell, BrowserAction, BrowserKey, BrowserState, DbListFilters, MarketStatus,
};
use polybot::cli::commands::index::{
    add_chunk, batch_progress, discovered_chunk_files, market_key_of, market_outcome, requested_chunk_files,
    tally_chunk, count_condition, group_token, ConditionCount, IndexArgs, IndexCommand, IndexStorage,
    IndexTotals, MarketOutcome, TokenGroup,
};
use polybot::cli::commands::init::{InitArgs, InitCommand};
use polybot::cli::commands::install::{dir_on_path, install_directory, overwrite_confirmed, InstallArgs, InstallCommand};
use polybot::cli::commands::markets::{markets_plan, truncate_text, MarketMode, MarketsPlan};
use polybot::cli::commands::orders::{token_filter_mask, OrdersArgs, OrdersCommand};
use polybot::cli::commands::pipeline::{parse_params, pipeline_mode, PipelineArgs, PipelineCommand, PipelineMode};
use polybot::cli::commands::portfolio_tui::{App, Key};
use polybot::cli::commands::run_strategy::{
    needs_resolution, read_selection, resolution_of, snapshot_tokens_matching, strategy_supported,
    subscription_assets, EventKind, Resolution, SelectionError, SessionCounters,
};
use polybot::cli::commands::selections::{ExportFormat, SelectionsArgs, SelectionsCommand, SelectionsSubcommand};
use polybot::cli::commands::stream::{asset_list_marker, asset_source, assets_of_markets_text, token_ids_of_markets, AssetSource, StreamArgs, StreamCommand};
use polybot::cli::commands::tui_test::{TuiTestArgs, TuiTestCommand};
use polybot::cli::commands::version::{VersionArgs, VersionCommand};
use polybot::cli::commands::worktree::{
    branch_display_name, main_branch, parse_sync_what, parse_worktree_list, remove_worktree_args, SyncWhat,
};
use polybot::cli::commands::worktree::main_worktree_path;
use polybot::cli::commands::stream::{
    source_error, stream_key_action, stream_user_feed, terminal_failure, InitialDataWait, StreamAction, StreamKey,
    TerminalFailure, WaitEvent, WaitOutcome, WaitStep,
};
use polybot::cli::get_host;

fn s(x: &str) -> String {
    x.to_string()
}

#[test]
fn hosts() {
    assert_eq!(get_host(true), "https://clob-mumbai.polymarket.com");
    assert_eq!(get_host(false), "https://clob.polymarket.com");
}

#[test]
fn commands_keep_their_arguments() {
    let c = BookCommand::new(BookArgs { token_id: s("t"), depth: 5 });
    assert_eq!(c.args().token_id, "t");
    assert_eq!(c.args().depth, 5);
    let c = CancelCommand::new(CancelArgs { order_id: s("o"), yes: true });
    assert!(c.args().yes);
    let c = CanvasCommand::new(CanvasArgs { width: 1200, height: 800, dark_mode: false, title: s("Polybot Trading Canvas") });
    assert_eq!(c.args().width, 1200);
    let c = InitCommand::new(InitArgs { private_key: s("k"), nonce: 0 });
    assert_eq!(c.args().private_key, "k");
    let c = InstallCommand::new(InstallArgs { overwrite: false, bin_dir: None });
    assert!(c.args().bin_dir.is_none());
    let c = OrdersCommand::new(OrdersArgs { token_id: Some(s("x")), dashboard: true });
    assert!(c.args().dashboard);
    let c = TuiTestCommand::new(TuiTestArgs { duration: 10 });
    assert_eq!(c.args().duration, 10);
    let _ = VersionCommand::new(VersionArgs {});
    let c = SelectionsCommand::new(SelectionsArgs { command: Some(SelectionsSubcommand::List) });
    assert!(matches!(c.args().command, Some(SelectionsSubcommand::List)));
}

#[test]
fn cancellation_needs_confirmation_outside_production() {
    assert!(cancellation_allowed(true, ""));
    assert!(cancellation_allowed(false, "production"));
    assert!(!cancellation_allowed(false, "development"));
    assert!(!cancellation_allowed(false, ""));
}

fn daemon_args() -> DaemonArgs {
    DaemonArgs {
        assets: vec![s("a")],
        markets: None,
        api_key: None,
        secret: None,
        passphrase: None,
        heartbeat_interval: 10,
        summary_interval: 30,
        sandbox: false,
    }
}

#[test]
fn daemon_feed_and_start() {
    let a = daemon_args();
    assert!(daemon_can_start(&a));
    assert!(matches!(daemon_user_feed(&a), UserFeed::NotRequested));
    let b = DaemonArgs { markets: Some(vec![s("m")]), api_key: Some(s("k")), ..daemon_args() };
    assert!(matches!(daemon_user_feed(&b), UserFeed::DisabledWithoutAuth));
    let c = DaemonArgs { api_key: Some(s("k")), secret: Some(s("s")), passphrase: Some(s("p")), ..daemon_args() };
    match daemon_user_feed(&c) {
        UserFeed::Authenticated(creds) => {
            assert_eq!(creds.api_key, "k");
            assert_eq!(creds.passphrase, "p");
        }
        _ => panic!("expected an authenticated feed"),
    }
    let d = DaemonArgs { assets: vec![], ..daemon_args() };
    assert!(!daemon_can_start(&d));
    let _ = DaemonCommand::new(d);
}

fn datasets_args() -> DatasetsArgs {
    DatasetsArgs {
        base_dir: s("data/datasets"),
        scan_dirs: vec![],
        max_depth: 5,
        list: false,
        summary: false,
        interactive: false,
        filter_type: None,
        delete: vec![],
        force: false,
        details: false,
    }
}

#[test]
fn datasets_actions() {
    assert_eq!(DatasetsCommand::new(datasets_args()).action(), DatasetsAction::Interactive);
    let a = DatasetsArgs { list: true, ..datasets_args() };
    assert_eq!(DatasetsCommand::new(a).action(), DatasetsAction::List);
    let a = DatasetsArgs { summary: true, delete: vec![s("x")], ..datasets_args() };
    assert_eq!(DatasetsCommand::new(a).action(), DatasetsAction::Delete);
    let a = DatasetsArgs { summary: true, ..datasets_args() };
    assert_eq!(DatasetsCommand::new(a).action(), DatasetsAction::Summary);
    let a = DatasetsArgs { filter_type: Some(s("mixed")), ..datasets_args() };
    assert_eq!(DatasetsCommand::new(a).action(), DatasetsAction::List);
}

#[test]
fn datasets_config_appends_scan_dirs() {
    let a = DatasetsArgs { scan_dirs: vec![s("extra")], max_depth: 3, ..datasets_args() };
    let cfg = DatasetsCommand::new(a).create_config("./data/datasets", "datasets_dir");
    assert_eq!(cfg.base_dir, "data/datasets");
    assert_eq!(cfg.scan_dirs, vec![s("./data/datasets"), s("datasets_dir"), s("datasets"), s("outputs"), s("results"), s("pipelines"), s("extra")]);
    assert!(cfg.recursive);
    assert_eq!(cfg.max_depth, 3);
}

#[test]
fn dataset_types() {
    assert!(matches!(DatasetsCommand::parse_dataset_type("Market-Data"), Ok(DatasetKind::MarketData)));
    assert!(matches!(DatasetsCommand::parse_dataset_type("analysis"), Ok(DatasetKind::AnalyzedMarkets)));
    assert!(matches!(DatasetsCommand::parse_dataset_type("ENRICH"), Ok(DatasetKind::EnrichedMarkets)));
    assert!(matches!(DatasetsCommand::parse_dataset_type("unknown"), Ok(DatasetKind::Unknown)));
    match DatasetsCommand::parse_dataset_type("pipeline__-daily") {
        Ok(DatasetKind::Pipeline(n)) => assert_eq!(n, "daily"),
        _ => panic!("expected a pipeline"),
    }
    match DatasetsCommand::parse_dataset_type("pipeline") {
        Ok(DatasetKind::Pipeline(n)) => assert_eq!(n, "unknown"),
        _ => panic!("expected a pipeline"),
    }
    assert_eq!(
        DatasetsCommand::parse_dataset_type("foo").unwrap_err(),
        "Unknown dataset type: foo. Valid types: market_data, analyzed_markets, enriched_markets, mixed, unknown, pipeline_<name>"
    );
}

#[test]
fn dataset_deletion_checks_names() {
    let available = vec![s("a"), s("b")];
    assert_eq!(missing_datasets(&vec![s("a"), s("c"), s("d")], &available), vec![s("c"), s("d")]);
    assert_eq!(deletion_refusal(&vec![s("a"), s("c"), s("d")], &available).unwrap(), "Datasets not found: c, d");
    assert!(deletion_refusal(&vec![s("b")], &available).is_none());
}

#[test]
fn cache_durations() {
    assert_eq!(cache_duration_seconds("hours", 2).unwrap(), 7200);
    assert_eq!(cache_duration_seconds("D", 1).unwrap(), 86400);
    assert_eq!(cache_duration_seconds("minute", 3).unwrap(), 180);
    assert_eq!(
        cache_duration_seconds("weeks", 1).unwrap_err(),
        "Invalid cache resolution: 'weeks'. Must be one of: seconds, minutes, hours, days"
    );
    assert!(cache_still_valid(0, 10, 9_999_999));
    assert!(!cache_still_valid(0, 10, 10_000_000));
    assert_eq!(format_duration(3 * 86_400_000_000), "3 days");
    assert_eq!(format_duration(-7_200_000_000), "2 hours");
    assert_eq!(format_duration(90_000_000), "1 minutes");
    assert_eq!(format_duration(5_000_000), "5 seconds");
    assert!(force_refresh(false, "TRUE"));
    assert!(!force_refresh(false, "yes"));
    assert!(checks_cache(false, false));
    assert!(!checks_cache(true, false));
}

#[test]
fn recorded_arguments() {
    let v = metadata_args("ds", true, false, true, "100", "hours", 1, false);
    assert_eq!(v, vec![s("--dataset-name"), s("ds"), s("--verbose"), s("--use-gamma"), s("--chunk-size-mb"), s("100"), s("--cache-resolution"), s("hours"), s("--cache-duration"), s("1")]);
}

fn filters() -> DbListFilters {
    DbListFilters { active_only: false, closed_only: false, category: None, min_volume: None }
}

#[test]
fn db_list_queries() {
    assert!(db_list_interactive(true, false));
    assert!(!db_list_interactive(true, true));
    let p = build_list_query(&filters(), "volume", "desc", 50, 20, 0);
    assert_eq!(p.query, "SELECT * FROM markets ORDER BY volume DESC");
    assert!(p.batched);
    let f = DbListFilters { active_only: true, category: Some(s("Sports")), min_volume: Some(s("1000")), ..filters() };
    let p = build_list_query(&f, "volume", "asc", 20000, 50000, 10);
    assert_eq!(p.query, "SELECT * FROM markets WHERE active = true AND volume >= 1000 AND category = 'Sports' LIMIT 10000 START 10");
    assert!(!p.sorted);
    let p = build_list_query(&filters(), "created_at", "asc", 20000, 5, 3);
    assert_eq!(p.query, "SELECT * FROM markets ORDER BY created_at ASC LIMIT 5 START 3");
}

#[test]
fn db_list_paging_and_cells() {
    let h = page_hints(20, 40, 20, 100);
    assert_eq!(h.previous_offset, Some(20));
    assert_eq!(h.next_offset, Some(60));
    assert_eq!(h.showing, Some((41, 60)));
    let h = page_hints(20, 0, 5, 5);
    assert_eq!(h.previous_offset, None);
    assert_eq!(h.next_offset, None);
    assert_eq!(h.showing, None);
    assert_eq!(page_hints(20, 5, 1, 100).previous_offset, Some(0));
    let long = "x".repeat(49);
    assert_eq!(question_cell(&long), format!("{}\u{2026}", "x".repeat(47)));
    assert_eq!(question_cell("short"), "short");
    assert_eq!(category_cell(Some("Politics and Elections")), "Politics and ");
    assert_eq!(category_cell(None), "-");
    assert_eq!(market_status(true, true), MarketStatus::Active);
    assert_eq!(market_status(false, true), MarketStatus::Closed);
    assert_eq!(market_status(false, false), MarketStatus::Inactive);
    assert_eq!(page_window(2, 50, 120), (100, 120));
    assert_eq!(page_window(3, 50, 120), (120, 120));
}

fn browser() -> BrowserState {
    BrowserState {
        search_query: String::new(),
        search_mode: false,
        search_loading: false,
        show_help: false,
        show_details: false,
        show_progress: false,
        current_page: 0,
        page_size: 50,
        total_markets: 120,
        total_search_results: 0,
    }
}

#[test]
fn browser_keys() {
    let mut b = browser();
    assert_eq!(b.handle_key(BrowserKey::PageDown), BrowserAction::LoadPage);
    assert_eq!(b.handle_key(BrowserKey::PageDown), BrowserAction::LoadPage);
    assert_eq!(b.current_page, 2);
    assert_eq!(b.handle_key(BrowserKey::PageDown), BrowserAction::Stay);
    assert_eq!(b.handle_key(BrowserKey::PageUp), BrowserAction::LoadPage);
    assert_eq!(b.current_page, 1);
    assert_eq!(b.handle_key(BrowserKey::Char('/')), BrowserAction::Stay);
    assert!(b.search_mode);
    b.handle_key(BrowserKey::Char('a'));
    b.handle_key(BrowserKey::Char('b'));
    b.handle_key(BrowserKey::Backspace);
    assert_eq!(b.search_query, "a");
    assert_eq!(b.handle_key(BrowserKey::Enter), BrowserAction::StartSearch);
    assert!(b.search_loading);
    assert_eq!(b.current_page, 0);
    assert_eq!(b.handle_key(BrowserKey::Down), BrowserAction::Stay);
    b.handle_key(BrowserKey::Esc);
    assert!(!b.search_loading);
    assert_eq!(b.search_query, "");
    assert_eq!(b.handle_key(BrowserKey::Down), BrowserAction::SelectNext);
    assert_eq!(b.handle_key(BrowserKey::Char('b')), BrowserAction::BuildIndex);
    b.handle_key(BrowserKey::Char('h'));
    assert!(b.show_help);
    assert_eq!(b.handle_key(BrowserKey::Char('q')), BrowserAction::Quit);
}

fn index_args() -> IndexArgs {
    IndexArgs {
        db_path: None,
        use_file_store: true,
        rocksdb: false,
        source_dir: None,
        chunk_files: None,
        clear: false,
        skip_duplicates: true,
        batch_size: 1000,
        detailed: false,
        threads: 0,
    }
}

#[test]
fn index_choices() {
    let c = IndexCommand::new(index_args());
    assert!(c.opens_interface());
    assert_eq!(c.storage(), IndexStorage::FileStore);
    assert_eq!(c.rocksdb_path(), "./data/database/rocksdb");
    let c = IndexCommand::new(IndexArgs { rocksdb: true, clear: true, db_path: Some(s("/tmp/db")), ..index_args() });
    assert!(!c.opens_interface());
    assert_eq!(c.storage(), IndexStorage::RocksDb);
    assert_eq!(c.rocksdb_path(), "/tmp/db");
    let c = IndexCommand::new(IndexArgs { use_file_store: false, ..index_args() });
    assert_eq!(c.storage(), IndexStorage::LegacyRocksDb);
}

#[test]
fn index_chunk_files_and_markets() {
    assert_eq!(requested_chunk_files(" a.json , b.json"), vec![s("a.json"), s("b.json")]);
    let names = vec![s("markets_chunk_2.json"), s("other.json"), s("markets_chunk_1.json"), s("markets_chunk_3.txt")];
    assert_eq!(discovered_chunk_files(&names), vec![s("markets_chunk_1.json"), s("markets_chunk_2.json")]);
    assert_eq!(market_key_of(&Some(s("m1")), &Some(s("c1"))), Some((s("m1"), s("c1"))));
    assert_eq!(market_key_of(&Some(s("  ")), &Some(s("c1"))), Some((s("market_c1"), s("c1"))));
    assert_eq!(market_key_of(&Some(s("m1")), &Some(s(" "))), None);
    assert_eq!(market_key_of(&None, &None), None);
    assert_eq!(market_outcome(true, true, true), MarketOutcome::Duplicate);
    assert_eq!(market_outcome(true, false, true), MarketOutcome::Indexed);
    assert_eq!(market_outcome(false, true, false), MarketOutcome::Skipped);
    let t = tally_chunk(&vec![MarketOutcome::Indexed, MarketOutcome::Duplicate, MarketOutcome::Indexed, MarketOutcome::Skipped]);
    assert_eq!((t.markets_indexed, t.duplicates_skipped, t.markets_skipped), (2, 1, 1));
    let mut totals = IndexTotals { total_markets: 5, duplicate_markets: 1 };
    add_chunk(&mut totals, &t);
    assert_eq!(totals.total_markets, 7);
    assert_eq!(totals.duplicate_markets, 2);
    assert_eq!(batch_progress(0, 1000, 2500), 1000);
    assert_eq!(batch_progress(2, 1000, 2500), 2500);
}

#[test]
fn install_choices() {
    assert_eq!(install_directory(Some("/opt/bin"), Some("/home/u")), "/opt/bin");
    assert_eq!(install_directory(None, Some("/home/u")), "/home/u/.local/bin");
    assert_eq!(install_directory(None, None), "/usr/local/bin");
    assert!(overwrite_confirmed(" YES\n"));
    assert!(overwrite_confirmed("y"));
    assert!(!overwrite_confirmed("yep"));
    assert!(dir_on_path("/usr/bin:/home/u/.local/bin", "/home/u/.local/bin"));
    assert!(!dir_on_path("/usr/bin", "/home/u/.local/bin"));
}

#[test]
fn markets_modes() {
    assert!(matches!(markets_plan(MarketMode::List, &None), MarketsPlan::Browser));
    assert!(matches!(markets_plan(MarketMode::List, &Some(s("q"))), MarketsPlan::List(Some(q)) if q == "q"));
    assert!(matches!(markets_plan(MarketMode::Search, &None), MarketsPlan::MissingQuery(MarketMode::Search)));
    assert!(matches!(markets_plan(MarketMode::Url, &Some(s("u"))), MarketsPlan::Url(u) if u == "u"));
    assert!(matches!(markets_plan(MarketMode::Db, &None), MarketsPlan::Db));
}

#[test]
fn truncation() {
    assert_eq!(truncate_text("hello", 10), "hello");
    assert_eq!(truncate_text("hello world", 8), "hello...");
    assert_eq!(truncate_text("abcdef", 2), "...");
    // "é" is two bytes: the cut after five bytes falls after "aéé".
    assert_eq!(truncate_text("a\u{e9}\u{e9}bcdef", 8), "a\u{e9}\u{e9}...");
    assert_eq!(truncate_text("hello", usize::MAX), "hello");
    assert_eq!(truncate_text("", 0), "");
}

#[test]
fn order_token_filter() {
    let ids = vec![s("abc123"), s("xyz"), s("123")];
    assert_eq!(token_filter_mask(&ids, Some("123")), vec![true, false, true]);
    assert_eq!(token_filter_mask(&ids, None), vec![true, true, true]);
}

fn pipeline_args() -> PipelineArgs {
    PipelineArgs { name: None, pipelines_dir: s("pipelines"), param: vec![], dry_run: false, list: false }
}

#[test]
fn pipeline_modes_and_params() {
    assert!(matches!(pipeline_mode(&pipeline_args()), PipelineMode::Interactive));
    assert!(matches!(pipeline_mode(&PipelineArgs { list: true, name: Some(s("x")), ..pipeline_args() }), PipelineMode::List));
    assert!(matches!(pipeline_mode(&PipelineArgs { name: Some(s("x")), ..pipeline_args() }), PipelineMode::Run(n) if n == "x"));
    let p = parse_params(&vec![s("a=1"), s("b=x=y"), s("c=")]).unwrap();
    assert_eq!(p, vec![(s("a"), s("1")), (s("b"), s("x=y")), (s("c"), s(""))]);
    assert_eq!(parse_params(&vec![s("a=1"), s("bad")]).unwrap_err(), "Invalid parameter format: 'bad'. Use key=value format.");
    let _ = PipelineCommand::new(pipeline_args());
}

#[test]
fn portfolio_tui_navigation() {
    let mut app: App<u32, u32> = App::new(s("0xabc"), vec![1, 2, 3], vec![]);
    assert_eq!(app.orders_selected, Some(0));
    assert_eq!(app.positions_selected, None);
    app.previous_order();
    assert_eq!(app.orders_selected, Some(2));
    app.next_order();
    assert_eq!(app.orders_selected, Some(0));
    app.next_position();
    assert_eq!(app.positions_selected, None);
    app.handle_key(Key::Tab);
    assert_eq!(app.current_tab, 1);
    app.handle_key(Key::BackTab);
    assert_eq!(app.current_tab, 0);
    app.handle_key(Key::Char('j'));
    assert_eq!(app.orders_selected, Some(1));
    app.handle_key(Key::Up);
    assert_eq!(app.orders_selected, Some(0));
    assert!(!app.should_quit);
    app.handle_key(Key::CtrlC);
    assert!(app.should_quit);
}

#[test]
fn portfolio_tui_cycles() {
    let mut app: App<u8, u8> = App::new(s("a"), vec![0; 4], vec![0; 2]);
    for _ in 0..4 {
        app.next_order();
    }
    assert_eq!(app.orders_selected, Some(0));
    app.next_tab();
    app.next_tab();
    assert_eq!(app.current_tab, 0);
}

#[test]
fn strategy_tokens() {
    assert!(needs_resolution("1084"));
    assert!(!needs_resolution("0x12"));
    assert!(!needs_resolution(&"9".repeat(70)));
    let files = vec![s("1084_snapshot.fb"), s("1084_updates.fb"), s("1099_snapshot.fb"), s("2000_snapshot.fb"), s("1084_snapshot.fb")];
    assert_eq!(snapshot_tokens_matching(&files, "10"), vec![s("1084"), s("1099")]);
    assert!(matches!(resolution_of(vec![]), Resolution::NoMatch));
    assert!(matches!(resolution_of(vec![s("a")]), Resolution::Unique(t) if t == "a"));
    assert!(matches!(resolution_of(vec![s("a"), s("b")]), Resolution::Choose(v) if v.len() == 2));
    assert_eq!(read_selection(" 2\n", 3), Ok(1));
    assert_eq!(read_selection("+1", 3), Ok(0));
    assert_eq!(read_selection("0", 3), Err(SelectionError::OutOfRange));
    assert_eq!(read_selection("4", 3), Err(SelectionError::OutOfRange));
    assert_eq!(read_selection("two", 3), Err(SelectionError::NotANumber));
    assert!(strategy_supported("simple"));
    assert!(!strategy_supported("fancy"));
    assert!(subscription_assets(true, &vec![s("a")]).is_empty());
    assert_eq!(subscription_assets(false, &vec![s("a")]), vec![s("a")]);
}

#[test]
fn strategy_session_counts() {
    let mut c = SessionCounters::new();
    assert!(c.waiting());
    let e = c.record(EventKind::Book, true);
    assert!(e.refresh_orderbook);
    let e = c.record(EventKind::MyTrade, false);
    assert!(e.own_activity && !e.refresh_orderbook);
    let e = c.record(EventKind::PriceChange, false);
    assert!(!e.refresh_orderbook);
    assert_eq!(c.event_count, 3);
    assert_eq!(c.order_event_count, 1);
    assert!(!c.waiting());
}

#[test]
fn export_formats() {
    assert_eq!(ExportFormat::parse("CSV").unwrap(), ExportFormat::CommaSeparated);
    assert_eq!(ExportFormat::parse("list").unwrap(), ExportFormat::List);
    assert_eq!("json".parse::<ExportFormat>().unwrap(), ExportFormat::Json);
    assert_eq!(ExportFormat::parse("xml").unwrap_err(), "Unknown format: xml");
}

fn stream_args() -> StreamArgs {
    StreamArgs {
        assets: vec![],
        markets_path: None,
        selection: None,
        markets: None,
        api_key: None,
        secret: None,
        passphrase: None,
        heartbeat_interval: 10,
        max_reconnection_attempts: 0,
        show_book: false,
        show_trades: false,
        show_user: false,
        summary_interval: None,
        sandbox: false,
        tui: true,
    }
}

#[test]
fn stream_asset_sources() {
    assert!(matches!(asset_source(&stream_args()), AssetSource::Selector));
    let a = StreamArgs { selection: Some(s("sel")), markets_path: Some(s("m.json")), ..stream_args() };
    assert!(matches!(asset_source(&a), AssetSource::MarketsFile(p) if p == "m.json"));
    let a = StreamArgs { selection: Some(s("sel")), ..stream_args() };
    assert!(matches!(asset_source(&a), AssetSource::Selection(n) if n == "sel"));
    let a = StreamArgs { assets: vec![s("t")], selection: Some(s("sel")), ..stream_args() };
    assert!(matches!(asset_source(&a), AssetSource::Direct(v) if v == vec![s("t")]));
    let markets = vec![Some(vec![Some(s("a")), None, Some(s("b"))]), None, Some(vec![Some(s("c"))])];
    assert_eq!(token_ids_of_markets(&markets), vec![s("a"), s("b"), s("c")]);
    assert_eq!(asset_list_marker(0, 3), "\u{251c}");
    assert_eq!(asset_list_marker(2, 3), "\u{2514}");
    assert_eq!(asset_list_marker(4, 9), "\u{2514}");
    let _ = StreamCommand::new(stream_args());
}

#[test]
fn worktree_listing() {
    let out = "worktree /repo\nHEAD abc\nbranch refs/heads/main\n\nworktree /repo-feat\nHEAD def\nbranch refs/heads/feat/x\n\nworktree /bare\nbare\n";
    let list = parse_worktree_list(out);
    assert_eq!(list.len(), 3);
    assert_eq!(list[0].path, "/repo");
    assert_eq!(list[0].head.as_deref(), Some("abc"));
    assert!(main_branch(&list[0].branch));
    assert!(!main_branch(&list[1].branch));
    assert_eq!(branch_display_name(&list[1].branch), "x");
    assert_eq!(branch_display_name(&None), "(detached)");
    assert!(list[2].bare);
    assert!(list[2].branch.is_none());
    assert!(parse_worktree_list("").is_empty());
    assert_eq!(parse_sync_what("all").unwrap(), SyncWhat::All);
    assert_eq!(parse_sync_what("logs").unwrap_err(), "Unknown sync type: logs. Use: data, env, creds, or all");
    assert_eq!(remove_worktree_args("/p", true), vec![s("worktree"), s("remove"), s("--force"), s("/p")]);
    assert_eq!(remove_worktree_args("/p", false), vec![s("worktree"), s("remove"), s("/p")]);
}

#[test]
fn main_worktree_lookup() {
    let out = "worktree /repo/feature\nHEAD abc\nbranch refs/heads/feature\n\nworktree /repo/main\nHEAD def\nbranch refs/heads/main\n\n";
    assert_eq!(main_worktree_path(out), Some(s("/repo/main")));
    let master = "worktree /a\nbranch refs/heads/master\n";
    assert_eq!(main_worktree_path(master), Some(s("/a")));
    assert_eq!(main_worktree_path("worktree /a\nbranch refs/heads/dev\n"), None);
    assert_eq!(main_worktree_path("branch refs/heads/main\n"), None);
    assert_eq!(main_worktree_path(""), None);
    // The last path of a chunk counts.
    assert_eq!(main_worktree_path("worktree /x\nworktree /y\nbranch refs/heads/main"), Some(s("/y")));
}

#[test]
fn stream_user_feeds() {
    let mut args = stream_args();
    args.api_key = Some(s("k"));
    args.secret = Some(s("x"));
    args.passphrase = Some(s("p"));
    match stream_user_feed(&args) {
        UserFeed::Authenticated(c) => {
            assert_eq!(c.api_key, "k");
            assert_eq!(c.secret, "x");
            assert_eq!(c.passphrase, "p");
        }
        other => panic!("unexpected {:?}", other),
    }
    args.passphrase = None;
    args.markets = Some(vec![s("m")]);
    assert!(matches!(stream_user_feed(&args), UserFeed::DisabledWithoutAuth));
    args.markets = None;
    assert!(matches!(stream_user_feed(&args), UserFeed::NotRequested));
}

#[test]
fn stream_keys() {
    assert_eq!(stream_key_action(StreamKey::Char('q'), false), StreamAction::Quit);
    assert_eq!(stream_key_action(StreamKey::Char('Q'), true), StreamAction::Quit);
    assert_eq!(stream_key_action(StreamKey::Up, true), StreamAction::ScrollOrderBookUp);
    assert_eq!(stream_key_action(StreamKey::Up, false), StreamAction::SelectPrevious);
    assert_eq!(stream_key_action(StreamKey::Down, true), StreamAction::ScrollOrderBookDown);
    assert_eq!(stream_key_action(StreamKey::Down, false), StreamAction::SelectNext);
    assert_eq!(stream_key_action(StreamKey::Char('m'), true), StreamAction::ResetOrderBookScroll);
    assert_eq!(stream_key_action(StreamKey::Char('M'), false), StreamAction::Nothing);
    assert_eq!(stream_key_action(StreamKey::Enter, false), StreamAction::SelectToken);
    assert_eq!(stream_key_action(StreamKey::Esc, true), StreamAction::GoBack);
    assert_eq!(stream_key_action(StreamKey::Backspace, false), StreamAction::GoBack);
    assert_eq!(stream_key_action(StreamKey::Char('r'), false), StreamAction::Refresh);
    assert_eq!(stream_key_action(StreamKey::Char('R'), false), StreamAction::Nothing);
    assert_eq!(stream_key_action(StreamKey::Other, false), StreamAction::Nothing);
}

#[test]
fn terminal_failures() {
    assert_eq!(terminal_failure("stdout is not a terminal"), TerminalFailure::Unavailable);
    assert_eq!(terminal_failure("Device not configured (os error 6)"), TerminalFailure::Unavailable);
    assert_eq!(terminal_failure("Inappropriate ioctl for device"), TerminalFailure::Unavailable);
    assert_eq!(terminal_failure("Failed to enable raw mode"), TerminalFailure::SetupFailed);
}

#[test]
fn initial_data_wait() {
    let mut w = InitialDataWait::new();
    assert_eq!(w.on_event(WaitEvent::Timeout), WaitStep::Waiting);
    assert_eq!(w.elapsed_ms, 500);
    assert_eq!(w.progress_dots, 1);
    assert_eq!(w.on_event(WaitEvent::Data), WaitStep::Done);
    assert_eq!(w.outcome(0, false), WaitOutcome::RealTime);

    let mut w = InitialDataWait::new();
    let mut steps = 0;
    loop {
        steps += 1;
        if w.on_event(WaitEvent::Timeout) == WaitStep::Done {
            break;
        }
    }
    assert_eq!(steps, 20);
    assert_eq!(w.elapsed_ms, 10_000);
    assert_eq!(w.progress_dots, 0);
    assert_eq!(w.outcome(0, false), WaitOutcome::TimedOut);
    assert_eq!(w.outcome(3, false), WaitOutcome::RestOnly);
    assert_eq!(w.outcome(0, true), WaitOutcome::RestOnly);

    let mut w = InitialDataWait::new();
    assert_eq!(w.on_event(WaitEvent::Lagged), WaitStep::Done);
    assert_eq!(w.outcome(0, false), WaitOutcome::RestOnly);
    let mut w = InitialDataWait::new();
    assert_eq!(w.on_event(WaitEvent::Closed), WaitStep::ChannelClosed);
}

#[test]
fn browser_paging_comes_back() {
    let mut b = browser();
    b.current_page = 1;
    assert_eq!(b.handle_key(BrowserKey::PageDown), BrowserAction::LoadPage);
    assert_eq!(b.handle_key(BrowserKey::PageUp), BrowserAction::LoadPage);
    assert_eq!(b.current_page, 1);
    assert_eq!(b.handle_key(BrowserKey::PageUp), BrowserAction::LoadPage);
    assert_eq!(b.handle_key(BrowserKey::PageDown), BrowserAction::LoadPage);
    assert_eq!(b.current_page, 1);
}

#[test]
fn no_asset_source_is_an_error() {
    let mut args = stream_args();
    args.assets = vec![];
    args.markets_path = None;
    args.selection = None;
    let src = asset_source(&args);
    assert_eq!(source_error(&src), Some(s("No assets specified")));
    args.selection = Some(s("mine"));
    assert_eq!(source_error(&asset_source(&args)), None);
}

#[test]
fn conditions_count_their_markets() {
    let mut conditions: Vec<ConditionCount> = Vec::new();
    count_condition(&mut conditions, "c1".to_string(), 1);
    count_condition(&mut conditions, "c2".to_string(), 1);
    count_condition(&mut conditions, "c1".to_string(), 1);
    count_condition(&mut conditions, "c1".to_string(), 1);
    let pairs: Vec<(String, u64)> = conditions.iter().map(|c| (c.condition_id.clone(), c.market_count)).collect();
    assert_eq!(pairs, vec![("c1".to_string(), 3), ("c2".to_string(), 1)]);
}

#[test]
fn tokens_are_grouped_by_condition() {
    let mut groups: Vec<TokenGroup<u32>> = Vec::new();
    group_token(&mut groups, Some("c1".to_string()), 10);
    group_token(&mut groups, None, 99);
    group_token(&mut groups, Some("c2".to_string()), 20);
    group_token(&mut groups, Some("c1".to_string()), 11);
    assert_eq!(groups.len(), 2);
    assert_eq!(groups[0].condition_id, "c1");
    assert_eq!(groups[0].tokens, vec![10, 11]);
    assert_eq!(groups[1].condition_id, "c2");
    assert_eq!(groups[1].tokens, vec![20]);
}

#[test]
fn cache_validity_from_metadata_time() {
    let created = 1_704_067_200i64; // 2024-01-01T00:00:00Z
    let at = |secs: i64, nanos: u32| Instant { secs, nanos };
    assert_eq!(cache_valid_at("2024-01-01T00:00:00Z", 3600, at(created + 3599, 999_999_999)), Some(true));
    assert_eq!(cache_valid_at("2024-01-01T00:00:00Z", 3600, at(created + 3600, 0)), Some(false));
    assert_eq!(cache_valid_at("2024-01-01T02:00:00+02:00", 60, at(created + 30, 0)), Some(true));
    assert_eq!(cache_valid_at("2024-01-01T00:00:00.5Z", 1, at(created + 1, 400_000_000)), Some(true));
    assert_eq!(cache_valid_at("not a time", 3600, at(created, 0)), None);
}

#[test]
fn assets_come_from_markets_text() {
    let text = r#"[
        {"question": "a", "tokens": [{"token_id": "t1"}, {"outcome": "No"}, {"token_id": "t2"}]},
        {"question": "b"},
        {"tokens": [{"token_id": 7}, {"token_id": "t3"}]}
    ]"#;
    let (assets, untokened) = assets_of_markets_text(text).unwrap();
    assert_eq!(assets, vec!["t1".to_string(), "t2".to_string(), "t3".to_string()]);
    assert_eq!(untokened, vec![1usize]);
    assert_eq!(assets_of_markets_text("[]"), Some((vec![], vec![])));
    assert!(assets_of_markets_text("{\"tokens\": []}").is_none());
    assert!(assets_of_markets_text("not json").is_none());
}
