use polybot::address_book::commands::{
    active_entries, filter_by_kind, merge_tags, parse_address_type, parse_sort_field, parse_tags,
    plan_edit, plan_tag, query_from_args, remove_tags, EditAddressArgs, EditRefusal,
    QueryAddressArgs, TagAddressesArgs,
};
use polybot::address_book::db::{
    batch_file, begin_sync, count_json_files, finish_sync, latest_activity_second, stored_batch_files,
    stored_summary, HistoricalDatabase, StoredDataSummary, SyncState,
};
use polybot::address_book::service::{
    handle_add_address, handle_get_address, handle_get_current_address, handle_get_stats,
    handle_import_csv, handle_list_addresses, handle_query_addresses, handle_remove_address,
    handle_set_current_address, handle_update_address, ensure_user_address, init_wallet_address, ServiceError,
    UserAddressOutcome,
};
use polybot::address_book::storage::{
    checksum_address, old_backups, export_csv_text, import_csv_text, export_csv_header, export_csv_row, import_csv_lines, parse_csv_line,
    validate_address, AddressBookError, AddressBookStorage,
};
use polybot::address_book::sync::{
    activity_batch_id, position_key_of, scan_positions, ActivityRecord, ActivitySync, FetchOutcome,
    PositionRecord, RetryPolicy, RetryStep,
};
use polybot::address_book::types::{
    AddressBook, AddressEntry, AddressQuery, AddressSortField, AddressType, Amount, AddressStats,
};

const A1: &str = "0x1111111111111111111111111111111111111111";
const A2: &str = "0x2222222222222222222222222222222222222222";
const A3: &str = "0xABCDEFabcdef0000000000000000000000000000";

fn s(x: &str) -> String {
    x.to_string()
}

fn book_with_two() -> AddressBook {
    let mut b = AddressBook::new_at(0);
    handle_add_address(&mut b, s(A1), Some(s("alice")), None, AddressType::Own, vec![s("x")], 10).unwrap();
    handle_add_address(&mut b, s(A2), None, Some(s("desc")), AddressType::Watched, vec![], 20).unwrap();
    b
}

#[test]
fn validate_address_accepts_and_lowercases() {
    assert_eq!(validate_address(A3).unwrap(), "0xabcdefabcdef0000000000000000000000000000");
    assert_eq!(validate_address("  abcdefabcdef0000000000000000000000000000 ").unwrap(), "0xabcdefabcdef0000000000000000000000000000");
    assert_eq!(validate_address("0XABCDEFABCDEF0000000000000000000000000000").unwrap(), "0xabcdefabcdef0000000000000000000000000000");
}

#[test]
fn validate_address_rejects_bad_length_and_digits() {
    match validate_address("0x1234") {
        Err(AddressBookError::InvalidAddress(m)) => assert_eq!(m, "Address must be 40 hexadecimal characters"),
        _ => panic!("expected an invalid address"),
    }
    match validate_address("0xg111111111111111111111111111111111111111") {
        Err(AddressBookError::InvalidAddress(m)) => assert_eq!(m, "Address must contain only hexadecimal characters"),
        _ => panic!("expected an invalid address"),
    }
}

#[test]
fn validated_address_validates_to_itself() {
    let v = validate_address(A3).unwrap();
    assert_eq!(validate_address(&v).unwrap(), v);
}

#[test]
fn checksum_keeps_a_validated_address() {
    let v = validate_address(A3).unwrap();
    assert_eq!(checksum_address(&v), v);
}

#[test]
fn checksum_address_strips_prefixes_and_lowercases() {
    assert_eq!(checksum_address("0xABC"), "0xabc");
    assert_eq!(checksum_address("0x0xABC"), "0xabc");
    assert_eq!(checksum_address("0XAB"), "0xab");
    assert_eq!(checksum_address("ab"), "0xab");
}

#[test]
fn add_then_get_returns_the_entry() {
    let mut b = book_with_two();
    let e = handle_get_address(&mut b, s(A1), 30).unwrap();
    assert_eq!(e.address, A1);
    assert_eq!(e.label.as_deref(), Some("alice"));
    // A label finds the same entry.
    let by_label = handle_get_address(&mut b, s("alice"), 31).unwrap();
    assert_eq!(by_label.address, A1);
    // Each get counts a query.
    let again = b.get_entry(A1).unwrap();
    assert_eq!(again.metadata.query_count, 2);
}

#[test]
fn duplicate_address_and_label_are_refused() {
    let mut b = book_with_two();
    match handle_add_address(&mut b, s(A1), None, None, AddressType::Other, vec![], 40) {
        Err(AddressBookError::AddressExists(a)) => assert_eq!(a, A1),
        _ => panic!("expected AddressExists"),
    }
    match handle_add_address(&mut b, s(A3), Some(s("alice")), None, AddressType::Other, vec![], 40) {
        Err(AddressBookError::LabelExists(l)) => assert_eq!(l, "alice"),
        _ => panic!("expected LabelExists"),
    }
    match handle_add_address(&mut b, s("nope"), None, None, AddressType::Other, vec![], 40) {
        Err(AddressBookError::InvalidAddress(_)) => {}
        _ => panic!("expected InvalidAddress"),
    }
    assert_eq!(b.entries.len(), 2);
}

#[test]
fn counts_follow_adds_and_removes() {
    let mut b = book_with_two();
    let m = handle_get_stats(&b);
    assert_eq!(m.total_addresses, 2);
    assert_eq!(m.own_addresses, 1);
    assert_eq!(m.watched_addresses, 1);
    handle_remove_address(&mut b, s(A1), 50).unwrap();
    let m = handle_get_stats(&b);
    assert_eq!(m.total_addresses, 1);
    assert_eq!(m.own_addresses, 0);
    assert!(b.get_entry(A1).is_none());
    assert!(b.get_entry("alice").is_none());
    match handle_remove_address(&mut b, s(A1), 60) {
        Err(AddressBookError::AddressNotFound(a)) => assert_eq!(a, A1),
        _ => panic!("expected AddressNotFound"),
    }
}

#[test]
fn update_changes_fields_and_label_index() {
    let mut b = book_with_two();
    let e = handle_update_address(&mut b, s(A2), Some(s("bob")), None, Some(vec![s("t1"), s("t2")]), Some(false), Some(s("n")), 70).unwrap();
    assert_eq!(e.label.as_deref(), Some("bob"));
    assert_eq!(e.tags, vec![s("t1"), s("t2")]);
    assert!(!e.is_active);
    assert_eq!(e.notes.as_deref(), Some("n"));
    assert_eq!(b.get_entry("bob").unwrap().address, A2);
    match handle_update_address(&mut b, s(A2), Some(s("alice")), None, None, None, None, 80) {
        Err(AddressBookError::LabelExists(l)) => assert_eq!(l, "alice"),
        _ => panic!("expected LabelExists"),
    }
}

#[test]
fn set_current_marks_one_entry() {
    let mut b = book_with_two();
    handle_set_current_address(&mut b, s(A1), 90).unwrap();
    handle_set_current_address(&mut b, s(A2), 91).unwrap();
    let cur = handle_get_current_address(&b).unwrap();
    assert_eq!(cur.address, A2);
    let current: Vec<_> = b.entries.iter().filter(|e| e.metadata.is_current).collect();
    assert_eq!(current.len(), 1);
    match handle_set_current_address(&mut b, s(A3), 92) {
        Err(ServiceError::Failed(m)) => assert_eq!(m, "Address not found in address book"),
        _ => panic!("expected a failure"),
    }
    assert!(matches!(handle_set_current_address(&mut b, s("zz"), 93), Err(ServiceError::Book(AddressBookError::InvalidAddress(_)))));
}

#[test]
fn list_sorts_by_display_name_and_limits() {
    let b = book_with_two();
    let all = handle_list_addresses(&b, None);
    assert_eq!(all.len(), 2);
    // "0x2222...2222" sorts before "alice".
    assert_eq!(all[0].address, A2);
    assert_eq!(all[1].address, A1);
    assert_eq!(handle_list_addresses(&b, Some(1)).len(), 1);
}

#[test]
fn limited_query_is_a_prefix_and_ties_keep_book_order() {
    let mut b = book_with_two();
    handle_add_address(&mut b, s(A3), None, None, AddressType::Other, vec![], 30).unwrap();
    let mut q = AddressQuery::default();
    q.sort_by = AddressSortField::QueryCount;
    q.ascending = false;
    let all: Vec<String> = b.query(&q).iter().map(|e| e.address.clone()).collect();
    assert_eq!(all.len(), 3);
    assert_eq!(all[0], A1);
    assert_eq!(all[1], A2);
    for n in 0..5usize {
        let mut lq = AddressQuery::default();
        lq.sort_by = AddressSortField::QueryCount;
        lq.ascending = false;
        lq.limit = Some(n);
        let some: Vec<String> = b.query(&lq).iter().map(|e| e.address.clone()).collect();
        assert_eq!(some, all[..n.min(all.len())].to_vec());
    }
}

#[test]
fn query_filters_sorts_and_counts() {
    let mut b = book_with_two();
    let mut q = AddressQuery::default();
    q.address_type = Some(AddressType::Own);
    let r = handle_query_addresses(&mut b, q, 100);
    assert_eq!(r.len(), 1);
    assert_eq!(r[0].address, A1);
    assert_eq!(b.get_entry(A1).unwrap().metadata.query_count, 1);
    let mut q = AddressQuery::default();
    q.search = Some(s("DESC"));
    let r = handle_query_addresses(&mut b, q, 101);
    assert_eq!(r.len(), 1);
    assert_eq!(r[0].address, A2);
    let mut q = AddressQuery::default();
    q.tags = vec![s("x")];
    let r = handle_query_addresses(&mut b, q, 102);
    assert_eq!(r.len(), 1);
    let mut q = AddressQuery::default();
    q.sort_by = AddressSortField::Address;
    q.ascending = true;
    q.limit = Some(1);
    let r = handle_query_addresses(&mut b, q, 103);
    assert_eq!(r.len(), 1);
    assert_eq!(r[0].address, A1);
}

#[test]
fn display_name_falls_back_to_short_address() {
    let e = AddressEntry::new_at(s(A1), AddressType::Own, 0);
    assert_eq!(e.display_name(), "0x1111...1111");
    let mut e2 = AddressEntry::new_at(s(A1), AddressType::Own, 0);
    e2.metadata.ens_name = Some(s("vitalik.eth"));
    assert_eq!(e2.display_name(), "vitalik.eth");
    e2.label = Some(s("me"));
    assert_eq!(e2.display_name(), "me");
}

#[test]
fn matches_search_is_case_insensitive() {
    let mut e = AddressEntry::new_at(s(A1), AddressType::Own, 0);
    e.tags = vec![s("Whale")];
    assert!(e.matches_search("whale"));
    assert!(e.matches_search("0X1111"));
    assert!(!e.matches_search("shark"));
    e.label = Some(s("Équipe ÀBC"));
    assert!(e.matches_search("àbc"));
    assert!(e.matches_search("ÉQUIPE"));
}

#[test]
fn record_query_counts() {
    let mut e = AddressEntry::new_at(s(A1), AddressType::Own, 0);
    e.record_query_at(5);
    e.record_query_at(6);
    assert_eq!(e.metadata.query_count, 2);
    assert_eq!(e.metadata.last_queried, Some(6));
}

#[test]
fn csv_line_parses_fields() {
    let e = parse_csv_line(" 0xabc , lbl ,Market Maker, d ,a; b ,x,y,z, true", 7).unwrap();
    assert_eq!(e.address, "0xabc");
    assert_eq!(e.label.as_deref(), Some("lbl"));
    assert_eq!(e.address_type, AddressType::MarketMaker);
    assert_eq!(e.description.as_deref(), Some("d"));
    assert_eq!(e.tags, vec![s("a"), s("b")]);
    assert!(e.is_active);
    assert_eq!(e.metadata.added_at, 7);
    assert!(parse_csv_line("a,b,c", 0).is_none());
    let e = parse_csv_line("0xabc,,Unknown,,,,,,false", 0).unwrap();
    assert_eq!(e.address_type, AddressType::Other);
    assert!(e.label.is_none());
    assert!(e.tags.is_empty());
    assert!(!e.is_active);
}

#[test]
fn csv_import_skips_header_and_short_lines() {
    let lines = vec![
        s("Address,Label,Type,Description,Tags,Added At,Last Synced,Total Value,Active"),
        s("0xaaa,,Own,,,,,,true"),
        s("too,short"),
        s("0xbbb,b,Watched,,,,,,false"),
    ];
    let entries = import_csv_lines(&lines);
    assert_eq!(entries.len(), 2);
    assert_eq!(entries[0].address, "0xaaa");
    assert_eq!(entries[1].address, "0xbbb");
    let mut b = AddressBook::new_at(0);
    assert_eq!(handle_import_csv(&mut b, entries, 1), 2);
    assert_eq!(b.entries.len(), 2);
}

#[test]
fn csv_export_row_and_header() {
    assert_eq!(export_csv_header(), "Address,Label,Type,Description,Tags,Added At,Last Synced,Total Value,Active");
    let mut e = AddressEntry::new_at(s(A1), AddressType::MarketMaker, 0);
    e.label = Some(s("l"));
    e.tags = vec![s("a"), s("b")];
    let zero = Amount { mantissa: 0, scale: 0 };
    e.stats = Some(AddressStats {
        total_value: Amount { mantissa: 12345, scale: 2 },
        active_positions: 0,
        active_orders: 0,
        total_realized_pnl: zero,
        trading_pnl: zero,
        unmatched_wins_pnl: zero,
        total_unrealized_pnl: zero,
        win_rate: None,
        total_trades: 0,
        total_volume: zero,
        buy_volume: zero,
        sell_volume: zero,
        last_trade: None,
        updated_at: 0,
    });
    let row = export_csv_row(&e).unwrap();
    assert_eq!(row, format!("{},l,Market Maker,,a;b,1970-01-01 00:00:00,,123.45,true", A1));
    // The exported row imports back with the same address, label, type, tags and flag.
    let back = parse_csv_line(&row, 0).unwrap();
    assert_eq!(back.address, A1);
    assert_eq!(back.label.as_deref(), Some("l"));
    assert_eq!(back.address_type, AddressType::MarketMaker);
    assert_eq!(back.tags, vec![s("a"), s("b")]);
    assert!(back.is_active);
}

#[test]
fn csv_total_value_texts() {
    let zero = Amount { mantissa: 0, scale: 0 };
    let cases = [
        (Amount { mantissa: -12345, scale: 2 }, "-123.45"),
        (Amount { mantissa: 5, scale: 3 }, "0.005"),
        (Amount { mantissa: -7, scale: 1 }, "-0.7"),
        (Amount { mantissa: 42, scale: 0 }, "42"),
        (Amount { mantissa: 0, scale: 2 }, "0.00"),
        (Amount { mantissa: 0, scale: 0 }, "0"),
        (Amount { mantissa: 1500, scale: 2 }, "15.00"),
    ];
    for (value, text) in cases {
        let mut e = AddressEntry::new_at(s(A1), AddressType::Own, 0);
        e.stats = Some(AddressStats {
            total_value: value,
            active_positions: 0,
            active_orders: 0,
            total_realized_pnl: zero,
            trading_pnl: zero,
            unmatched_wins_pnl: zero,
            total_unrealized_pnl: zero,
            win_rate: None,
            total_trades: 0,
            total_volume: zero,
            buy_volume: zero,
            sell_volume: zero,
            last_trade: None,
            updated_at: 0,
        });
        let row = export_csv_row(&e).unwrap();
        assert_eq!(row, format!("{},,Own,,,1970-01-01 00:00:00,,{},true", A1, text));
    }
}

#[test]
fn storage_paths() {
    let st = AddressBookStorage::new("data/address_book");
    assert_eq!(st.address_book_path, "data/address_book/address_book.json");
    assert_eq!(st.backup_dir, "data/address_book/backups");
    let st = AddressBookStorage::new("base/");
    assert_eq!(st.address_book_path, "base/address_book.json");
}

#[test]
fn historical_db_paths() {
    let db = HistoricalDatabase::new("./data");
    assert_eq!(db.get_address_path("0xABC"), "./data/historical_db/0xabc");
    assert_eq!(db.activities_dir("0xABC"), "./data/historical_db/0xabc/activities");
    assert_eq!(db.positions_dir("0xabc"), "./data/historical_db/0xabc/positions");
    assert_eq!(db.sync_state_file("0xabc"), "./data/historical_db/0xabc/state/sync_state.json");
    assert_eq!(batch_file(7), "batch_000007.json");
    assert_eq!(batch_file(1234567), "batch_1234567.json");
}

#[test]
fn stored_batches_are_sorted_json_batches() {
    let names = vec![s("batch_000002.json"), s("notes.txt"), s("batch_000001.json"), s("batch_000003.tmp"), s(".json")];
    assert_eq!(stored_batch_files(&names), vec![s("batch_000001.json"), s("batch_000002.json")]);
    assert_eq!(count_json_files(&names), 2);
}

#[test]
fn stored_batches_come_back_in_id_order() {
    let ids = [999_999usize, 5, 100_000, 42, 7_000];
    let mut names: Vec<String> = ids.iter().map(|&i| batch_file(i)).collect();
    names.push(s("notes.txt"));
    let expected: Vec<String> = [5usize, 42, 7_000, 100_000, 999_999].iter().map(|&i| batch_file(i)).collect();
    assert_eq!(stored_batch_files(&names), expected);
}

#[test]
fn parse_address_type_names() {
    assert_eq!(parse_address_type("OWN").unwrap(), AddressType::Own);
    assert_eq!(parse_address_type("mm").unwrap(), AddressType::MarketMaker);
    assert_eq!(parse_address_type("market-maker").unwrap(), AddressType::MarketMaker);
    assert_eq!(parse_address_type("Exchange").unwrap(), AddressType::Exchange);
    assert_eq!(parse_address_type("bogus").unwrap_err(), "Invalid address type: bogus");
}

#[test]
fn address_type_text_reads_back() {
    for t in [AddressType::Own, AddressType::Watched, AddressType::Contract, AddressType::Exchange, AddressType::Other] {
        assert_eq!(parse_address_type(t.display_text()).unwrap(), t);
    }
    assert!(parse_address_type(AddressType::MarketMaker.display_text()).is_err());
}

#[test]
fn parse_tags_splits_and_trims() {
    assert_eq!(parse_tags(Some(" a, b ,c")), vec![s("a"), s("b"), s("c")]);
    assert_eq!(parse_tags(None), Vec::<String>::new());
    assert_eq!(parse_tags(Some("")), vec![s("")]);
}

#[test]
fn sort_field_names() {
    assert_eq!(parse_sort_field("value"), AddressSortField::TotalValue);
    assert_eq!(parse_sort_field("queries"), AddressSortField::QueryCount);
    assert_eq!(parse_sort_field("whatever"), AddressSortField::Label);
}

#[test]
fn query_args_build_a_query() {
    let args = QueryAddressArgs {
        search: Some(s("x")),
        address_type: Some(s("watched")),
        tags: Some(s("a,b")),
        active_only: true,
        sort: s("added"),
        ascending: true,
        limit: Some(3),
    };
    let q = query_from_args(&args).unwrap();
    assert_eq!(q.search.as_deref(), Some("x"));
    assert_eq!(q.address_type, Some(AddressType::Watched));
    assert_eq!(q.tags, vec![s("a"), s("b")]);
    assert_eq!(q.sort_by, AddressSortField::AddedAt);
    assert_eq!(q.limit, Some(3));
    let bad = QueryAddressArgs { address_type: Some(s("zzz")), ..args };
    assert_eq!(query_from_args(&bad).unwrap_err(), "Invalid address type: zzz");
}

#[test]
fn tag_merge_adds_missing_only() {
    let cur = vec![s("a"), s("b")];
    let add = vec![s("b"), s("c"), s("c")];
    let merged = merge_tags(&cur, &add);
    assert_eq!(merged, vec![s("a"), s("b"), s("c")]);
    assert_eq!(merge_tags(&merged, &add), merged);
    assert_eq!(remove_tags(&merged, &vec![s("a"), s("z")]), vec![s("b"), s("c")]);
}

fn edit_args(id: usize) -> EditAddressArgs {
    EditAddressArgs {
        id,
        label: Some(s("new")),
        description: None,
        tags: None,
        add_tags: Some(s("t2")),
        remove_tags: Some(s("x")),
        active: Some(true),
        notes: None,
        clear: None,
    }
}

#[test]
fn edit_plans_by_id() {
    let b = book_with_two();
    let listing = handle_list_addresses(&b, None);
    let plan = plan_edit(&edit_args(1), &listing).unwrap();
    assert_eq!(plan.address, A1);
    assert_eq!(plan.label.as_deref(), Some("new"));
    assert_eq!(plan.tags, Some(vec![s("t2")]));
    assert_eq!(plan.is_active, Some(true));
    match plan_edit(&edit_args(5), &listing) {
        Err(EditRefusal::InvalidId { id, count }) => {
            assert_eq!(id, 5);
            assert_eq!(count, 2);
        }
        _ => panic!("expected an invalid id"),
    }
    let clear = EditAddressArgs { clear: Some(s("LABEL")), ..edit_args(0) };
    let plan = plan_edit(&clear, &listing).unwrap();
    assert_eq!(plan.label.as_deref(), Some(""));
    let bad = EditAddressArgs { clear: Some(s("colour")), ..edit_args(0) };
    assert!(matches!(plan_edit(&bad, &listing), Err(EditRefusal::InvalidClearField(f)) if f == "colour"));
    let replace = EditAddressArgs { tags: Some(s("p, q")), ..edit_args(0) };
    assert_eq!(plan_edit(&replace, &listing).unwrap().tags, Some(vec![s("p"), s("q")]));
}

#[test]
fn tag_plans_need_a_pattern_or_type() {
    let none = TagAddressesArgs { tags: s("a"), pattern: None, address_type: None };
    assert!(plan_tag(&none).unwrap().is_none());
    let by_type = TagAddressesArgs { tags: s("a"), pattern: None, address_type: Some(s("own")) };
    let q = plan_tag(&by_type).unwrap().unwrap();
    assert_eq!(q.address_type, Some(AddressType::Own));
    assert!(q.search.is_none());
    let bad = TagAddressesArgs { tags: s("a"), pattern: Some(s("p")), address_type: Some(s("x")) };
    assert_eq!(plan_tag(&bad).unwrap_err(), "Invalid address type: x");
}

#[test]
fn listing_filters() {
    let b = book_with_two();
    let all = handle_list_addresses(&b, None);
    assert_eq!(filter_by_kind(&all, true, false).len(), 1);
    assert_eq!(filter_by_kind(&all, false, true)[0].address, A2);
    assert_eq!(filter_by_kind(&all, false, false).len(), 2);
    assert_eq!(active_entries(&all).len(), 2);
}

#[test]
fn retry_policy_backs_off_and_gives_up() {
    let mut p = RetryPolicy::new();
    assert_eq!(p.next(FetchOutcome::ServerError), RetryStep::Retry { rate_limit_sleep_ms: None, backoff_sleep_ms: 1000 });
    assert_eq!(p.next(FetchOutcome::NetworkError), RetryStep::Retry { rate_limit_sleep_ms: None, backoff_sleep_ms: 2000 });
    assert_eq!(p.next(FetchOutcome::RateLimited), RetryStep::Retry { rate_limit_sleep_ms: Some(8000), backoff_sleep_ms: 4000 });
    assert_eq!(p.next(FetchOutcome::BodyError), RetryStep::GiveUp);
    assert_eq!(p.next(FetchOutcome::RateLimited), RetryStep::GiveUp);
    assert_eq!(p.next(FetchOutcome::Success), RetryStep::Done);
    let mut q = RetryPolicy::new();
    assert_eq!(q.next(FetchOutcome::OtherStatus), RetryStep::GiveUp);
}

#[test]
fn rate_limiting_gives_up_after_four_requests() {
    let mut p = RetryPolicy::new();
    let mut requests = 0;
    loop {
        requests += 1;
        match p.next(FetchOutcome::RateLimited) {
            RetryStep::Retry { .. } => {}
            step => {
                assert_eq!(step, RetryStep::GiveUp);
                break;
            }
        }
    }
    assert_eq!(requests, 4);
    assert_eq!(p.retry_count, 3);
}

fn act(h: Option<&str>, t: Option<i64>) -> ActivityRecord {
    ActivityRecord { tx_hash: h.map(s), timestamp: t }
}

#[test]
fn activity_sync_keeps_new_and_stops_when_caught_up() {
    let mut sync = ActivitySync::new(vec![s("h0")], Some(1_000_000_000));
    let batch = vec![act(Some("h1"), Some(2000)), act(Some("h0"), Some(3000)), act(None, None), act(Some("h2"), Some(500)), act(Some("h1"), Some(2000))];
    let v = sync.scan_batch(&batch);
    assert_eq!(v.new_indices, vec![0]);
    assert!(v.stop);
    assert_eq!(sync.batch_count, 1);
    let mut first = ActivitySync::new(vec![], None);
    let v = first.scan_batch(&vec![act(Some("a"), Some(1)), act(Some("b"), Some(2))]);
    assert_eq!(v.new_indices, vec![0, 1]);
    assert!(!v.stop);
    assert_eq!(first.offset, 500);
    let v = first.scan_batch(&vec![]);
    assert!(v.stop);
    assert_eq!(activity_batch_id(1200, 1), 3);
}

#[test]
fn position_sync_keys_and_stop() {
    let p = PositionRecord { condition_id: Some(s("c")), outcome: Some(s("Yes")) };
    assert_eq!(position_key_of(&p).unwrap(), "c:Yes");
    let mut seen = vec![s("c:Yes")];
    let batch = vec![p, PositionRecord { condition_id: Some(s("c")), outcome: Some(s("No")) }, PositionRecord { condition_id: None, outcome: Some(s("No")) }];
    let v = scan_positions(&mut seen, &batch, 1);
    assert_eq!(v.new_indices, vec![1]);
    assert!(!v.stop);
    let v = scan_positions(&mut seen, &batch, 11);
    assert!(v.new_indices.is_empty());
    assert!(v.stop);
}

#[test]
fn csv_export_reads_back() {
    let mut e = AddressEntry::new_at(s(A3), AddressType::MarketMaker, 1_700_000_000_000_000);
    e.label = Some(s("maker"));
    e.description = Some(s("big book"));
    e.tags = vec![s("hot"), s("mm")];
    e.is_active = false;
    e.metadata.last_synced = Some(1_700_000_100_000_000);
    e.stats = Some(AddressStats {
        total_value: Amount { mantissa: 12345, scale: 2 },
        active_positions: 1,
        active_orders: 0,
        total_realized_pnl: Amount { mantissa: 0, scale: 0 },
        trading_pnl: Amount { mantissa: 0, scale: 0 },
        unmatched_wins_pnl: Amount { mantissa: 0, scale: 0 },
        total_unrealized_pnl: Amount { mantissa: 0, scale: 0 },
        win_rate: None,
        total_trades: 0,
        total_volume: Amount { mantissa: 0, scale: 0 },
        buy_volume: Amount { mantissa: 0, scale: 0 },
        sell_volume: Amount { mantissa: 0, scale: 0 },
        last_trade: None,
        updated_at: 0,
    });
    let row = export_csv_row(&e).unwrap();
    let back = parse_csv_line(&row, 5).unwrap();
    assert_eq!(back.address, e.address);
    assert_eq!(back.label, e.label);
    assert_eq!(back.description, e.description);
    assert_eq!(back.address_type, e.address_type);
    assert_eq!(back.tags, e.tags);
    assert_eq!(back.is_active, e.is_active);

    let plain = AddressEntry::new_at(s(A1), AddressType::Watched, 0);
    let back = parse_csv_line(&export_csv_row(&plain).unwrap(), 5).unwrap();
    assert_eq!(back.label, None);
    assert_eq!(back.description, None);
    assert!(back.tags.is_empty());
    assert!(back.is_active);
}

#[test]
fn csv_file_reads_back_in_order() {
    let mut a = AddressEntry::new_at(s(A1), AddressType::Own, 10);
    a.label = Some(s("alice"));
    a.tags = vec![s("x"), s("y")];
    let mut b = AddressEntry::new_at(s(A2), AddressType::MarketMaker, 20);
    b.description = Some(s("desk"));
    b.is_active = false;
    let lines = vec![
        export_csv_header(),
        export_csv_row(&a).unwrap(),
        export_csv_row(&b).unwrap(),
    ];
    let back = import_csv_lines(&lines);
    assert_eq!(back.len(), 2);
    for (r, e) in back.iter().zip([&a, &b]) {
        assert_eq!(r.address, e.address);
        assert_eq!(r.label, e.label);
        assert_eq!(r.description, e.description);
        assert_eq!(r.address_type, e.address_type);
        assert_eq!(r.tags, e.tags);
        assert_eq!(r.is_active, e.is_active);
        assert!(r.stats.is_none());
        assert_eq!(r.metadata.query_count, 0);
    }
}

#[test]
fn only_the_newest_backups_stay() {
    // Found in this order; the newest first would be 1, 3 and 4 (tied, in
    // the order found), 0, 2.
    let times = vec![20i128, 50, 10, 30, 30];
    assert_eq!(old_backups(&times, 3), vec![0, 2]);
    assert_eq!(old_backups(&times, 2), vec![0, 2, 4]);
    assert_eq!(old_backups(&times, 0), vec![0, 1, 2, 3, 4]);
    assert!(old_backups(&times, 5).is_empty());
    assert!(old_backups(&times, 10).is_empty());
    assert!(old_backups(&vec![], 0).is_empty());
}

#[test]
fn csv_text_reads_back() {
    let mut a = AddressEntry::new_at(s(A1), AddressType::Exchange, 10);
    a.label = Some(s("desk"));
    a.tags = vec![s("x")];
    let mut b = AddressEntry::new_at(s(A2), AddressType::Other, 1_700_000_000_000_000);
    b.metadata.last_synced = Some(1_700_000_100_000_000);
    let text = export_csv_text(&vec![a.clone(), b.clone()]).unwrap();
    assert!(text.starts_with("Address,Label,Type,Description,Tags,Added At,Last Synced,Total Value,Active\n"));
    assert!(text.ends_with(",true\n"));
    assert_eq!(text.lines().count(), 3);
    let back = import_csv_text(&text);
    assert_eq!(back.len(), 2);
    for (r, e) in back.iter().zip([&a, &b]) {
        assert_eq!(r.address, e.address);
        assert_eq!(r.label, e.label);
        assert_eq!(r.address_type, e.address_type);
        assert_eq!(r.tags, e.tags);
        assert_eq!(r.is_active, e.is_active);
    }
    let crlf = text.replace('\n', "\r\n");
    assert_eq!(import_csv_text(&crlf).len(), 2);
    let late = AddressEntry::new_at(s(A3), AddressType::Own, i64::MAX);
    assert!(export_csv_text(&vec![a, late]).is_none());
    assert_eq!(export_csv_text(&vec![]).unwrap(), format!("{}\n", export_csv_header()));
}

#[test]
fn activity_sync_keeps_each_hash_once() {
    let mut sync = ActivitySync::new(vec![], None);
    let v = sync.scan_batch(&vec![act(Some("a"), Some(1)), act(Some("b"), Some(2)), act(Some("a"), Some(3))]);
    assert_eq!(v.new_indices, vec![0, 1]);
    let v = sync.scan_batch(&vec![act(Some("b"), Some(4)), act(Some("c"), Some(5))]);
    assert_eq!(v.new_indices, vec![1]);
    assert_eq!(sync.new_total, 3);
}

#[test]
fn wallet_address_is_added_once() {
    let mut b = AddressBook::new_at(0);
    assert_eq!(ensure_user_address(&mut b, s(A3), 7), UserAddressOutcome::Added);
    let key = s("0xabcdefabcdef0000000000000000000000000000");
    assert_eq!(b.current_address, Some(key.clone()));
    let e = handle_get_current_address(&b).unwrap();
    assert_eq!(e.label, Some(s("my-wallet")));
    assert_eq!(e.description, Some(s("Primary trading wallet (auto-added)")));
    assert_eq!(e.address_type, AddressType::Own);
    assert_eq!(e.tags, vec![s("primary"), s("auto-added")]);
    assert!(e.metadata.is_current);
    assert_eq!(ensure_user_address(&mut b, key.clone(), 8), UserAddressOutcome::AlreadyKnown);
    assert_eq!(b.entries.len(), 1);
    assert_eq!(b.entries[0].metadata.query_count, 1);

    // The label is taken by another address: nothing is added.
    let mut c = AddressBook::new_at(0);
    handle_add_address(&mut c, s(A1), Some(s("my-wallet")), None, AddressType::Watched, vec![], 1).unwrap();
    assert_eq!(ensure_user_address(&mut c, s(A2), 2), UserAddressOutcome::NotAdded);
    assert_eq!(c.entries.len(), 1);
    assert_eq!(ensure_user_address(&mut c, s("0x12"), 2), UserAddressOutcome::NotAdded);
}

#[test]
fn remove_undoes_add() {
    let mut b = book_with_two();
    let before: Vec<String> = b.entries.iter().map(|e| e.address.clone()).collect();
    let labels_before = b.labels.clone();
    let total_before = b.metadata.total_addresses;
    handle_add_address(&mut b, s(A3), Some(s("new")), None, AddressType::Other, vec![], 30).unwrap();
    handle_remove_address(&mut b, s(A3), 40).unwrap();
    let after: Vec<String> = b.entries.iter().map(|e| e.address.clone()).collect();
    assert_eq!(after, before);
    assert_eq!(b.labels, labels_before);
    assert_eq!(b.metadata.total_addresses, total_before);
}

#[test]
fn init_adds_the_wallet() {
    let mut b = AddressBook::new_at(0);
    assert_eq!(init_wallet_address(&mut b, s(A1), 3), UserAddressOutcome::Added);
    let e = handle_get_current_address(&b).unwrap();
    assert_eq!(e.address, A1);
    assert_eq!(e.label, Some(s("my-wallet")));
    assert_eq!(e.description, Some(s("Primary trading wallet")));
    assert_eq!(e.tags, vec![s("primary")]);
    assert_eq!(init_wallet_address(&mut b, s("my-wallet"), 4), UserAddressOutcome::AlreadyKnown);
}

#[test]
fn sync_state_lifecycle() {
    let empty = stored_summary(&None);
    assert_eq!(
        empty,
        StoredDataSummary { total_activities: 0, total_positions: 0, _earliest_activity: None, _latest_activity: None, last_sync: None }
    );
    let st = begin_sync(None, s(A1), 100);
    assert!(st.sync_in_progress);
    assert_eq!(st.last_sync_started, 100);
    assert_eq!(st.total_activities_stored, 0);
    let latest = latest_activity_second(&vec![Some(50), None, Some(70), Some(i64::MAX), Some(60)]);
    assert_eq!(latest, Some(70));
    let done = finish_sync(st, 12, 3, latest, 200);
    assert!(!done.sync_in_progress);
    assert_eq!(done.last_sync_completed, Some(200));
    assert_eq!(done.last_activity_timestamp, Some(70));
    let summary = stored_summary(&Some(SyncState { address: s(A1), ..done }));
    assert_eq!(summary.total_activities, 12);
    assert_eq!(summary.total_positions, 3);
    assert_eq!(summary._latest_activity, Some(70));
    assert_eq!(summary.last_sync, Some(200));
    let again = begin_sync(Some(SyncState { address: s(A1), last_activity_timestamp: Some(70), last_activity_id: None, total_activities_stored: 12, total_positions_stored: 3, last_sync_completed: Some(200), last_sync_started: 100, sync_in_progress: false }), s(A2), 300);
    assert_eq!(again.address, A1);
    assert_eq!(again.total_activities_stored, 12);
    assert!(again.sync_in_progress);
    assert_eq!(again.last_sync_started, 300);
}
