use polybot::cli::commands::gamma::{clear_targets, duplicate_count, export_query, ClearTargets};
use polybot::cli::commands::gamma::{
    batch_overlap, benchmark_query, count_time_rating, dataset_size, on_market_batch, page_query,
    ping_rating, search_category, search_question_cell, shown_count, BatchStep, DatasetSize, FetchCursor,
    Overlap, Rating,
};

fn s(x: &str) -> String {
    x.to_string()
}

#[test]
fn search_questions_are_cut_past_eighty_bytes() {
    let short = "Will it rain tomorrow?";
    assert_eq!(search_question_cell(short), short);
    let exact: String = std::iter::repeat('a').take(80).collect();
    assert_eq!(search_question_cell(&exact), exact);
    let long: String = std::iter::repeat('b').take(81).collect();
    let cut = search_question_cell(&long);
    assert_eq!(cut.chars().count(), 78);
    assert!(cut.starts_with(&"b".repeat(77)));
    assert!(cut.ends_with('\u{2026}'));
    // Multi-byte characters count by their UTF-8 length.
    let wide: String = std::iter::repeat('é').take(41).collect();
    let cut = search_question_cell(&wide);
    assert_eq!(cut.chars().count(), 42);
    assert!(cut.ends_with('\u{2026}'));
}

#[test]
fn category_searches() {
    assert_eq!(search_category(&Some(s("category")), "sports"), Some(s("sports")));
    assert_eq!(search_category(&Some(s("question")), "sports"), None);
    assert_eq!(search_category(&None, "sports"), None);
}

#[test]
fn health_ratings() {
    assert_eq!(ping_rating(0), Rating::Good);
    assert_eq!(ping_rating(99), Rating::Good);
    assert_eq!(ping_rating(100), Rating::Fair);
    assert_eq!(ping_rating(499), Rating::Fair);
    assert_eq!(ping_rating(500), Rating::Poor);
    assert_eq!(count_time_rating(999), Rating::Good);
    assert_eq!(count_time_rating(1000), Rating::Fair);
    assert_eq!(count_time_rating(4999), Rating::Fair);
    assert_eq!(count_time_rating(5000), Rating::Poor);
}

#[test]
fn dataset_size_classes() {
    assert_eq!(dataset_size(0), DatasetSize::Small);
    assert_eq!(dataset_size(999), DatasetSize::Small);
    assert_eq!(dataset_size(1000), DatasetSize::Medium);
    assert_eq!(dataset_size(49_999), DatasetSize::Medium);
    assert_eq!(dataset_size(50_000), DatasetSize::Large);
    assert_eq!(dataset_size(199_999), DatasetSize::Large);
    assert_eq!(dataset_size(200_000), DatasetSize::VeryLarge);
}

#[test]
fn market_queries() {
    assert_eq!(benchmark_query(1000), "SELECT * FROM markets LIMIT 1000");
    assert_eq!(benchmark_query(0), "SELECT * FROM markets LIMIT 0");
    assert_eq!(page_query(50, 100), "SELECT * FROM markets LIMIT 50 START 100");
}

#[test]
fn batch_overlaps() {
    let ids = vec![s("a"), s("b"), s("c"), s("b")];
    assert_eq!(batch_overlap(&ids, "a"), Overlap::NewAfter(3));
    assert_eq!(batch_overlap(&ids, "b"), Overlap::NewAfter(2));
    assert_eq!(batch_overlap(&ids, "c"), Overlap::NewAfter(1));
    assert_eq!(batch_overlap(&ids, "z"), Overlap::Disjoint);
    assert_eq!(batch_overlap(&vec![], "a"), Overlap::Disjoint);
}

#[test]
fn market_fetch_sessions() {
    let mut cursor = FetchCursor { count: 0, last_market_id: None, is_exhausted: false };
    assert_eq!(on_market_batch(&mut cursor, &vec![], true), BatchStep::Complete);
    assert_eq!(cursor.count, 0);
    assert!(cursor.last_market_id.is_none());

    let full: Vec<String> = (0..500).map(|i| format!("m{}", i)).collect();
    assert_eq!(on_market_batch(&mut cursor, &full, true), BatchStep::StoreAndContinue);
    assert_eq!(cursor.count, 500);
    assert_eq!(cursor.last_market_id, Some(s("m499")));
    assert!(!cursor.is_exhausted);

    // A batch that repeats only the last market seen completes the session.
    assert_eq!(on_market_batch(&mut cursor, &vec![s("m499")], true), BatchStep::Complete);
    assert_eq!(cursor.count, 500);

    // A short batch is stored and ends the session.
    let short = vec![s("m499"), s("m500"), s("m501")];
    assert_eq!(on_market_batch(&mut cursor, &short, true), BatchStep::StoreAndFinish);
    assert_eq!(cursor.count, 503);
    assert_eq!(cursor.last_market_id, Some(s("m501")));
    assert!(cursor.is_exhausted);

    // The source saying there is no more also ends it.
    let mut fresh = FetchCursor { count: 0, last_market_id: None, is_exhausted: false };
    assert_eq!(on_market_batch(&mut fresh, &full, false), BatchStep::StoreAndFinish);
    assert!(fresh.is_exhausted);
}

#[test]
fn listing_limits() {
    assert_eq!(shown_count(10, false, 5), 5);
    assert_eq!(shown_count(10, true, 5), 10);
    assert_eq!(shown_count(3, false, 5), 3);
}

#[test]
fn cache_clearing_targets() {
    assert_eq!(
        clear_targets(false, false, false, false),
        ClearTargets { cache: true, raw_responses: false, individual_storage: false }
    );
    assert_eq!(
        clear_targets(false, true, false, false),
        ClearTargets { cache: false, raw_responses: true, individual_storage: false }
    );
    assert_eq!(
        clear_targets(true, false, true, false),
        ClearTargets { cache: true, raw_responses: false, individual_storage: true }
    );
    assert_eq!(
        clear_targets(false, false, false, true),
        ClearTargets { cache: true, raw_responses: true, individual_storage: true }
    );
}

#[test]
fn duplicate_market_ids() {
    assert_eq!(duplicate_count(&vec![]), 0);
    assert_eq!(duplicate_count(&vec![s("a"), s("b"), s("a"), s("a"), s("c"), s("b")]), 3);
}

#[test]
fn export_queries() {
    assert_eq!(export_query(false, &None, &None, None), "SELECT * FROM markets");
    assert_eq!(
        export_query(true, &Some(s("1000")), &Some(s("sports")), Some(50)),
        "SELECT * FROM markets WHERE active = true AND volume >= 1000 AND category = 'sports' LIMIT 50"
    );
    assert_eq!(export_query(false, &None, &Some(s("crypto")), None), "SELECT * FROM markets WHERE category = 'crypto'");
}
