use polybot::address_book::activity::{
    activity_instant, classify, tally_activities, ActivityClass, ActivityItem, ActivityTime, Instant,
};

fn item(kind: &str, side: &str, time: ActivityTime) -> ActivityItem {
    ActivityItem { kind: kind.to_string(), side: side.to_string(), time }
}

#[test]
fn activity_classes() {
    assert_eq!(classify("TRADE", "BUY"), ActivityClass::Buy);
    assert_eq!(classify("TRADE", "SELL"), ActivityClass::Sell);
    assert_eq!(classify("TRADE", "HOLD"), ActivityClass::UnknownSide);
    assert_eq!(classify("REDEEM", ""), ActivityClass::Redeem);
    assert_eq!(classify("CONVERSION", ""), ActivityClass::Conversion);
    assert_eq!(classify("MERGE", ""), ActivityClass::Merge);
    assert_eq!(classify("REWARD", ""), ActivityClass::Reward);
    assert_eq!(classify("SPLIT", ""), ActivityClass::Ignored);
    assert_eq!(classify("trade", "BUY"), ActivityClass::Ignored);
}

#[test]
fn representable_seconds_end_where_chrono_ends() {
    for s in [-8_334_601_228_800i64, 0, 8_210_266_876_799] {
        assert_eq!(activity_instant(&ActivityTime::Seconds(s)), Some(Instant { secs: s, nanos: 0 }));
    }
    for s in [-8_334_601_228_801i64, 8_210_266_876_800, i64::MIN] {
        assert_eq!(activity_instant(&ActivityTime::Seconds(s)), None);
    }
}

#[test]
fn activity_instants() {
    assert_eq!(activity_instant(&ActivityTime::Seconds(1_700_000_000)), Some(Instant { secs: 1_700_000_000, nanos: 0 }));
    assert_eq!(activity_instant(&ActivityTime::Seconds(i64::MAX)), None);
    assert_eq!(
        activity_instant(&ActivityTime::Text("2024-01-15T00:00:00.5Z".to_string())),
        Some(Instant { secs: 1_705_276_800, nanos: 500_000_000 })
    );
    assert_eq!(
        activity_instant(&ActivityTime::Text("2024-01-15T02:00:00+02:00".to_string())),
        Some(Instant { secs: 1_705_276_800, nanos: 0 })
    );
    assert_eq!(activity_instant(&ActivityTime::Text("not a date".to_string())), None);
    assert_eq!(activity_instant(&ActivityTime::Missing), None);
}

#[test]
fn activity_tallies() {
    let items = vec![
        item("TRADE", "BUY", ActivityTime::Seconds(100)),
        item("TRADE", "BUY", ActivityTime::Seconds(50)),
        item("TRADE", "SELL", ActivityTime::Missing),
        item("TRADE", "???", ActivityTime::Seconds(500)),
        item("REDEEM", "", ActivityTime::Seconds(200)),
        item("CONVERSION", "", ActivityTime::Seconds(10)),
        item("MERGE", "", ActivityTime::Seconds(20)),
        item("REWARD", "", ActivityTime::Text("1970-01-01T00:06:40Z".to_string())),
        item("SPLIT", "", ActivityTime::Seconds(9_000)),
    ];
    let t = tally_activities(&items);
    assert_eq!(t.buy_count, 2);
    assert_eq!(t.sell_count, 1);
    assert_eq!(t.redeem_count, 1);
    assert_eq!(t.conversion_count, 1);
    assert_eq!(t.merge_count, 1);
    assert_eq!(t.reward_count, 1);
    assert_eq!(t.total, 7);
    assert_eq!(t.exits, 4);
    // The trade of unknown side is not counted, but its time is the latest;
    // the skipped activity's later time is not.
    assert_eq!(t.last_trade, Some(Instant { secs: 500, nanos: 0 }));

    let empty = tally_activities(&vec![]);
    assert_eq!(empty.total, 0);
    assert_eq!(empty.last_trade, None);
}
