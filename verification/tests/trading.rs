use polybot::address_book::types::Amount;
use polybot::auth::{api_key_nonce, chain_id_for_host, private_key_body};
use polybot::cli::commands::sell::{SellArgs, SellCommand};
use polybot::cli::commands::trades::{date_range_at, determine_date_range, parse_date, TradesArgs, TradesError};

fn s(x: &str) -> String {
    x.to_string()
}

fn trades_args(days: Option<i64>, from: Option<&str>, to: Option<&str>) -> TradesArgs {
    TradesArgs {
        limit: 20,
        days,
        from: from.map(s),
        to: to.map(s),
        export: false,
        output: s("trades.csv"),
    }
}

#[test]
fn private_keys_lose_their_prefixes() {
    assert_eq!(private_key_body("0xabc"), "abc");
    assert_eq!(private_key_body("0x0xabc"), "abc");
    assert_eq!(private_key_body("abc0x"), "abc0x");
    assert_eq!(private_key_body("0x"), "");
    assert_eq!(private_key_body("0"), "0");
    assert_eq!(private_key_body(""), "");
}

#[test]
fn nonces_and_chains() {
    assert_eq!(api_key_nonce(0), None);
    assert_eq!(api_key_nonce(7), Some(7));
    assert_eq!(chain_id_for_host("https://clob.polymarket.com"), 137);
    assert_eq!(chain_id_for_host("https://clob-mumbai.polymarket.com"), 80001);
}

#[test]
fn sell_command_keeps_its_arguments() {
    let args = SellArgs {
        token_id: s("123"),
        price: Amount { mantissa: 52, scale: 2 },
        size: Amount { mantissa: 10, scale: 0 },
        market_id: None,
        yes: true,
    };
    let cmd = SellCommand::new(args);
    assert_eq!(cmd.args().token_id, "123");
    assert_eq!(cmd.args().price, Amount { mantissa: 52, scale: 2 });
    assert!(cmd.args().yes);
}

#[test]
fn dates_read_as_midnight_utc() {
    assert_eq!(parse_date("1970-01-01"), Some(0));
    assert_eq!(parse_date("2024-01-15"), Some(1_705_276_800));
    assert_eq!(parse_date("2024-13-01"), None);
    assert_eq!(parse_date("15/01/2024"), None);
    assert_eq!(parse_date(""), None);
}

#[test]
fn date_ranges() {
    let now = 1_705_276_800;
    assert_eq!(date_range_at(&trades_args(None, None, None), now).unwrap(), (None, None));
    assert_eq!(
        date_range_at(&trades_args(Some(7), None, None), now).unwrap(),
        (Some(now - 7 * 86_400), Some(now))
    );
    assert_eq!(
        date_range_at(&trades_args(Some(7), Some("2024-01-01"), None), now).unwrap(),
        (Some(1_704_067_200), Some(now))
    );
    assert_eq!(
        date_range_at(&trades_args(None, Some("2024-01-01"), Some("2024-01-15")), now).unwrap(),
        (Some(1_704_067_200), Some(1_705_276_800))
    );
    match date_range_at(&trades_args(None, Some("yesterday"), Some("also bad")), now) {
        Err(TradesError::InvalidDate { text }) => assert_eq!(text, "yesterday"),
        other => panic!("unexpected {:?}", other),
    }
    match date_range_at(&trades_args(None, Some("2024-01-01"), Some("bad")), now) {
        Err(TradesError::InvalidDate { text }) => assert_eq!(text, "bad"),
        other => panic!("unexpected {:?}", other),
    }
}

#[test]
fn date_ranges_now() {
    let (start, end) = determine_date_range(&trades_args(Some(1), None, None)).unwrap();
    assert_eq!(end.unwrap() - start.unwrap(), 86_400);
    match determine_date_range(&trades_args(Some(i64::MAX), None, None)) {
        Err(TradesError::DaysOutOfRange { days }) => assert_eq!(days, i64::MAX),
        other => panic!("unexpected {:?}", other),
    }
}
