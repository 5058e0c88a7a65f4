use dancespiele::aggregator::{base_asset, get_buy_prices};
use dancespiele::decimal::parse_price;
use dancespiele::dtos::Trade;

fn buy_trade(pair: &str, price: &str, time: i64) -> Trade {
    Trade {
        cost: String::from(""),
        fee: String::from(""),
        margin: String::from(""),
        misc: String::from(""),
        ordertxid: String::from(""),
        ordertype: String::from("limit"),
        pair: String::from(pair),
        postxid: String::from(""),
        price: String::from(price),
        time,
        trade_type: String::from("buy"),
        vol: String::from("7"),
    }
}

#[test]
fn later_timestamp_wins() {
    let trades = vec![
        (String::from("t1"), buy_trade("KAVAEUR", "2.0", 100)),
        (String::from("t2"), buy_trade("KAVAEUR", "3.0", 200)),
    ];
    let balances = vec![(String::from("KAVA"), String::from("1500"))];

    let positions = get_buy_prices(&trades, &balances).unwrap();
    assert_eq!(positions.len(), 1);
    assert_eq!(positions[0].pair, "KAVAEUR");
    assert_eq!(positions[0].operation_time, 200);
    assert_eq!(positions[0].buy_price, parse_price("3.0").unwrap());
}

#[test]
fn earlier_record_does_not_replace_later() {
    let trades = vec![
        (String::from("t1"), buy_trade("KAVAEUR", "3.0", 200)),
        (String::from("t2"), buy_trade("KAVAEUR", "2.0", 100)),
    ];
    let balances = vec![(String::from("KAVA"), String::from("1500"))];

    let positions = get_buy_prices(&trades, &balances).unwrap();
    assert_eq!(positions.len(), 1);
    assert_eq!(positions[0].operation_time, 200);
    assert_eq!(positions[0].buy_price, parse_price("3.0").unwrap());
}

#[test]
fn equal_timestamps_keep_the_later_folded_record() {
    let trades = vec![
        (String::from("t1"), buy_trade("KAVAEUR", "2.0", 100)),
        (String::from("t2"), buy_trade("KAVAEUR", "3.0", 100)),
    ];
    let balances = vec![(String::from("KAVA"), String::from("1500"))];

    let positions = get_buy_prices(&trades, &balances).unwrap();
    assert_eq!(positions.len(), 1);
    assert_eq!(positions[0].buy_price, parse_price("3.0").unwrap());
}

#[test]
fn quantity_is_the_current_balance() {
    let trades = vec![(String::from("t1"), buy_trade("OXTEUR", "0.29", 160000))];
    let balances = vec![(String::from("OXT"), String::from("4000"))];

    let positions = get_buy_prices(&trades, &balances).unwrap();
    assert_eq!(positions[0].quantity, "4000");
}

#[test]
fn sells_and_dust_and_unknown_assets_are_skipped() {
    let mut sell = buy_trade("KAVAEUR", "2.0", 100);
    sell.trade_type = String::from("sell");
    let trades = vec![
        (String::from("t1"), sell),
        (String::from("t2"), buy_trade("OXTEUR", "0.29", 100)),
        (String::from("t3"), buy_trade("ADAEUR", "1.0", 100)),
        (String::from("t4"), buy_trade("CRVEUR", "5.0", 100)),
    ];
    let balances = vec![
        (String::from("KAVA"), String::from("1500")),
        // dust: not strictly above 0.00001
        (String::from("OXT"), String::from("0.00001")),
        (String::from("ADA"), String::from("0.002")),
    ];

    let positions = get_buy_prices(&trades, &balances).unwrap();
    assert_eq!(positions.len(), 1);
    assert_eq!(positions[0].pair, "ADAEUR");
}

#[test]
fn one_position_per_pair_however_records_interleave() {
    let trades = vec![
        (String::from("t1"), buy_trade("KAVAEUR", "2.0", 100)),
        (String::from("t2"), buy_trade("OXTEUR", "0.29", 150)),
        (String::from("t3"), buy_trade("KAVAEUR", "3.0", 200)),
        (String::from("t4"), buy_trade("OXTEUR", "0.31", 120)),
    ];
    let balances = vec![
        (String::from("KAVA"), String::from("1500")),
        (String::from("OXT"), String::from("4000")),
    ];

    let positions = get_buy_prices(&trades, &balances).unwrap();
    assert_eq!(positions.len(), 2);
    assert_ne!(positions[0].pair, positions[1].pair);
    assert_eq!(positions[0].pair, "KAVAEUR");
    assert_eq!(positions[0].buy_price, parse_price("3.0").unwrap());
    assert_eq!(positions[1].pair, "OXTEUR");
    // the later-bought OXTEUR record arrived with the earlier timestamp
    assert_eq!(positions[1].buy_price, parse_price("0.29").unwrap());
}

#[test]
fn unparsable_buy_price_aborts_the_pass() {
    let trades = vec![(String::from("t1"), buy_trade("KAVAEUR", "not a price", 100))];
    let balances = vec![(String::from("KAVA"), String::from("1500"))];

    let err = get_buy_prices(&trades, &balances).unwrap_err();
    assert!(matches!(err, dancespiele::error::EngineError::BadParse));
}

#[test]
fn base_asset_strips_the_quote_suffix() {
    assert_eq!(base_asset("KAVAEUR"), "KAVA");
    assert_eq!(base_asset("OXTEUR"), "OXT");
    assert_eq!(base_asset("EUR"), "");
    assert_eq!(base_asset("KAVA"), "KAVA");
}
