use dancespiele::decimal::parse_price;
use dancespiele::dtos::{Claims, CurrentPrice, FutureOperation, Info, StopLossActive, Trade};

fn trade(pair: &str, price: &str, time: i64) -> Trade {
    Trade {
        cost: String::from(""),
        fee: String::from(""),
        margin: String::from(""),
        misc: String::from(""),
        ordertxid: String::from(""),
        ordertype: String::from("limit"),
        pair: String::from(pair),
        postxid: String::from(""),
        price: String::from(price),
        time,
        trade_type: String::from("buy"),
        vol: String::from("58"),
    }
}

#[test]
fn position_from_trade_parses_the_buy_price() {
    let fo = FutureOperation::from_trade(trade("KAVAEUR", "2.0", 160000), String::from("1500"))
        .unwrap();
    assert_eq!(fo.pair, "KAVAEUR");
    assert_eq!(fo.buy_price, parse_price("2.0").unwrap());
    assert_eq!(fo.quantity, "1500");
    assert_eq!(fo.operation_time, 160000);

    assert!(FutureOperation::from_trade(trade("KAVAEUR", "x", 160000), String::from("1500"))
        .is_none());
}

#[test]
fn stop_loss_active_joins_the_current_price() {
    let cp = CurrentPrice::new(String::from("KAVAEUR"), parse_price("3.5").unwrap());
    let sl = StopLossActive::new(String::from("3344de344"), parse_price("3.0").unwrap(), cp);
    assert_eq!(sl.order, "3344de344");
    assert_eq!(sl.pair, "KAVAEUR");
    assert_eq!(sl.price, parse_price("3.0").unwrap());
    assert_eq!(sl.current_price, parse_price("3.5").unwrap());
}

#[test]
fn system_credential_expires_after_a_day() {
    let claims = Claims::new(String::from("dancespiele"), String::from("trader@example.org"), 1_700_000_000);
    assert_eq!(claims.iss, "system");
    assert_eq!(claims.iat, 1_700_000_000);
    assert_eq!(claims.exp, 1_700_000_000 + 86_400);
    assert_eq!(claims.sub, "dancespiele");
    assert_eq!(claims.email, "trader@example.org");
}

#[test]
fn info_gathers_a_pair_state() {
    let cp = CurrentPrice::new(String::from("OXTEUR"), parse_price("0.4").unwrap());
    let info = Info::from_parts(
        cp,
        parse_price("0.29").unwrap(),
        String::from("37.93103448"),
        String::from("0.392"),
    );
    assert_eq!(info.pair, "OXTEUR");
    assert_eq!(info.current_price, parse_price("0.4").unwrap());
    assert_eq!(info.price_bought, parse_price("0.29").unwrap());
    assert_eq!(info.benefit, "37.93103448");
    assert_eq!(info.current_stop_loss, "0.392");
}
