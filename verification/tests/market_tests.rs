use dancespiele::error::EngineError;
use dancespiele::market::{
    balance_from_response, orders_from_response, parse_seconds, price_from_ohlc,
    trades_from_response,
};

fn value(text: &str) -> serde_json::Value {
    serde_json::from_str(text).unwrap()
}

#[test]
fn trades_come_out_of_the_envelope() {
    let response = value(
        r#"{"result": {"count": 1, "trades": {"TX1": {
            "cost": "116.0", "fee": "0.3", "margin": "0", "misc": "",
            "ordertxid": "OX1", "ordertype": "limit", "pair": "KAVAEUR",
            "postxid": "PX1", "price": "2.0", "time": 1605546.2345,
            "type": "buy", "vol": "58"
        }}}}"#,
    );
    let trades = trades_from_response(&response).unwrap();
    assert_eq!(trades.count, 1);
    assert_eq!(trades.trades.len(), 1);
    assert_eq!(trades.trades[0].0, "TX1");
    let t = &trades.trades[0].1;
    assert_eq!(t.pair, "KAVAEUR");
    assert_eq!(t.price, "2.0");
    assert_eq!(t.trade_type, "buy");
    // the fractional part of the timestamp is truncated
    assert_eq!(t.time, 1605546);
}

#[test]
fn missing_result_is_the_distinguished_error() {
    let response = value(r#"{"error": []}"#);
    let err = trades_from_response(&response).unwrap_err();
    match err {
        EngineError::MissingField(f) => assert_eq!(f, "result"),
        other => panic!("expected the missing result field, got {:?}", other),
    }
}

#[test]
fn wrong_shape_is_bad_parse() {
    let response = value(r#"{"result": {"count": 1, "trades": {"TX1": {"pair": 7}}}}"#);
    let err = trades_from_response(&response).unwrap_err();
    assert!(matches!(err, EngineError::BadParse));
}

#[test]
fn balances_come_out_of_the_envelope() {
    let response = value(r#"{"result": {"KAVA": "1500", "OXT": "4000"}}"#);
    let balances = balance_from_response(&response).unwrap();
    assert_eq!(balances.len(), 2);
    assert!(balances.contains(&(String::from("KAVA"), String::from("1500"))));
    assert!(balances.contains(&(String::from("OXT"), String::from("4000"))));
}

#[test]
fn orders_come_out_of_the_envelope() {
    let response = value(
        r#"{"result": {"open": {"3344de344": {
            "cost": "0", "descr": {
                "close": "", "leverage": "none", "order": "sell 1500 KAVAEUR",
                "ordertype": "stop-loss", "pair": "KAVAEUR", "price": "0.3",
                "price2": "0", "type": "sell"
            },
            "expiretm": 0, "fee": "0", "limitprice": "0", "misc": "",
            "oflags": "fciq", "opentm": 1605546.9876, "price": "0.3",
            "refid": null, "status": "open", "stopprice": "0",
            "userref": 2123444, "vol": "1500", "vol_exec": "0"
        }}}}"#,
    );
    let orders = orders_from_response(&response).unwrap();
    assert_eq!(orders.open.len(), 1);
    assert_eq!(orders.open[0].0, "3344de344");
    let o = &orders.open[0].1;
    assert_eq!(o.description.order_type, "stop-loss");
    assert_eq!(o.description.operation_type, "sell");
    assert_eq!(o.description.pair, "KAVAEUR");
    assert_eq!(o.price, "0.3");
    assert_eq!(o.refid, None);
    assert_eq!(o.userref, 2123444);
    assert_eq!(o.opentm, 1605546);
}

#[test]
fn close_price_is_the_last_rows_fifth_cell() {
    let response = value(
        r#"{"result": {"KAVAEUR": [
            [1605540, "3.1", "3.2", "3.0", "3.15", "3.1", "100", 5],
            [1605600, "3.2", "3.6", "3.1", "3.5", "3.4", "200", 8]
        ], "last": 1605600}}"#,
    );
    let close = price_from_ohlc(&response, "KAVAEUR").unwrap();
    assert_eq!(close, "3.5");
}

#[test]
fn ohlc_errors_name_what_is_missing() {
    let no_result = value(r#"{}"#);
    match price_from_ohlc(&no_result, "KAVAEUR").unwrap_err() {
        EngineError::MissingField(f) => assert_eq!(f, "result"),
        other => panic!("expected the missing result field, got {:?}", other),
    }

    let no_pair = value(r#"{"result": {"OXTEUR": []}}"#);
    match price_from_ohlc(&no_pair, "KAVAEUR").unwrap_err() {
        EngineError::MissingField(f) => assert_eq!(f, "KAVAEUR"),
        other => panic!("expected the missing pair, got {:?}", other),
    }

    let no_rows = value(r#"{"result": {"KAVAEUR": []}}"#);
    match price_from_ohlc(&no_rows, "KAVAEUR").unwrap_err() {
        EngineError::MissingField(f) => assert_eq!(f, "last array"),
        other => panic!("expected the empty rows error, got {:?}", other),
    }

    let short_row = value(r#"{"result": {"KAVAEUR": [[1, "2", "3"]]}}"#);
    match price_from_ohlc(&short_row, "KAVAEUR").unwrap_err() {
        EngineError::MissingField(f) => assert_eq!(f, "4"),
        other => panic!("expected the missing cell error, got {:?}", other),
    }

    let close_not_text = value(r#"{"result": {"KAVAEUR": [[1, "2", "3", "4", 5]]}}"#);
    assert!(matches!(
        price_from_ohlc(&close_not_text, "KAVAEUR").unwrap_err(),
        EngineError::BadParse
    ));
}

#[test]
fn seconds_are_truncated_toward_zero() {
    assert_eq!(parse_seconds("1605546.2345"), Some(1605546));
    assert_eq!(parse_seconds("1605546"), Some(1605546));
    assert_eq!(parse_seconds("0.9"), Some(0));
    assert_eq!(parse_seconds("-1.5"), None);
    assert_eq!(parse_seconds(""), None);
}
