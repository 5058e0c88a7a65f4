use dancespiele::classifier::stop_losses_from_orders;
use dancespiele::decimal::parse_price;
use dancespiele::dtos::{CurrentPrice, Description, Order};

fn order(pair: &str, order_type: &str, operation_type: &str, price: &str) -> Order {
    Order {
        cost: String::from(""),
        fee: String::from("1.0"),
        limit_price: String::from(""),
        expiretm: 160000,
        misc: String::from(""),
        oflags: String::from(""),
        opentm: 160000,
        price: String::from(price),
        refid: None,
        status: String::from("ACTIVE"),
        stop_price: String::from(""),
        description: Description {
            close: String::from(""),
            order: String::from(""),
            operation_type: String::from(operation_type),
            order_type: String::from(order_type),
            leverage: String::from(""),
            pair: String::from(pair),
            price: String::from(price),
            price2: String::from(""),
        },
        userref: 2123444,
        vol: String::from("1500"),
        vol_exec: String::from(""),
    }
}

#[test]
fn extracts_stop_loss_sells() {
    let orders = vec![(String::from("3344de344"), order("KAVAEUR", "stop-loss", "sell", "0.3"))];
    let prices = vec![CurrentPrice { pair: String::from("KAVAEUR"), price: parse_price("3.5").unwrap() }];

    let active = stop_losses_from_orders(&orders, &prices);
    assert_eq!(active.len(), 1);
    assert_eq!(active[0].order, "3344de344");
    assert_eq!(active[0].pair, "KAVAEUR");
    assert_eq!(active[0].price, parse_price("0.3").unwrap());
    assert_eq!(active[0].current_price, parse_price("3.5").unwrap());
}

#[test]
fn other_orders_are_not_stop_losses() {
    let orders = vec![
        (String::from("a"), order("KAVAEUR", "limit", "sell", "4.0")),
        (String::from("b"), order("KAVAEUR", "stop-loss", "buy", "4.0")),
    ];
    let prices = vec![CurrentPrice { pair: String::from("KAVAEUR"), price: parse_price("3.5").unwrap() }];

    let active = stop_losses_from_orders(&orders, &prices);
    assert_eq!(active.len(), 0);
}

#[test]
fn order_without_a_current_price_is_skipped() {
    let orders = vec![(String::from("a"), order("KAVAEUR", "stop-loss", "sell", "0.3"))];
    let prices = vec![CurrentPrice { pair: String::from("OXTEUR"), price: parse_price("0.4").unwrap() }];

    let active = stop_losses_from_orders(&orders, &prices);
    assert_eq!(active.len(), 0);
}

#[test]
fn unparsable_trigger_defaults_to_zero() {
    let orders = vec![(String::from("a"), order("KAVAEUR", "stop-loss", "sell", "bogus"))];
    let prices = vec![CurrentPrice { pair: String::from("KAVAEUR"), price: parse_price("3.5").unwrap() }];

    let active = stop_losses_from_orders(&orders, &prices);
    assert_eq!(active.len(), 1);
    assert_eq!(active[0].price, 0);
}
