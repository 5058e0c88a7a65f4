use dancespiele::config::Percentage;
use dancespiele::decimal::parse_price;
use dancespiele::dtos::{CurrentPrice, Description, FutureOperation, Order};
use dancespiele::error::EngineError;
use dancespiele::policy::{add_stop_loss, brain, stop_price, StopLossAction};

fn percentages_fixture() -> Vec<Percentage> {
    vec![
        Percentage {
            new_stop_loss: String::from("40.0"),
            next_stop_loss: String::from("14.0"),
            pair: String::from("KAVAEUR"),
        },
        Percentage {
            new_stop_loss: String::from("30.0"),
            next_stop_loss: String::from("5.0"),
            pair: String::from("OXTEUR"),
        },
    ]
}

fn order_fixture() -> (String, Order) {
    (
        String::from("3344de344"),
        Order {
            cost: String::from(""),
            fee: String::from("1.0"),
            limit_price: String::from(""),
            expiretm: 160000,
            misc: String::from(""),
            oflags: String::from(""),
            opentm: 160000,
            price: String::from("0.3"),
            refid: None,
            status: String::from("ACTIVE"),
            stop_price: String::from(""),
            description: Description {
                close: String::from(""),
                order: String::from("3344de344"),
                operation_type: String::from("sell"),
                order_type: String::from("stop-loss"),
                leverage: String::from(""),
                pair: String::from("KAVAEUR"),
                price: String::from("0.3"),
                price2: String::from(""),
            },
            userref: 2123444,
            vol: String::from("1500"),
            vol_exec: String::from(""),
        },
    )
}

#[test]
fn should_add_stop_loss() {
    let buy_price = FutureOperation {
        pair: String::from("OXTEUR"),
        buy_price: parse_price("0.29").unwrap(),
        operation_time: 160000,
        quantity: String::from("4000"),
    };

    let current_assest = CurrentPrice { pair: String::from("OXTEUR"), price: parse_price("0.4").unwrap() };

    let percentages = vec![
        Percentage {
            new_stop_loss: String::from("15.0"),
            next_stop_loss: String::from("5.0"),
            pair: String::from("KAVAEUR"),
        },
        Percentage {
            new_stop_loss: String::from("30.0"),
            next_stop_loss: String::from("5.0"),
            pair: String::from("OXTEUR"),
        },
    ];

    let action = add_stop_loss(&buy_price, &current_assest, "37.93104", None, &percentages).unwrap();

    match action {
        StopLossAction::Place { pair, price, volume, notify } => {
            assert_eq!(pair, "OXTEUR");
            assert_eq!(price, parse_price("0.392").unwrap());
            assert_eq!(volume, "4000");
            assert_eq!(notify.pair, "OXTEUR");
            assert_eq!(notify.price, "0.392");
            assert_eq!(notify.benefit, "37.93104");
        },
        other => panic!("expected a placed order, got {:?}", other),
    }
}

#[test]
fn should_set_next_stop_loss() {
    let buy_price = FutureOperation {
        pair: String::from("KAVAEUR"),
        buy_price: parse_price("3.0").unwrap(),
        operation_time: 160000,
        quantity: String::from("1500"),
    };

    let current_assest = CurrentPrice { pair: String::from("KAVAEUR"), price: parse_price("3.5").unwrap() };

    let percentages = percentages_fixture();

    let action = add_stop_loss(
        &buy_price,
        &current_assest,
        "16.66666",
        Some(String::from("3344de344")),
        &percentages,
    )
    .unwrap();

    match action {
        StopLossAction::Replace { cancel_order, pair, price, volume, notify } => {
            assert_eq!(cancel_order, "3344de344");
            assert_eq!(pair, "KAVAEUR");
            assert_eq!(price, parse_price("3.43").unwrap());
            assert_eq!(volume, "1500");
            assert_eq!(notify.price, "3.43");
            assert_eq!(notify.benefit, "16.66666");
        },
        other => panic!("expected a replaced order, got {:?}", other),
    }
}

#[test]
fn should_brain_play_in_kraken() {
    let buy_prices = vec![
        FutureOperation {
            pair: String::from("OXTEUR"),
            buy_price: parse_price("0.29").unwrap(),
            operation_time: 160000,
            quantity: String::from("4000"),
        },
        FutureOperation {
            pair: String::from("KAVAEUR"),
            buy_price: parse_price("2.0").unwrap(),
            operation_time: 160000,
            quantity: String::from("1500"),
        },
        FutureOperation {
            pair: String::from("CRVEUR"),
            buy_price: parse_price("5.0").unwrap(),
            operation_time: 160000,
            quantity: String::from("3000"),
        },
    ];

    let open_orders = vec![order_fixture()];
    let percentages = percentages_fixture();

    // one fetched price per position's pair, as the exchange reports them
    let current_prices: Vec<CurrentPrice> = buy_prices
        .iter()
        .map(|fo| CurrentPrice {
            pair: fo.pair.clone(),
            price: if fo.pair == "KAVAEUR" {
                parse_price("3.5").unwrap()
            } else {
                parse_price("0.40").unwrap()
            },
        })
        .collect();

    let (outcomes, summary) = brain(&buy_prices, &open_orders, &current_prices, &percentages);

    // CRVEUR has no thresholds configured and is not evaluated
    assert_eq!(outcomes.len(), 2);

    assert_eq!(outcomes[0].pair, "OXTEUR");
    match outcomes[0].outcome.as_ref().unwrap() {
        StopLossAction::Place { price, volume, .. } => {
            assert_eq!(*price, parse_price("0.392").unwrap());
            assert_eq!(volume, "4000");
        },
        other => panic!("expected a placed order for OXTEUR, got {:?}", other),
    }

    assert_eq!(outcomes[1].pair, "KAVAEUR");
    match outcomes[1].outcome.as_ref().unwrap() {
        StopLossAction::Replace { cancel_order, price, volume, .. } => {
            assert_eq!(cancel_order, "3344de344");
            assert_eq!(*price, parse_price("3.43").unwrap());
            assert_eq!(volume, "1500");
        },
        other => panic!("expected a replaced order for KAVAEUR, got {:?}", other),
    }

    assert!(summary.starts_with("Brain executed: "));
    assert!(summary.contains("OXTEUR 0.4"));
    assert!(summary.contains("KAVAEUR 3.5"));
}

#[test]
fn below_both_thresholds_keeps_everything() {
    let percentages = percentages_fixture();

    // no existing order: benefit 3.44..% is under new_stop_loss 30.0
    let buy_price = FutureOperation {
        pair: String::from("OXTEUR"),
        buy_price: parse_price("0.29").unwrap(),
        operation_time: 160000,
        quantity: String::from("4000"),
    };
    let current = CurrentPrice { pair: String::from("OXTEUR"), price: parse_price("0.30").unwrap() };
    let benefit = dancespiele::benefit::calc_benefit(buy_price.buy_price, current.price);
    let action = add_stop_loss(&buy_price, &current, &benefit, None, &percentages).unwrap();
    assert!(matches!(action, StopLossAction::Keep));

    // existing order: benefit over the trigger is under next_stop_loss 14.0
    let kava = FutureOperation {
        pair: String::from("KAVAEUR"),
        buy_price: parse_price("3.0").unwrap(),
        operation_time: 160000,
        quantity: String::from("1500"),
    };
    let kava_current = CurrentPrice { pair: String::from("KAVAEUR"), price: parse_price("3.45").unwrap() };
    let benefit = dancespiele::benefit::calc_benefit(parse_price("3.43").unwrap(), kava_current.price);
    let action = add_stop_loss(
        &kava,
        &kava_current,
        &benefit,
        Some(String::from("3344de344")),
        &percentages,
    )
    .unwrap();
    assert!(matches!(action, StopLossAction::Keep));
}

#[test]
fn missing_threshold_is_a_per_pair_error() {
    let percentages = percentages_fixture();
    let buy_price = FutureOperation {
        pair: String::from("CRVEUR"),
        buy_price: parse_price("5.0").unwrap(),
        operation_time: 160000,
        quantity: String::from("3000"),
    };
    let current = CurrentPrice { pair: String::from("CRVEUR"), price: parse_price("9.0").unwrap() };
    let err = add_stop_loss(&buy_price, &current, "80.0", None, &percentages).unwrap_err();
    match err {
        EngineError::ThresholdNotFound(pair) => assert_eq!(pair, "CRVEUR"),
        other => panic!("expected a missing-threshold error, got {:?}", other),
    }
}

#[test]
fn unparsable_benefit_is_bad_parse() {
    let percentages = percentages_fixture();
    let buy_price = FutureOperation {
        pair: String::from("OXTEUR"),
        buy_price: parse_price("0.29").unwrap(),
        operation_time: 160000,
        quantity: String::from("4000"),
    };
    let current = CurrentPrice { pair: String::from("OXTEUR"), price: parse_price("0.4").unwrap() };
    let err = add_stop_loss(&buy_price, &current, "not a number", None, &percentages).unwrap_err();
    assert!(matches!(err, EngineError::BadParse));
}

#[test]
fn missing_position_is_reported_per_pair() {
    let percentages = percentages_fixture();
    // KAVAEUR has a price and thresholds but no position; OXTEUR is intact
    let buy_prices = vec![FutureOperation {
        pair: String::from("OXTEUR"),
        buy_price: parse_price("0.29").unwrap(),
        operation_time: 160000,
        quantity: String::from("4000"),
    }];
    let current_prices = vec![
        CurrentPrice { pair: String::from("KAVAEUR"), price: parse_price("3.5").unwrap() },
        CurrentPrice { pair: String::from("OXTEUR"), price: parse_price("0.4").unwrap() },
    ];

    let (outcomes, _) = brain(&buy_prices, &Vec::new(), &current_prices, &percentages);
    assert_eq!(outcomes.len(), 2);

    match outcomes[0].outcome.as_ref().unwrap_err() {
        EngineError::ExternalCallFailure(m) => assert_eq!(m, "not found current assets"),
        other => panic!("expected the missing-position report, got {:?}", other),
    }
    // the sibling pair is still evaluated
    assert!(matches!(
        outcomes[1].outcome.as_ref().unwrap(),
        StopLossAction::Place { .. }
    ));
}

#[test]
fn pass_summary_names_each_evaluated_pair() {
    let percentages = percentages_fixture();
    let buy_prices = vec![FutureOperation {
        pair: String::from("KAVAEUR"),
        buy_price: parse_price("3.0").unwrap(),
        operation_time: 160000,
        quantity: String::from("1500"),
    }];
    let current_prices =
        vec![CurrentPrice { pair: String::from("KAVAEUR"), price: parse_price("3.5").unwrap() }];

    let (_, summary) = brain(&buy_prices, &Vec::new(), &current_prices, &percentages);
    assert_eq!(summary, "Brain executed: \nKAVAEUR 3.5");
}

#[test]
fn stop_price_is_ninety_eight_percent() {
    assert_eq!(stop_price(parse_price("3.5").unwrap()), parse_price("3.43").unwrap());
    assert_eq!(stop_price(parse_price("0.4").unwrap()), parse_price("0.392").unwrap());
    assert_eq!(stop_price(0), 0);
}
