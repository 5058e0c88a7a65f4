use dancespiele::dtos::{Notify, NotifyEmail};
use dancespiele::error::EngineError;
use dancespiele::helpers::{get_operation_type, get_order_type, OperationType, OrderType};
use dancespiele::notify::{build_notify_email, notification_message};
use dancespiele::retry::PollResult;

#[test]
fn notification_carries_pair_price_and_benefit() {
    let notify = Notify {
        pair: "KAVAEUR".to_string(),
        price: "4.0".to_string(),
        benefit: "40.0".to_string(),
    };

    let email = build_notify_email(notify, String::from("trader@example.org"));
    assert_eq!(email.pair, "KAVAEUR");
    assert_eq!(email.price, "4.0");
    assert_eq!(email.benefit, "40.0");
    assert_eq!(email.email, "trader@example.org");
}

#[test]
fn notify_from_parts() {
    let notify = Notify::from((
        String::from("OXTEUR"),
        String::from("0.392"),
        String::from("37.93104"),
    ));
    assert_eq!(notify.pair, "OXTEUR");
    assert_eq!(notify.price, "0.392");
    assert_eq!(notify.benefit, "37.93104");

    let with_email = NotifyEmail::from((notify, String::from("trader@example.org")));
    assert_eq!(with_email.pair, "OXTEUR");
    assert_eq!(with_email.email, "trader@example.org");
}

#[test]
fn delivered_value_is_reported_verbatim() {
    let message = notification_message(PollResult::Found(String::from("sent")));
    assert_eq!(message, "sent");
}

#[test]
fn wire_names_of_operations_and_orders() {
    assert_eq!(get_operation_type(OperationType::BUY), "buy");
    assert_eq!(get_operation_type(OperationType::SELL), "sell");
    assert_eq!(get_order_type(OrderType::StopLoss), "stop-loss");
}

#[test]
fn timeout_message_names_the_lost_task() {
    let e = EngineError::NotificationTimeout;
    assert_eq!(e.message(), "Cannot retrieve the task");
}

#[test]
fn each_error_reports_itself() {
    let missing = EngineError::MissingField(String::from("result"));
    assert_eq!(missing.message(), "missing field: result");
    assert_eq!(EngineError::BadParse.message(), "could not parse the response");
    let threshold = EngineError::ThresholdNotFound(String::from("KAVAEUR"));
    assert_eq!(threshold.message(), "no stop loss percentages for KAVAEUR");
    let outside = EngineError::ExternalCallFailure(String::from("connection refused"));
    assert_eq!(outside.message(), "external call failed: connection refused");
}
