//! Wire names of the order operation and order type used by the exchange.

use vstd::prelude::*;
use vstd::string::StringExecFns;

verus! {

pub enum OperationType {
    BUY,
    SELL,
}

pub enum OrderType {
    StopLoss,
}

/// The wire name of an operation: `"buy"` or `"sell"`.
pub fn get_operation_type(operation_type: OperationType) -> (r: String)
    ensures
        operation_type is BUY ==> r@ == "buy"@,
        operation_type is SELL ==> r@ == "sell"@,
{
    match operation_type {
        OperationType::BUY => String::from_str("buy"),
        OperationType::SELL => String::from_str("sell"),
    }
}

/// The wire name of the one managed order type: `"stop-loss"`.
pub fn get_order_type(order_type: OrderType) -> (r: String)
    ensures
        r@ == "stop-loss"@,
{
    match order_type {
        OrderType::StopLoss => String::from_str("stop-loss"),
    }
}

} // verus!
