//! Data carried through one decision pass.
//!
//! Prices are atoms (fixed-point `10^-8` units, see [`crate::decimal`]);
//! volumes stay as the decimal strings the exchange hands out, since the
//! engine never computes with them.  Timestamps are whole epoch seconds.

use vstd::prelude::*;
use vstd::string::StringExecFns;
use crate::decimal::spec_price;
use crate::decimal::parse_price;

verus! {

/// One record of the trade history.
#[derive(Debug, Clone)]
pub struct Trade {
    pub cost: String,
    pub fee: String,
    pub margin: String,
    pub misc: String,
    pub ordertxid: String,
    pub ordertype: String,
    pub pair: String,
    pub postxid: String,
    pub price: String,
    pub time: i64,
    pub trade_type: String,
    pub vol: String,
}

/// A keyed snapshot holds each key once: the invariant the wire's JSON
/// objects guarantee.
pub open spec fn spec_unique_keys<T>(s: Seq<(String, T)>) -> bool {
    forall|i: int, j: int| 0 <= i < j < s.len() ==> s[i].0@ != s[j].0@
}

/// The trade history: records keyed by transaction id.
#[derive(Debug, Clone)]
pub struct Trades {
    pub count: u32,
    pub trades: Vec<(String, Trade)>,
}

impl Trades {
    /// Transaction ids are pairwise distinct.
    pub open spec fn wf(self) -> bool {
        spec_unique_keys(self.trades@)
    }
}

/// The descriptive half of an open order.
#[derive(Debug, Clone)]
pub struct Description {
    pub close: String,
    pub leverage: String,
    pub order: String,
    pub order_type: String,
    pub pair: String,
    pub price: String,
    pub price2: String,
    pub operation_type: String,
}

/// One open order.
#[derive(Debug, Clone)]
pub struct Order {
    pub cost: String,
    pub description: Description,
    pub expiretm: i64,
    pub fee: String,
    pub limit_price: String,
    pub misc: String,
    pub oflags: String,
    pub opentm: i64,
    pub price: String,
    pub refid: Option<String>,
    pub status: String,
    pub stop_price: String,
    pub userref: u32,
    pub vol: String,
    pub vol_exec: String,
}

/// The open-orders snapshot: orders keyed by order id.
#[derive(Debug, Clone)]
pub struct OpenOrders {
    pub open: Vec<(String, Order)>,
}

impl OpenOrders {
    /// Order ids are pairwise distinct.
    pub open spec fn wf(self) -> bool {
        spec_unique_keys(self.open@)
    }
}

/// A bought position that may deserve a protective order.
#[derive(Debug, Clone)]
pub struct FutureOperation {
    pub buy_price: u64,
    pub pair: String,
    pub quantity: String,
    pub operation_time: i64,
}

impl FutureOperation {
    /// Builds a position from a buy trade; the quantity is the asset's
    /// current balance, not the trade's own volume.  `None` when the trade's
    /// price string is no decimal.
    pub fn from_trade(trade: Trade, quantity: String) -> (r: Option<FutureOperation>)
        ensures
            match r {
                Some(fo) => spec_price(trade.price@) == Some(fo.buy_price) && fo.pair == trade.pair
                    && fo.quantity == quantity && fo.operation_time == trade.time,
                None => spec_price(trade.price@) is None,
            },
    {
        match parse_price(trade.price.as_str()) {
            Some(atoms) => Some(
                FutureOperation {
                    buy_price: atoms,
                    pair: trade.pair,
                    quantity,
                    operation_time: trade.time,
                },
            ),
            None => None,
        }
    }
}

/// The last traded price of a pair.
#[derive(Debug, Clone)]
pub struct CurrentPrice {
    pub pair: String,
    pub price: u64,
}

impl CurrentPrice {
    pub fn new(pair: String, price: u64) -> (r: CurrentPrice)
        ensures
            r.pair == pair,
            r.price == price,
    {
        CurrentPrice { pair, price }
    }
}

/// An active protective sell order.
#[derive(Debug, Clone)]
pub struct StopLossActive {
    pub order: String,
    pub price: u64,
    pub pair: String,
    pub current_price: u64,
}

impl StopLossActive {
    pub fn new(order: String, price: u64, current: CurrentPrice) -> (r: StopLossActive)
        ensures
            r.order == order,
            r.price == price,
            r.pair == current.pair,
            r.current_price == current.price,
    {
        StopLossActive { order, price, pair: current.pair, current_price: current.price }
    }
}

/// The payload of a notification about a placed stop loss.
#[derive(Debug, Clone)]
pub struct Notify {
    pub pair: String,
    pub price: String,
    pub benefit: String,
}

impl From<(String, String, String)> for Notify {
    fn from(notify: (String, String, String)) -> (r: Self) {
        Notify { pair: notify.0, price: notify.1, benefit: notify.2 }
    }
}

impl vstd::std_specs::convert::FromSpecImpl<(String, String, String)> for Notify {
    open spec fn obeys_from_spec() -> bool {
        true
    }

    open spec fn from_spec(notify: (String, String, String)) -> Self {
        Notify { pair: notify.0, price: notify.1, benefit: notify.2 }
    }
}

/// A notification joined with the recipient address.
#[derive(Debug, Clone)]
pub struct NotifyEmail {
    pub pair: String,
    pub price: String,
    pub benefit: String,
    pub email: String,
}

impl From<(Notify, String)> for NotifyEmail {
    fn from(notify: (Notify, String)) -> (r: Self) {
        let (content, email) = notify;
        NotifyEmail { price: content.price, pair: content.pair, benefit: content.benefit, email }
    }
}

impl vstd::std_specs::convert::FromSpecImpl<(Notify, String)> for NotifyEmail {
    open spec fn obeys_from_spec() -> bool {
        true
    }

    open spec fn from_spec(notify: (Notify, String)) -> Self {
        NotifyEmail {
            price: notify.0.price,
            pair: notify.0.pair,
            benefit: notify.0.benefit,
            email: notify.1,
        }
    }
}

/// The claims of the signed system credential used towards the mail
/// collaborator: issued by `"system"`, valid for twenty-four hours.
#[derive(Debug, Clone)]
pub struct Claims {
    pub sub: String,
    pub iss: String,
    pub email: String,
    pub iat: i64,
    pub exp: i64,
}

impl Claims {
    pub fn new(sub: String, email: String, iat: i64) -> (r: Claims)
        requires
            iat + 86400 <= i64::MAX,
        ensures
            r.sub == sub,
            r.email == email,
            r.iat == iat,
            r.exp == iat + 86400,
            r.iss@ == "system"@,
    {
        Claims { sub, iss: system_name(), email, iat, exp: iat + 86400 }
    }
}

fn system_name() -> (r: String)
    ensures
        r@ == "system"@,
{
    String::from_str("system")
}

/// A pair's state gathered for reporting.
#[derive(Debug, Clone)]
pub struct Info {
    pub pair: String,
    pub current_price: u64,
    pub price_bought: u64,
    pub benefit: String,
    pub current_stop_loss: String,
}

impl Info {
    pub fn from_parts(
        current: CurrentPrice,
        price_bought: u64,
        benefit: String,
        current_stop_loss: String,
    ) -> (r: Info)
        ensures
            r.pair == current.pair,
            r.current_price == current.price,
            r.price_bought == price_bought,
            r.benefit == benefit,
            r.current_stop_loss == current_stop_loss,
    {
        Info {
            pair: current.pair,
            current_price: current.price,
            price_bought,
            benefit,
            current_stop_loss,
        }
    }
}

} // verus!
