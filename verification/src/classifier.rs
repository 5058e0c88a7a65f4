//! The order classifier.
//!
//! Picks the active protective orders out of the open-orders snapshot: an
//! order counts when its order type is `"stop-loss"` and its operation type
//! is `"sell"`.  Each one is joined against the current price of its pair;
//! an order whose pair carries no current price is skipped.  A trigger price
//! that is no decimal counts as zero, as the wire default.

use vstd::prelude::*;
use crate::dtos::{Order, CurrentPrice, StopLossActive};
use crate::decimal::parse_price;
use crate::aggregator::spec_atoms_or_zero;
use crate::text::str_eq;

verus! {

/// Whether an open order is a protective sell.
pub open spec fn spec_is_stop_loss_sell(o: Order) -> bool {
    o.description.order_type@ == "stop-loss"@ && o.description.operation_type@ == "sell"@
}

/// First current price with the given pair.
pub open spec fn spec_find_price(prices: Seq<CurrentPrice>, pair: Seq<char>) -> Option<int>
    decreases prices.len(),
{
    if prices.len() == 0 {
        None
    } else if prices[0].pair@ == pair {
        Some(0int)
    } else {
        match spec_find_price(prices.drop_first(), pair) {
            Some(i) => Some(i + 1),
            None => None,
        }
    }
}

proof fn lemma_find_price_found(prices: Seq<CurrentPrice>, pair: Seq<char>, i: int)
    requires
        0 <= i < prices.len(),
        prices[i].pair@ == pair,
        forall|j: int| 0 <= j < i ==> prices[j].pair@ != pair,
    ensures
        spec_find_price(prices, pair) == Some(i),
    decreases prices.len(),
{
    if i > 0 {
        let t = prices.drop_first();
        assert(t[i - 1].pair@ == pair);
        assert(forall|j: int| 0 <= j < i - 1 ==> t[j].pair@ != pair);
        lemma_find_price_found(t, pair, i - 1);
    }
}

proof fn lemma_find_price_none(prices: Seq<CurrentPrice>, pair: Seq<char>)
    requires
        forall|j: int| 0 <= j < prices.len() ==> prices[j].pair@ != pair,
    ensures
        spec_find_price(prices, pair) is None,
    decreases prices.len(),
{
    if prices.len() > 0 {
        lemma_find_price_none(prices.drop_first(), pair);
    }
}

pub fn find_price(prices: &Vec<CurrentPrice>, pair: &str) -> (r: Option<usize>)
    ensures
        match r {
            Some(j) => spec_find_price(prices@, pair@) == Some(j as int) && j < prices@.len()
                && prices@[j as int].pair@ == pair@,
            None => spec_find_price(prices@, pair@) is None,
        },
{
    let n = prices.len();
    let mut i: usize = 0;
    while i < n
        invariant
            i <= n,
            n == prices@.len(),
            forall|j: int| 0 <= j < i ==> prices@[j].pair@ != pair@,
        decreases n - i,
    {
        if str_eq(prices[i].pair.as_str(), pair) {
            proof {
                lemma_find_price_found(prices@, pair@, i as int);
            }
            return Some(i);
        }
        i = i + 1;
    }
    proof {
        lemma_find_price_none(prices@, pair@);
    }
    None
}

/// First active stop loss with the given pair.
pub open spec fn spec_find_stop_loss(s: Seq<StopLossActive>, pair: Seq<char>) -> Option<int>
    decreases s.len(),
{
    if s.len() == 0 {
        None
    } else if s[0].pair@ == pair {
        Some(0int)
    } else {
        match spec_find_stop_loss(s.drop_first(), pair) {
            Some(i) => Some(i + 1),
            None => None,
        }
    }
}

proof fn lemma_find_stop_loss_found(s: Seq<StopLossActive>, pair: Seq<char>, i: int)
    requires
        0 <= i < s.len(),
        s[i].pair@ == pair,
        forall|j: int| 0 <= j < i ==> s[j].pair@ != pair,
    ensures
        spec_find_stop_loss(s, pair) == Some(i),
    decreases s.len(),
{
    if i > 0 {
        let t = s.drop_first();
        assert(t[i - 1].pair@ == pair);
        assert(forall|j: int| 0 <= j < i - 1 ==> t[j].pair@ != pair);
        lemma_find_stop_loss_found(t, pair, i - 1);
    }
}

proof fn lemma_find_stop_loss_none(s: Seq<StopLossActive>, pair: Seq<char>)
    requires
        forall|j: int| 0 <= j < s.len() ==> s[j].pair@ != pair,
    ensures
        spec_find_stop_loss(s, pair) is None,
    decreases s.len(),
{
    if s.len() > 0 {
        lemma_find_stop_loss_none(s.drop_first(), pair);
    }
}

pub fn find_stop_loss(s: &Vec<StopLossActive>, pair: &str) -> (r: Option<usize>)
    ensures
        match r {
            Some(j) => spec_find_stop_loss(s@, pair@) == Some(j as int) && j < s@.len()
                && s@[j as int].pair@ == pair@,
            None => spec_find_stop_loss(s@, pair@) is None,
        },
{
    let n = s.len();
    let mut i: usize = 0;
    while i < n
        invariant
            i <= n,
            n == s@.len(),
            forall|j: int| 0 <= j < i ==> s@[j].pair@ != pair@,
        decreases n - i,
    {
        if str_eq(s[i].pair.as_str(), pair) {
            proof {
                lemma_find_stop_loss_found(s@, pair@, i as int);
            }
            return Some(i);
        }
        i = i + 1;
    }
    proof {
        lemma_find_stop_loss_none(s@, pair@);
    }
    None
}

/// The active stop losses of the snapshot, joined with their current prices.
pub open spec fn spec_classify(
    orders: Seq<(String, Order)>,
    prices: Seq<CurrentPrice>,
) -> Seq<StopLossActive>
    decreases orders.len(),
{
    if orders.len() == 0 {
        Seq::empty()
    } else {
        let prev = spec_classify(orders.drop_last(), prices);
        let key = orders.last().0;
        let o = orders.last().1;
        if spec_is_stop_loss_sell(o) {
            match spec_find_price(prices, o.description.pair@) {
                Some(j) => prev.push(
                    StopLossActive {
                        order: key,
                        price: spec_atoms_or_zero(o.price@),
                        pair: prices[j].pair,
                        current_price: prices[j].price,
                    },
                ),
                None => prev,
            }
        } else {
            prev
        }
    }
}

/// Extracts the active protective sell orders, joining each against the
/// current price of its pair; orders without one are skipped.
pub fn stop_losses_from_orders(orders: &Vec<(String, Order)>, prices: &Vec<CurrentPrice>) -> (r:
    Vec<StopLossActive>)
    ensures
        r@ == spec_classify(orders@, prices@),
{
    let n = orders.len();
    let mut acc: Vec<StopLossActive> = Vec::new();
    let mut i: usize = 0;
    while i < n
        invariant
            i <= n,
            n == orders@.len(),
            acc@ == spec_classify(orders@.take(i as int), prices@),
        decreases n - i,
    {
        proof {
            assert(orders@.take(i + 1).drop_last() =~= orders@.take(i as int));
            assert(orders@.take(i + 1).last() == orders@[i as int]);
        }
        let o = &orders[i].1;
        if str_eq(o.description.order_type.as_str(), "stop-loss") && str_eq(
            o.description.operation_type.as_str(),
            "sell",
        ) {
            match find_price(prices, o.description.pair.as_str()) {
                Some(j) => {
                    let atoms = match parse_price(o.price.as_str()) {
                        Some(v) => v,
                        None => 0,
                    };
                    let sl = StopLossActive {
                        order: orders[i].0.clone(),
                        price: atoms,
                        pair: prices[j].pair.clone(),
                        current_price: prices[j].price,
                    };
                    acc.push(sl);
                },
                None => {},
            }
        }
        i = i + 1;
    }
    proof {
        assert(orders@.take(n as int) =~= orders@);
    }
    acc
}

} // verus!
