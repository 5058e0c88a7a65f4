//! The stop-loss policy engine.
//!
//! Per pair and pass there are three states: no position (nothing to do), a
//! position without a protective order, and a position with one.  A new order
//! is placed when the benefit reaches the pair's `new_stop_loss` threshold; an
//! existing order is cancelled and replaced when the benefit over its trigger
//! reaches `next_stop_loss`.  Every order this engine asks for is a sell stop
//! loss at exactly 98 percent of the current price, for the position's
//! quantity.

use vstd::prelude::*;
use vstd::arithmetic::div_mod::{lemma_div_is_ordered, lemma_div_multiples_vanish};
use vstd::string::StringExecFns;
use crate::aggregator::{spec_find_pair, find_position};
use crate::benefit::{spec_benefit_atoms, calc_benefit};
use crate::classifier::{
    spec_classify, spec_find_stop_loss, stop_losses_from_orders, find_stop_loss,
};
use crate::config::Percentage;
use crate::dtos::{FutureOperation, CurrentPrice, Notify, Order, StopLossActive};
use crate::decimal::{spec_price, parse_price, spec_format_price, format_price};
use crate::error::EngineError;
use crate::text::str_eq;

verus! {

/// The stop price: the current price less the two-percent safety margin.
pub open spec fn spec_stop_price(current: int) -> int {
    current * 98 / 100
}

/// Computes the stop price, `current * 0.98`, floored to the atom.
pub fn stop_price(current: u64) -> (r: u64)
    ensures
        r == spec_stop_price(current as int),
        r <= current,
{
    proof {
        lemma_div_is_ordered(current as int * 98, current as int * 100, 100);
        lemma_div_multiples_vanish(current as int, 100);
        assert(current as int * 100 == 100 * current as int);
    }
    let p: u128 = current as u128 * 98 / 100;
    p as u64
}

/// What a pass decides for one pair.
#[derive(Debug, Clone)]
pub enum StopLossAction {
    /// Leave things as they stand.
    Keep,
    /// Place a new protective sell order and notify.
    Place { pair: String, price: u64, volume: String, notify: Notify },
    /// Cancel the named order, place a tighter one, and notify.
    Replace { cancel_order: String, pair: String, price: u64, volume: String, notify: Notify },
}

/// First configured threshold entry for the pair.
pub open spec fn spec_threshold_for(ps: Seq<Percentage>, pair: Seq<char>) -> Option<Percentage>
    decreases ps.len(),
{
    if ps.len() == 0 {
        None
    } else if ps[0].pair@ == pair {
        Some(ps[0])
    } else {
        spec_threshold_for(ps.drop_first(), pair)
    }
}

pub fn find_percentage(ps: &Vec<Percentage>, pair: &str) -> (r: Option<Percentage>)
    ensures
        r == spec_threshold_for(ps@, pair@),
{
    let n = ps.len();
    let mut i: usize = 0;
    proof {
        assert(ps@.skip(0) =~= ps@);
    }
    while i < n
        invariant
            i <= n,
            n == ps@.len(),
            spec_threshold_for(ps@, pair@) == spec_threshold_for(ps@.skip(i as int), pair@),
        decreases n - i,
    {
        proof {
            assert(ps@.skip(i as int)[0] == ps@[i as int]);
            assert(ps@.skip(i as int).drop_first() =~= ps@.skip(i + 1));
        }
        if str_eq(ps[i].pair.as_str(), pair) {
            let p = Percentage {
                pair: ps[i].pair.clone(),
                new_stop_loss: ps[i].new_stop_loss.clone(),
                next_stop_loss: ps[i].next_stop_loss.clone(),
            };
            return Some(p);
        }
        i = i + 1;
    }
    None
}

/// The action fields a placed or tightened order must carry: stop price at
/// 98 percent of the current price, the position's quantity, and the
/// notification naming the pair, that stop price, and the benefit.
pub open spec fn spec_action_matches(
    position: FutureOperation,
    current: CurrentPrice,
    benefit: Seq<char>,
    order_opt: Option<String>,
    a: StopLossAction,
) -> bool {
    match order_opt {
        Some(ord) => a matches StopLossAction::Replace { cancel_order, pair, price, volume, notify }
            && cancel_order == ord && pair == current.pair && price == spec_stop_price(
            current.price as int,
        ) && volume == position.quantity && notify.pair@ == current.pair@ && notify.price@
            == spec_format_price(spec_stop_price(current.price as int) as nat) && notify.benefit@
            == benefit,
        None => a matches StopLossAction::Place { pair, price, volume, notify } && pair
            == current.pair && price == spec_stop_price(current.price as int) && volume
            == position.quantity && notify.pair@ == current.pair@ && notify.price@
            == spec_format_price(spec_stop_price(current.price as int) as nat) && notify.benefit@
            == benefit,
    }
}

/// Everything `add_stop_loss` promises: which error comes on which input, and
/// on which inputs an order is placed or tightened.
pub open spec fn spec_add_stop_loss(
    position: FutureOperation,
    current: CurrentPrice,
    benefit: Seq<char>,
    order_opt: Option<String>,
    percentages: Seq<Percentage>,
    r: Result<StopLossAction, EngineError>,
) -> bool {
    match spec_threshold_for(percentages, current.pair@) {
        None => r matches Err(EngineError::ThresholdNotFound(p)) && p@ == current.pair@,
        Some(pct) => {
            let threshold = if order_opt is Some {
                pct.next_stop_loss@
            } else {
                pct.new_stop_loss@
            };
            match (spec_price(benefit), spec_price(threshold)) {
                (Some(b), Some(t)) => if t <= b {
                    r matches Ok(a) && spec_action_matches(position, current, benefit, order_opt, a)
                } else {
                    r matches Ok(a) && a is Keep
                },
                _ => r matches Err(e) && e is BadParse,
            }
        },
    }
}

/// Decides what to do for one pair.
///
/// With no existing order, a new stop loss is placed when the benefit reaches
/// the pair's `new_stop_loss`; with an existing order, it is cancelled and
/// replaced when the benefit reaches `next_stop_loss`; boundary equality
/// triggers the action.  A pair without configured thresholds is an error for
/// that pair only; a benefit or threshold string that is no decimal is
/// `BadParse`.
pub fn add_stop_loss(
    position: &FutureOperation,
    current: &CurrentPrice,
    benefit: &str,
    order_opt: Option<String>,
    percentages: &Vec<Percentage>,
) -> (r: Result<StopLossAction, EngineError>)
    ensures
        spec_add_stop_loss(*position, *current, benefit@, order_opt, percentages@, r),
{
    let pct = match find_percentage(percentages, current.pair.as_str()) {
        Some(pct) => pct,
        None => {
            return Err(EngineError::ThresholdNotFound(current.pair.clone()));
        },
    };
    let benefit_atoms = match parse_price(benefit) {
        Some(b) => b,
        None => {
            return Err(EngineError::BadParse);
        },
    };
    let threshold_str = match &order_opt {
        Some(_) => pct.next_stop_loss.as_str(),
        None => pct.new_stop_loss.as_str(),
    };
    let threshold = match parse_price(threshold_str) {
        Some(t) => t,
        None => {
            return Err(EngineError::BadParse);
        },
    };
    if threshold <= benefit_atoms {
        let sp = stop_price(current.price);
        let notify = Notify {
            pair: current.pair.clone(),
            price: format_price(sp as u128),
            benefit: String::from_str(benefit),
        };
        match order_opt {
            Some(ord) => Ok(
                StopLossAction::Replace {
                    cancel_order: ord,
                    pair: current.pair.clone(),
                    price: sp,
                    volume: position.quantity.clone(),
                    notify,
                },
            ),
            None => Ok(
                StopLossAction::Place {
                    pair: current.pair.clone(),
                    price: sp,
                    volume: position.quantity.clone(),
                    notify,
                },
            ),
        }
    } else {
        Ok(StopLossAction::Keep)
    }
}

/// A benefit below both configured thresholds changes nothing: no order is
/// placed or cancelled and no notification goes out, whether or not a
/// protective order already stands.
pub proof fn lemma_below_thresholds_keeps(
    position: FutureOperation,
    current: CurrentPrice,
    benefit: Seq<char>,
    order_opt: Option<String>,
    percentages: Seq<Percentage>,
    pct: Percentage,
    b: u64,
    t_new: u64,
    t_next: u64,
    r: Result<StopLossAction, EngineError>,
)
    requires
        spec_add_stop_loss(position, current, benefit, order_opt, percentages, r),
        spec_threshold_for(percentages, current.pair@) == Some(pct),
        spec_price(benefit) == Some(b),
        spec_price(pct.new_stop_loss@) == Some(t_new),
        spec_price(pct.next_stop_loss@) == Some(t_next),
        b < t_new,
        b < t_next,
    ensures
        r == Ok::<StopLossAction, EngineError>(StopLossAction::Keep),
{
}

/// Every order the policy asks for, new or replacement, is priced at exactly
/// 98 percent of the current price: there is no other stop price.
pub proof fn lemma_orders_priced_at_ninety_eight_percent(
    position: FutureOperation,
    current: CurrentPrice,
    benefit: Seq<char>,
    order_opt: Option<String>,
    percentages: Seq<Percentage>,
    r: Result<StopLossAction, EngineError>,
)
    requires
        spec_add_stop_loss(position, current, benefit, order_opt, percentages, r),
    ensures
        match r {
            Ok(a) => match a {
                StopLossAction::Keep => true,
                StopLossAction::Place { pair, price, volume, notify } => price == spec_stop_price(
                    current.price as int,
                ),
                StopLossAction::Replace { cancel_order, pair, price, volume, notify } => price
                    == spec_stop_price(current.price as int),
            },
            Err(_) => true,
        },
{
}

/// The current prices whose pairs have configured thresholds: only they are
/// evaluated.
pub open spec fn spec_filter_prices(
    prices: Seq<CurrentPrice>,
    percentages: Seq<Percentage>,
) -> Seq<CurrentPrice>
    decreases prices.len(),
{
    if prices.len() == 0 {
        Seq::empty()
    } else {
        let prev = spec_filter_prices(prices.drop_last(), percentages);
        if spec_threshold_for(percentages, prices.last().pair@) is Some {
            prev.push(prices.last())
        } else {
            prev
        }
    }
}

pub fn filter_prices(prices: &Vec<CurrentPrice>, percentages: &Vec<Percentage>) -> (r: Vec<
    CurrentPrice,
>)
    ensures
        r@ == spec_filter_prices(prices@, percentages@),
{
    let n = prices.len();
    let mut acc: Vec<CurrentPrice> = Vec::new();
    let mut i: usize = 0;
    while i < n
        invariant
            i <= n,
            n == prices@.len(),
            acc@ == spec_filter_prices(prices@.take(i as int), percentages@),
        decreases n - i,
    {
        proof {
            assert(prices@.take(i + 1).drop_last() =~= prices@.take(i as int));
            assert(prices@.take(i + 1).last() == prices@[i as int]);
        }
        match find_percentage(percentages, prices[i].pair.as_str()) {
            Some(_) => {
                let cp = CurrentPrice { pair: prices[i].pair.clone(), price: prices[i].price };
                acc.push(cp);
            },
            None => {},
        }
        i = i + 1;
    }
    proof {
        assert(prices@.take(n as int) =~= prices@);
    }
    acc
}

/// What one pass decided for one pair.
#[derive(Debug)]
pub struct PairOutcome {
    pub pair: String,
    pub outcome: Result<StopLossAction, EngineError>,
}

/// What the pass must decide for the pair of `cp`: no position means a
/// recovered per-pair failure; otherwise the benefit basis is the active
/// order's trigger price when one exists, else the buy price, and the
/// decision follows [`spec_add_stop_loss`] with the benefit rendered by the
/// calculator.
pub open spec fn spec_pair_outcome(
    buy_prices: Seq<FutureOperation>,
    stop_losses: Seq<StopLossActive>,
    percentages: Seq<Percentage>,
    cp: CurrentPrice,
    outcome: Result<StopLossAction, EngineError>,
) -> bool {
    match spec_find_pair(buy_prices, cp.pair@) {
        None => outcome matches Err(EngineError::ExternalCallFailure(m)) && m@
            == "not found current assets"@,
        Some(k) => {
            let fo = buy_prices[k];
            let basis = match spec_find_stop_loss(stop_losses, cp.pair@) {
                Some(j) => stop_losses[j].price,
                None => fo.buy_price,
            };
            let order_opt = match spec_find_stop_loss(stop_losses, cp.pair@) {
                Some(j) => Some(stop_losses[j].order),
                None => None,
            };
            let benefit = spec_format_price(
                spec_benefit_atoms(basis as int, cp.price as int) as nat,
            );
            spec_add_stop_loss(fo, cp, benefit, order_opt, percentages, outcome)
        },
    }
}

/// The whole pass: every evaluated pair got the outcome the policy dictates.
pub open spec fn spec_brain_matches(
    buy_prices: Seq<FutureOperation>,
    open_orders: Seq<(String, Order)>,
    current_prices: Seq<CurrentPrice>,
    percentages: Seq<Percentage>,
    outcomes: Seq<PairOutcome>,
) -> bool {
    let eval = spec_filter_prices(current_prices, percentages);
    let stop_losses = spec_classify(open_orders, eval);
    &&& outcomes.len() == eval.len()
    &&& forall|i: int|
        0 <= i < eval.len() ==> (#[trigger] outcomes[i]).pair == eval[i].pair
            && spec_pair_outcome(buy_prices, stop_losses, percentages, eval[i], outcomes[i].outcome)
}

/// One decision pass over the gathered snapshot.
///
/// Evaluates each current price whose pair has thresholds configured, in
/// order; classifies the active stop losses against those prices; decides per
/// pair.  Per-pair failures (no position, no threshold, a string that is no
/// decimal) are recorded and do not stop the siblings.  Returns the outcomes
/// and the pass's report string.
pub fn brain(
    buy_prices: &Vec<FutureOperation>,
    open_orders: &Vec<(String, Order)>,
    current_prices: &Vec<CurrentPrice>,
    percentages: &Vec<Percentage>,
) -> (r: (Vec<PairOutcome>, String))
    ensures
        spec_brain_matches(buy_prices@, open_orders@, current_prices@, percentages@, r.0@),
        r.1@ == spec_summary(spec_filter_prices(current_prices@, percentages@)),
{
    let eval = filter_prices(current_prices, percentages);
    let stop_losses = stop_losses_from_orders(open_orders, &eval);
    let n = eval.len();
    let mut outcomes: Vec<PairOutcome> = Vec::new();
    let mut i: usize = 0;
    while i < n
        invariant
            i <= n,
            n == eval@.len(),
            eval@ == spec_filter_prices(current_prices@, percentages@),
            stop_losses@ == spec_classify(open_orders@, eval@),
            outcomes@.len() == i,
            forall|j: int|
                0 <= j < i ==> (#[trigger] outcomes@[j]).pair == eval@[j].pair
                    && spec_pair_outcome(
                    buy_prices@,
                    stop_losses@,
                    percentages@,
                    eval@[j],
                    outcomes@[j].outcome,
                ),
        decreases n - i,
    {
        let cp = &eval[i];
        let outcome = match find_position(buy_prices, cp.pair.as_str()) {
            None => Err(EngineError::ExternalCallFailure(String::from_str(
                "not found current assets",
            ))),
            Some(k) => {
                let fo = &buy_prices[k];
                let basis: u64;
                let order_opt: Option<String>;
                match find_stop_loss(&stop_losses, cp.pair.as_str()) {
                    Some(j) => {
                        basis = stop_losses[j].price;
                        order_opt = Some(stop_losses[j].order.clone());
                    },
                    None => {
                        basis = fo.buy_price;
                        order_opt = None;
                    },
                }
                let benefit = calc_benefit(basis, cp.price);
                add_stop_loss(fo, cp, benefit.as_str(), order_opt, percentages)
            },
        };
        let entry = PairOutcome { pair: cp.pair.clone(), outcome };
        outcomes.push(entry);
        i = i + 1;
    }
    let summary = pass_summary(&eval);
    (outcomes, summary)
}

/// Across a whole pass: whatever the pass decided for a pair, an order it
/// asks for is priced at exactly 98 percent of that pair's current price.
pub proof fn lemma_pass_orders_priced_at_ninety_eight_percent(
    buy_prices: Seq<FutureOperation>,
    open_orders: Seq<(String, Order)>,
    current_prices: Seq<CurrentPrice>,
    percentages: Seq<Percentage>,
    outcomes: Seq<PairOutcome>,
    i: int,
)
    requires
        spec_brain_matches(buy_prices, open_orders, current_prices, percentages, outcomes),
        0 <= i < outcomes.len(),
    ensures
        match outcomes[i].outcome {
            Ok(a) => match a {
                StopLossAction::Keep => true,
                StopLossAction::Place { pair, price, volume, notify } => price == spec_stop_price(
                    spec_filter_prices(current_prices, percentages)[i].price as int,
                ),
                StopLossAction::Replace { cancel_order, pair, price, volume, notify } => price
                    == spec_stop_price(
                    spec_filter_prices(current_prices, percentages)[i].price as int,
                ),
            },
            Err(_) => true,
        },
{
    let eval = spec_filter_prices(current_prices, percentages);
    let stop_losses = spec_classify(open_orders, eval);
    let cp = eval[i];
    match spec_find_pair(buy_prices, cp.pair@) {
        None => {},
        Some(k) => {
            let fo = buy_prices[k];
            let basis = match spec_find_stop_loss(stop_losses, cp.pair@) {
                Some(j) => stop_losses[j].price,
                None => fo.buy_price,
            };
            let order_opt = match spec_find_stop_loss(stop_losses, cp.pair@) {
                Some(j) => Some(stop_losses[j].order),
                None => None,
            };
            let benefit = spec_format_price(
                spec_benefit_atoms(basis as int, cp.price as int) as nat,
            );
            lemma_orders_priced_at_ninety_eight_percent(
                fo,
                cp,
                benefit,
                order_opt,
                percentages,
                outcomes[i].outcome,
            );
        },
    }
}

/// One line per evaluated pair: its name and its current price.
pub open spec fn spec_price_lines(prices: Seq<CurrentPrice>) -> Seq<char>
    decreases prices.len(),
{
    if prices.len() == 0 {
        Seq::empty()
    } else {
        spec_price_lines(prices.drop_last()) + seq!['\n'] + prices.last().pair@ + seq![' ']
            + spec_format_price(prices.last().price as nat)
    }
}

/// The pass's report: a header and the evaluated pairs with their prices.
pub open spec fn spec_summary(prices: Seq<CurrentPrice>) -> Seq<char> {
    "Brain executed: "@ + spec_price_lines(prices)
}

fn pass_summary(prices: &Vec<CurrentPrice>) -> (r: String)
    ensures
        r@ == spec_summary(prices@),
{
    let mut acc = String::from_str("Brain executed: ");
    let n = prices.len();
    let mut i: usize = 0;
    proof {
        assert(prices@.take(0) =~= Seq::<CurrentPrice>::empty());
        assert(acc@ =~= spec_summary(prices@.take(0)));
    }
    while i < n
        invariant
            i <= n,
            n == prices@.len(),
            acc@ == spec_summary(prices@.take(i as int)),
        decreases n - i,
    {
        proof {
            assert(prices@.take(i + 1).drop_last() =~= prices@.take(i as int));
            assert(prices@.take(i + 1).last() == prices@[i as int]);
            reveal_strlit("\n");
            reveal_strlit(" ");
        }
        acc.append("\n");
        acc.append(prices[i].pair.as_str());
        acc.append(" ");
        let fp = format_price(prices[i].price as u128);
        acc.append(fp.as_str());
        proof {
            assert(acc@ =~= spec_summary(prices@.take(i + 1)));
        }
        i = i + 1;
    }
    proof {
        assert(prices@.take(n as int) =~= prices@);
    }
    acc
}

} // verus!
