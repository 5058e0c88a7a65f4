//! Typed access to the trading collaborator's responses.
//!
//! Every response is an envelope whose `result` field holds the payload; a
//! missing `result` is the distinguished `MissingField` error, and a payload
//! of the wrong shape is `BadParse`.  The dynamic values are opaque, but each
//! navigation step's outcome carries a name (see [`crate::json`]), so every
//! adapter here states, if and only if, when it succeeds, what its `Ok`
//! value holds, and which malformation yields which error.

use vstd::prelude::*;
use vstd::string::StringExecFns;
use vstd::string::StrSliceExecFns;
use crate::decimal::{spec_integer, parse_integer};
use crate::dtos::{Trade, Trades, Description, Order, OpenOrders, spec_unique_keys};
use crate::error::EngineError;
use crate::json::{
    json_get, json_as_string, json_is_null, json_array_items, json_object_entries,
    json_number_string, json_clone, spec_json_get, spec_json_string, spec_json_null,
    spec_json_array, spec_json_entries, spec_json_number_text,
};
use crate::text::str_eq;

verus! {

/// The payload of a response envelope; a missing `result` field is the
/// distinguished structural error.
pub fn extract_result(response: &serde_json::Value) -> (r: Result<serde_json::Value, EngineError>)
    ensures
        match r {
            Ok(v) => spec_json_get(*response, "result"@) == Some(v),
            Err(e) => e matches EngineError::MissingField(f) && f@ == "result"@ && spec_json_get(
                *response,
                "result"@,
            ) is None,
        },
{
    match json_get(response, "result") {
        Some(v) => Ok(v),
        None => Err(EngineError::MissingField(String::from_str("result"))),
    }
}

/// The text under a string field of a JSON object.
pub open spec fn spec_field_string(v: serde_json::Value, key: Seq<char>) -> Option<Seq<char>> {
    match spec_json_get(v, key) {
        Some(f) => spec_json_string(f),
        None => None,
    }
}

/// A string field of a JSON object.
pub(crate) fn string_field(v: &serde_json::Value, key: &str) -> (r: Result<String, EngineError>)
    ensures
        match r {
            Ok(s) => spec_field_string(*v, key@) == Some(s@),
            Err(e) => e is BadParse && spec_field_string(*v, key@) is None,
        },
{
    match json_get(v, key) {
        Some(f) => match json_as_string(&f) {
            Some(s) => Ok(s),
            None => Err(EngineError::BadParse),
        },
        None => Err(EngineError::BadParse),
    }
}

/// The digits of `s` before its first `.`: the whole seconds of a decimal
/// timestamp.
pub open spec fn spec_int_prefix(s: Seq<char>) -> Seq<char>
    decreases s.len(),
{
    if s.len() == 0 || s[0] == '.' {
        Seq::empty()
    } else {
        seq![s[0]] + spec_int_prefix(s.drop_first())
    }
}

proof fn lemma_int_prefix(s: Seq<char>, idx: int)
    requires
        0 <= idx <= s.len(),
        forall|j: int| 0 <= j < idx ==> s[j] != '.',
        idx == s.len() || s[idx] == '.',
    ensures
        spec_int_prefix(s) == s.subrange(0, idx),
    decreases s.len(),
{
    if s.len() == 0 {
        assert(s.subrange(0, idx) =~= Seq::empty());
    } else if idx == 0 {
        assert(s.subrange(0, 0) =~= Seq::<char>::empty());
    } else {
        let t = s.drop_first();
        assert(forall|j: int| 0 <= j < idx - 1 ==> t[j] != '.');
        assert(idx - 1 == t.len() || t[idx - 1] == '.');
        lemma_int_prefix(t, idx - 1);
        assert(spec_int_prefix(s) == seq![s[0]] + t.subrange(0, idx - 1));
        assert(seq![s[0]] + t.subrange(0, idx - 1) =~= s.subrange(0, idx));
    }
}

/// The whole seconds of a decimal timestamp text, truncated toward zero;
/// `None` when the text does not start with digits or the value does not fit.
pub open spec fn spec_seconds(s: Seq<char>) -> Option<i64> {
    match spec_integer(spec_int_prefix(s)) {
        Some(v) => if v <= i64::MAX {
            Some(v as i64)
        } else {
            None
        },
        None => None,
    }
}

/// Truncates a decimal timestamp text to whole seconds.
pub fn parse_seconds(s: &str) -> (r: Option<i64>)
    ensures
        r == spec_seconds(s@),
{
    let n = s.unicode_len();
    let mut idx: usize = 0;
    while idx < n && s.get_char(idx) != '.'
        invariant
            idx <= n,
            n == s@.len(),
            forall|j: int| 0 <= j < idx ==> s@[j] != '.',
        decreases n - idx,
    {
        idx = idx + 1;
    }
    proof {
        lemma_int_prefix(s@, idx as int);
    }
    let prefix = s.substring_char(0, idx);
    match parse_integer(prefix) {
        Some(v) => {
            if v <= i64::MAX as u64 {
                Some(v as i64)
            } else {
                None
            }
        },
        None => None,
    }
}

/// The whole seconds under a numeric field of a JSON object.
pub open spec fn spec_field_seconds(v: serde_json::Value, key: Seq<char>) -> Option<i64> {
    match spec_json_get(v, key) {
        Some(f) => match spec_json_number_text(f) {
            Some(t) => spec_seconds(t),
            None => None,
        },
        None => None,
    }
}

/// A numeric field of a JSON object, truncated to whole seconds.
fn seconds_field(v: &serde_json::Value, key: &str) -> (r: Result<i64, EngineError>)
    ensures
        match r {
            Ok(t) => spec_field_seconds(*v, key@) == Some(t),
            Err(e) => e is BadParse && spec_field_seconds(*v, key@) is None,
        },
{
    let f = match json_get(v, key) {
        Some(f) => f,
        None => {
            return Err(EngineError::BadParse);
        },
    };
    let text = match json_number_string(&f) {
        Some(t) => t,
        None => {
            return Err(EngineError::BadParse);
        },
    };
    match parse_seconds(text.as_str()) {
        Some(t) => Ok(t),
        None => Err(EngineError::BadParse),
    }
}

/// The whole number under a numeric field of a JSON object, when it fits
/// thirty-two bits.
pub open spec fn spec_field_u32(v: serde_json::Value, key: Seq<char>) -> Option<u32> {
    match spec_json_get(v, key) {
        Some(f) => match spec_json_number_text(f) {
            Some(t) => match spec_integer(t) {
                Some(n) => if n <= u32::MAX {
                    Some(n as u32)
                } else {
                    None
                },
                None => None,
            },
            None => None,
        },
        None => None,
    }
}

/// A numeric field of a JSON object that must be a whole number fitting
/// thirty-two bits.
fn u32_field(v: &serde_json::Value, key: &str) -> (r: Result<u32, EngineError>)
    ensures
        match r {
            Ok(n) => spec_field_u32(*v, key@) == Some(n),
            Err(e) => e is BadParse && spec_field_u32(*v, key@) is None,
        },
{
    let f = match json_get(v, key) {
        Some(f) => f,
        None => {
            return Err(EngineError::BadParse);
        },
    };
    let text = match json_number_string(&f) {
        Some(t) => t,
        None => {
            return Err(EngineError::BadParse);
        },
    };
    match parse_integer(text.as_str()) {
        Some(n) => {
            if n <= u32::MAX as u64 {
                Ok(n as u32)
            } else {
                Err(EngineError::BadParse)
            }
        },
        None => Err(EngineError::BadParse),
    }
}

/// `t` is exactly what the trade object `v` holds.
pub open spec fn spec_trade_matches(v: serde_json::Value, t: Trade) -> bool {
    &&& spec_field_string(v, "cost"@) == Some(t.cost@)
    &&& spec_field_string(v, "fee"@) == Some(t.fee@)
    &&& spec_field_string(v, "margin"@) == Some(t.margin@)
    &&& spec_field_string(v, "misc"@) == Some(t.misc@)
    &&& spec_field_string(v, "ordertxid"@) == Some(t.ordertxid@)
    &&& spec_field_string(v, "ordertype"@) == Some(t.ordertype@)
    &&& spec_field_string(v, "pair"@) == Some(t.pair@)
    &&& spec_field_string(v, "postxid"@) == Some(t.postxid@)
    &&& spec_field_string(v, "price"@) == Some(t.price@)
    &&& spec_field_seconds(v, "time"@) == Some(t.time)
    &&& spec_field_string(v, "type"@) == Some(t.trade_type@)
    &&& spec_field_string(v, "vol"@) == Some(t.vol@)
}

/// The trade object `v` carries every field a trade record needs.
pub open spec fn spec_trade_ok(v: serde_json::Value) -> bool {
    &&& spec_field_string(v, "cost"@) is Some
    &&& spec_field_string(v, "fee"@) is Some
    &&& spec_field_string(v, "margin"@) is Some
    &&& spec_field_string(v, "misc"@) is Some
    &&& spec_field_string(v, "ordertxid"@) is Some
    &&& spec_field_string(v, "ordertype"@) is Some
    &&& spec_field_string(v, "pair"@) is Some
    &&& spec_field_string(v, "postxid"@) is Some
    &&& spec_field_string(v, "price"@) is Some
    &&& spec_field_seconds(v, "time"@) is Some
    &&& spec_field_string(v, "type"@) is Some
    &&& spec_field_string(v, "vol"@) is Some
}

/// One trade record out of its JSON object.
fn trade_from_value(v: &serde_json::Value) -> (r: Result<Trade, EngineError>)
    ensures
        match r {
            Ok(t) => spec_trade_matches(*v, t),
            Err(e) => e is BadParse && !spec_trade_ok(*v),
        },
{
    let cost = string_field(v, "cost")?;
    let fee = string_field(v, "fee")?;
    let margin = string_field(v, "margin")?;
    let misc = string_field(v, "misc")?;
    let ordertxid = string_field(v, "ordertxid")?;
    let ordertype = string_field(v, "ordertype")?;
    let pair = string_field(v, "pair")?;
    let postxid = string_field(v, "postxid")?;
    let price = string_field(v, "price")?;
    let time = seconds_field(v, "time")?;
    let trade_type = string_field(v, "type")?;
    let vol = string_field(v, "vol")?;
    Ok(
        Trade {
            cost,
            fee,
            margin,
            misc,
            ordertxid,
            ordertype,
            pair,
            postxid,
            price,
            time,
            trade_type,
            vol,
        },
    )
}

/// Everything `trades_from_response` promises: `Ok` holds the count and,
/// entry for entry, the trade records of the envelope's `trades` object;
/// a missing `result` is `MissingField("result")`; any other malformation is
/// `BadParse`.
pub open spec fn spec_trades_result(
    response: serde_json::Value,
    r: Result<Trades, EngineError>,
) -> bool {
    match spec_json_get(response, "result"@) {
        None => r matches Err(EngineError::MissingField(f)) && f@ == "result"@,
        Some(result) => match (spec_field_u32(result, "count"@), spec_json_get(result, "trades"@)) {
            (Some(count), Some(tv)) => match spec_json_entries(tv) {
                Some(es) => if forall|i: int| 0 <= i < es.len() ==> spec_trade_ok(#[trigger] es[i].1) {
                    r matches Ok(trades) && trades.count == count && trades.trades@.len()
                        == es.len() && forall|i: int|
                        0 <= i < es.len() ==> (#[trigger] trades.trades@[i]).0@ == es[i].0
                            && spec_trade_matches(es[i].1, trades.trades@[i].1)
                } else {
                    r matches Err(e) && e is BadParse
                },
                None => r matches Err(e) && e is BadParse,
            },
            _ => r matches Err(e) && e is BadParse,
        },
    }
}

/// The trade history out of a response envelope.
#[verifier::loop_isolation(false)]
pub fn trades_from_response(response: &serde_json::Value) -> (r: Result<Trades, EngineError>)
    ensures
        spec_trades_result(*response, r),
        r matches Ok(t) ==> t.wf(),
{
    let result = extract_result(response)?;
    let count = u32_field(&result, "count")?;
    let trades_v = match json_get(&result, "trades") {
        Some(t) => t,
        None => {
            return Err(EngineError::BadParse);
        },
    };
    let entries = match json_object_entries(&trades_v) {
        Some(es) => es,
        None => {
            return Err(EngineError::BadParse);
        },
    };
    let ghost ss = choose|ss: Seq<(Seq<char>, serde_json::Value)>|
        spec_json_entries(trades_v) == Some(ss);
    let mut trades: Vec<(String, Trade)> = Vec::new();
    let mut i: usize = 0;
    while i < entries.len()
        invariant
            trades@.len() == i <= entries@.len(),
            forall|j: int|
                0 <= j < i ==> (#[trigger] trades@[j]).0@ == entries@[j].0@ && spec_trade_matches(
                    entries@[j].1,
                    trades@[j].1,
                ),
        decreases entries@.len() - i,
    {
        let t = match trade_from_value(&entries[i].1) {
            Ok(t) => t,
            Err(e) => {
                proof {
                    assert(ss[i as int].1 == entries@[i as int].1);
                    assert(!spec_trade_ok(ss[i as int].1));
                }
                return Err(e);
            },
        };
        trades.push((entries[i].0.clone(), t));
        i = i + 1;
    }
    proof {
        assert forall|k: int| 0 <= k < ss.len() implies spec_trade_ok(#[trigger] ss[k].1) by {
            assert(ss[k].1 == entries@[k].1);
            assert(spec_trade_matches(entries@[k].1, trades@[k].1));
        }
        assert forall|k: int|
            0 <= k < ss.len() implies (#[trigger] trades@[k]).0@ == ss[k].0 && spec_trade_matches(
            ss[k].1,
            trades@[k].1,
        ) by {
            assert(ss[k].0 == entries@[k].0@ && ss[k].1 == entries@[k].1);
        }
    }
    Ok(Trades { count, trades })
}

/// Everything `balance_from_response` promises: `Ok` holds, entry for entry,
/// the asset-to-amount strings of the `result` object; a missing `result` is
/// `MissingField("result")`; anything else malformed is `BadParse`.
pub open spec fn spec_balances_result(
    response: serde_json::Value,
    r: Result<Vec<(String, String)>, EngineError>,
) -> bool {
    match spec_json_get(response, "result"@) {
        None => r matches Err(EngineError::MissingField(f)) && f@ == "result"@,
        Some(result) => match spec_json_entries(result) {
            Some(es) => if forall|i: int|
                0 <= i < es.len() ==> spec_json_string(#[trigger] es[i].1) is Some {
                r matches Ok(bal) && bal@.len() == es.len() && forall|i: int|
                    0 <= i < es.len() ==> (#[trigger] bal@[i]).0@ == es[i].0 && Some(bal@[i].1@)
                        == spec_json_string(es[i].1)
            } else {
                r matches Err(e) && e is BadParse
            },
            None => r matches Err(e) && e is BadParse,
        },
    }
}

/// The per-asset balances out of a response envelope.
#[verifier::loop_isolation(false)]
pub fn balance_from_response(response: &serde_json::Value) -> (r: Result<
    Vec<(String, String)>,
    EngineError,
>)
    ensures
        spec_balances_result(*response, r),
        r matches Ok(bal) ==> spec_unique_keys(bal@),
{
    let result = extract_result(response)?;
    let entries = match json_object_entries(&result) {
        Some(es) => es,
        None => {
            return Err(EngineError::BadParse);
        },
    };
    let ghost ss = choose|ss: Seq<(Seq<char>, serde_json::Value)>|
        spec_json_entries(result) == Some(ss);
    let mut balances: Vec<(String, String)> = Vec::new();
    let mut i: usize = 0;
    while i < entries.len()
        invariant
            balances@.len() == i <= entries@.len(),
            forall|j: int|
                0 <= j < i ==> (#[trigger] balances@[j]).0@ == entries@[j].0@ && Some(
                    balances@[j].1@,
                ) == spec_json_string(entries@[j].1),
        decreases entries@.len() - i,
    {
        match json_as_string(&entries[i].1) {
            Some(amount) => {
                balances.push((entries[i].0.clone(), amount));
            },
            None => {
                proof {
                    assert(ss[i as int].1 == entries@[i as int].1);
                    assert(spec_json_string(ss[i as int].1) is None);
                }
                return Err(EngineError::BadParse);
            },
        }
        i = i + 1;
    }
    proof {
        assert(ss.len() == entries@.len());
        assert forall|k: int|
            0 <= k < ss.len() implies (#[trigger] balances@[k]).0@ == ss[k].0 && Some(
            balances@[k].1@,
        ) == spec_json_string(ss[k].1) by {
            assert(ss[k].0 == entries@[k].0@ && ss[k].1 == entries@[k].1);
            assert(Some(balances@[k].1@) == spec_json_string(entries@[k].1));
        }
        assert forall|k: int|
            0 <= k < ss.len() implies spec_json_string(#[trigger] ss[k].1) is Some by {
            assert(ss[k].1 == entries@[k].1);
            assert(Some(balances@[k].1@) == spec_json_string(entries@[k].1));
        }
        assert forall|a: int, b: int|
            0 <= a < b < balances@.len() implies (#[trigger] balances@[a]).0@ != (
        #[trigger] balances@[b]).0@ by {
            assert(balances@[a].0@ == entries@[a].0@ && balances@[b].0@ == entries@[b].0@);
            assert(entries@[a].0@ != entries@[b].0@);
        }
    }
    Ok(balances)
}

/// `d` is exactly what the order-description object `v` holds.
pub open spec fn spec_description_matches(v: serde_json::Value, d: Description) -> bool {
    &&& spec_field_string(v, "close"@) == Some(d.close@)
    &&& spec_field_string(v, "leverage"@) == Some(d.leverage@)
    &&& spec_field_string(v, "order"@) == Some(d.order@)
    &&& spec_field_string(v, "ordertype"@) == Some(d.order_type@)
    &&& spec_field_string(v, "pair"@) == Some(d.pair@)
    &&& spec_field_string(v, "price"@) == Some(d.price@)
    &&& spec_field_string(v, "price2"@) == Some(d.price2@)
    &&& spec_field_string(v, "type"@) == Some(d.operation_type@)
}

/// The description object `v` carries every field.
pub open spec fn spec_description_ok(v: serde_json::Value) -> bool {
    &&& spec_field_string(v, "close"@) is Some
    &&& spec_field_string(v, "leverage"@) is Some
    &&& spec_field_string(v, "order"@) is Some
    &&& spec_field_string(v, "ordertype"@) is Some
    &&& spec_field_string(v, "pair"@) is Some
    &&& spec_field_string(v, "price"@) is Some
    &&& spec_field_string(v, "price2"@) is Some
    &&& spec_field_string(v, "type"@) is Some
}

/// The descriptive half of an order out of its JSON object.
fn description_from_value(v: &serde_json::Value) -> (r: Result<Description, EngineError>)
    ensures
        match r {
            Ok(d) => spec_description_matches(*v, d),
            Err(e) => e is BadParse && !spec_description_ok(*v),
        },
{
    let close = string_field(v, "close")?;
    let leverage = string_field(v, "leverage")?;
    let order = string_field(v, "order")?;
    let order_type = string_field(v, "ordertype")?;
    let pair = string_field(v, "pair")?;
    let price = string_field(v, "price")?;
    let price2 = string_field(v, "price2")?;
    let operation_type = string_field(v, "type")?;
    Ok(Description { close, leverage, order, order_type, pair, price, price2, operation_type })
}

/// The optional `refid` of an order: absent or null means none; a string
/// means that reference; anything else is malformed (the outer `None`).
pub open spec fn spec_refid_of(v: serde_json::Value) -> Option<Option<Seq<char>>> {
    match spec_json_get(v, "refid"@) {
        None => Some(None),
        Some(f) => if spec_json_null(f) {
            Some(None)
        } else {
            match spec_json_string(f) {
                Some(t) => Some(Some(t)),
                None => None,
            }
        },
    }
}

/// The view of an optional string.
pub open spec fn spec_opt_text(o: Option<String>) -> Option<Seq<char>> {
    match o {
        Some(s) => Some(s@),
        None => None,
    }
}

/// `o` is exactly what the order object `v` holds.
pub open spec fn spec_order_matches(v: serde_json::Value, o: Order) -> bool {
    &&& match spec_json_get(v, "descr"@) {
        Some(dv) => spec_description_matches(dv, o.description),
        None => false,
    }
    &&& spec_field_string(v, "cost"@) == Some(o.cost@)
    &&& spec_field_seconds(v, "expiretm"@) == Some(o.expiretm)
    &&& spec_field_string(v, "fee"@) == Some(o.fee@)
    &&& spec_field_string(v, "limitprice"@) == Some(o.limit_price@)
    &&& spec_field_string(v, "misc"@) == Some(o.misc@)
    &&& spec_field_string(v, "oflags"@) == Some(o.oflags@)
    &&& spec_field_seconds(v, "opentm"@) == Some(o.opentm)
    &&& spec_field_string(v, "price"@) == Some(o.price@)
    &&& spec_refid_of(v) == Some(spec_opt_text(o.refid))
    &&& spec_field_string(v, "status"@) == Some(o.status@)
    &&& spec_field_string(v, "stopprice"@) == Some(o.stop_price@)
    &&& spec_field_u32(v, "userref"@) == Some(o.userref)
    &&& spec_field_string(v, "vol"@) == Some(o.vol@)
    &&& spec_field_string(v, "vol_exec"@) == Some(o.vol_exec@)
}

/// The order object `v` carries every field.
pub open spec fn spec_order_ok(v: serde_json::Value) -> bool {
    &&& match spec_json_get(v, "descr"@) {
        Some(dv) => spec_description_ok(dv),
        None => false,
    }
    &&& spec_field_string(v, "cost"@) is Some
    &&& spec_field_seconds(v, "expiretm"@) is Some
    &&& spec_field_string(v, "fee"@) is Some
    &&& spec_field_string(v, "limitprice"@) is Some
    &&& spec_field_string(v, "misc"@) is Some
    &&& spec_field_string(v, "oflags"@) is Some
    &&& spec_field_seconds(v, "opentm"@) is Some
    &&& spec_field_string(v, "price"@) is Some
    &&& spec_refid_of(v) is Some
    &&& spec_field_string(v, "status"@) is Some
    &&& spec_field_string(v, "stopprice"@) is Some
    &&& spec_field_u32(v, "userref"@) is Some
    &&& spec_field_string(v, "vol"@) is Some
    &&& spec_field_string(v, "vol_exec"@) is Some
}

/// One open order out of its JSON object.
fn order_from_value(v: &serde_json::Value) -> (r: Result<Order, EngineError>)
    ensures
        match r {
            Ok(o) => spec_order_matches(*v, o),
            Err(e) => e is BadParse && !spec_order_ok(*v),
        },
{
    let descr_v = match json_get(v, "descr") {
        Some(d) => d,
        None => {
            return Err(EngineError::BadParse);
        },
    };
    let description = description_from_value(&descr_v)?;
    let cost = string_field(v, "cost")?;
    let expiretm = seconds_field(v, "expiretm")?;
    let fee = string_field(v, "fee")?;
    let limit_price = string_field(v, "limitprice")?;
    let misc = string_field(v, "misc")?;
    let oflags = string_field(v, "oflags")?;
    let opentm = seconds_field(v, "opentm")?;
    let price = string_field(v, "price")?;
    let refid: Option<String> = match json_get(v, "refid") {
        None => None,
        Some(f) => {
            if json_is_null(&f) {
                None
            } else {
                match json_as_string(&f) {
                    Some(s) => Some(s),
                    None => {
                        return Err(EngineError::BadParse);
                    },
                }
            }
        },
    };
    let status = string_field(v, "status")?;
    let stop_price = string_field(v, "stopprice")?;
    let userref = u32_field(v, "userref")?;
    let vol = string_field(v, "vol")?;
    let vol_exec = string_field(v, "vol_exec")?;
    Ok(
        Order {
            cost,
            description,
            expiretm,
            fee,
            limit_price,
            misc,
            oflags,
            opentm,
            price,
            refid,
            status,
            stop_price,
            userref,
            vol,
            vol_exec,
        },
    )
}

/// Everything `orders_from_response` promises: `Ok` holds, entry for entry,
/// the orders of the envelope's `open` object; a missing `result` is
/// `MissingField("result")`; anything else malformed is `BadParse`.
pub open spec fn spec_orders_result(
    response: serde_json::Value,
    r: Result<OpenOrders, EngineError>,
) -> bool {
    match spec_json_get(response, "result"@) {
        None => r matches Err(EngineError::MissingField(f)) && f@ == "result"@,
        Some(result) => match spec_json_get(result, "open"@) {
            Some(ov) => match spec_json_entries(ov) {
                Some(es) => if forall|i: int| 0 <= i < es.len() ==> spec_order_ok(
                    #[trigger] es[i].1,
                ) {
                    r matches Ok(orders) && orders.open@.len() == es.len() && forall|i: int|
                        0 <= i < es.len() ==> (#[trigger] orders.open@[i]).0@ == es[i].0
                            && spec_order_matches(es[i].1, orders.open@[i].1)
                } else {
                    r matches Err(e) && e is BadParse
                },
                None => r matches Err(e) && e is BadParse,
            },
            None => r matches Err(e) && e is BadParse,
        },
    }
}

/// The open orders out of a response envelope.
#[verifier::loop_isolation(false)]
pub fn orders_from_response(response: &serde_json::Value) -> (r: Result<OpenOrders, EngineError>)
    ensures
        spec_orders_result(*response, r),
        r matches Ok(orders) ==> orders.wf(),
{
    let result = extract_result(response)?;
    let open_v = match json_get(&result, "open") {
        Some(o) => o,
        None => {
            return Err(EngineError::BadParse);
        },
    };
    let entries = match json_object_entries(&open_v) {
        Some(es) => es,
        None => {
            return Err(EngineError::BadParse);
        },
    };
    let ghost ss = choose|ss: Seq<(Seq<char>, serde_json::Value)>|
        spec_json_entries(open_v) == Some(ss);
    let mut open: Vec<(String, Order)> = Vec::new();
    let mut i: usize = 0;
    while i < entries.len()
        invariant
            open@.len() == i <= entries@.len(),
            forall|j: int|
                0 <= j < i ==> (#[trigger] open@[j]).0@ == entries@[j].0@ && spec_order_matches(
                    entries@[j].1,
                    open@[j].1,
                ),
        decreases entries@.len() - i,
    {
        let o = match order_from_value(&entries[i].1) {
            Ok(o) => o,
            Err(e) => {
                proof {
                    assert(ss[i as int].1 == entries@[i as int].1);
                    assert(!spec_order_ok(ss[i as int].1));
                }
                return Err(e);
            },
        };
        open.push((entries[i].0.clone(), o));
        i = i + 1;
    }
    proof {
        assert forall|k: int| 0 <= k < ss.len() implies spec_order_ok(#[trigger] ss[k].1) by {
            assert(ss[k].1 == entries@[k].1);
            assert(spec_order_matches(entries@[k].1, open@[k].1));
        }
        assert forall|k: int|
            0 <= k < ss.len() implies (#[trigger] open@[k]).0@ == ss[k].0 && spec_order_matches(
            ss[k].1,
            open@[k].1,
        ) by {
            assert(ss[k].0 == entries@[k].0@ && ss[k].1 == entries@[k].1);
        }
    }
    Ok(OpenOrders { open })
}

/// First entry under the key, among an object's entries.
pub open spec fn spec_entry_find(
    es: Seq<(Seq<char>, serde_json::Value)>,
    key: Seq<char>,
) -> Option<serde_json::Value>
    decreases es.len(),
{
    if es.len() == 0 {
        None
    } else if es[0].0 == key {
        Some(es[0].1)
    } else {
        spec_entry_find(es.drop_first(), key)
    }
}

proof fn lemma_entry_find_at(es: Seq<(Seq<char>, serde_json::Value)>, key: Seq<char>, j: int)
    requires
        0 <= j < es.len(),
        es[j].0 == key,
        forall|k: int| 0 <= k < j ==> es[k].0 != key,
    ensures
        spec_entry_find(es, key) == Some(es[j].1),
    decreases es.len(),
{
    if j > 0 {
        let t = es.drop_first();
        assert(t[j - 1].0 == key);
        assert(forall|k: int| 0 <= k < j - 1 ==> t[k].0 != key);
        lemma_entry_find_at(t, key, j - 1);
    }
}

proof fn lemma_entry_find_none(es: Seq<(Seq<char>, serde_json::Value)>, key: Seq<char>)
    requires
        forall|k: int| 0 <= k < es.len() ==> es[k].0 != key,
    ensures
        spec_entry_find(es, key) is None,
    decreases es.len(),
{
    if es.len() > 0 {
        lemma_entry_find_none(es.drop_first(), key);
    }
}

/// First entry whose key is `key`, with nothing before it matching.
fn find_entry(entries: &Vec<(String, serde_json::Value)>, key: &str) -> (r: Option<usize>)
    ensures
        match r {
            Some(j) => j < entries@.len() && entries@[j as int].0@ == key@ && forall|k: int|
                0 <= k < j ==> entries@[k].0@ != key@,
            None => forall|k: int| 0 <= k < entries@.len() ==> entries@[k].0@ != key@,
        },
{
    let n = entries.len();
    let mut i: usize = 0;
    while i < n
        invariant
            i <= n,
            n == entries@.len(),
            forall|k: int| 0 <= k < i ==> entries@[k].0@ != key@,
        decreases n - i,
    {
        if str_eq(entries[i].0.as_str(), key) {
            return Some(i);
        }
        i = i + 1;
    }
    None
}

/// Everything `price_from_ohlc` promises, mirroring the navigation step by
/// step: a missing envelope field or row index is the matching
/// `MissingField`, a value of the wrong shape is `BadParse`, and `Ok` is the
/// string in the fifth cell of the pair's last row, unmodified.
pub open spec fn spec_ohlc_result(
    response: serde_json::Value,
    pair: Seq<char>,
    r: Result<String, EngineError>,
) -> bool {
    match spec_json_get(response, "result"@) {
        None => r matches Err(EngineError::MissingField(f)) && f@ == "result"@,
        Some(result) => match spec_json_entries(result) {
            None => r matches Err(e) && e is BadParse,
            Some(es) => match spec_entry_find(es, pair) {
                None => r matches Err(EngineError::MissingField(f)) && f@ == pair,
                Some(rows_v) => match spec_json_array(rows_v) {
                    None => r matches Err(e) && e is BadParse,
                    Some(rows) => if rows.len() == 0 {
                        r matches Err(EngineError::MissingField(f)) && f@ == "last array"@
                    } else {
                        match spec_json_array(rows.last()) {
                            None => r matches Err(EngineError::MissingField(f)) && f@ == "4"@,
                            Some(cells) => if cells.len() <= 4 {
                                r matches Err(EngineError::MissingField(f)) && f@ == "4"@
                            } else {
                                match spec_json_string(cells[4]) {
                                    Some(close) => r matches Ok(s) && s@ == close,
                                    None => r matches Err(e) && e is BadParse,
                                }
                            },
                        }
                    },
                },
            },
        },
    }
}

/// The closing price of the pair's last OHLC row, out of a response
/// envelope.
#[verifier::loop_isolation(false)]
pub fn price_from_ohlc(response: &serde_json::Value, pair: &str) -> (r: Result<String, EngineError>)
    ensures
        spec_ohlc_result(*response, pair@, r),
{
    let result = extract_result(response)?;
    let entries = match json_object_entries(&result) {
        Some(es) => es,
        None => {
            return Err(EngineError::BadParse);
        },
    };
    let ghost ss = choose|ss: Seq<(Seq<char>, serde_json::Value)>|
        spec_json_entries(result) == Some(ss);
    let ohlcs_pair = match find_entry(&entries, pair) {
        Some(j) => {
            proof {
                assert(ss[j as int].0 == entries@[j as int].0@);
                assert forall|k: int| 0 <= k < j implies ss[k].0 != pair@ by {
                    assert(ss[k].0 == entries@[k].0@);
                }
                lemma_entry_find_at(ss, pair@, j as int);
                assert(ss[j as int].1 == entries@[j as int].1);
            }
            json_clone(&entries[j].1)
        },
        None => {
            proof {
                assert forall|k: int| 0 <= k < ss.len() implies ss[k].0 != pair@ by {
                    assert(ss[k].0 == entries@[k].0@);
                }
                lemma_entry_find_none(ss, pair@);
            }
            return Err(EngineError::MissingField(String::from_str(pair)));
        },
    };
    let rows = match json_array_items(&ohlcs_pair) {
        Some(rs) => rs,
        None => {
            return Err(EngineError::BadParse);
        },
    };
    if rows.len() == 0 {
        return Err(EngineError::MissingField(String::from_str("last array")));
    }
    let last_row = &rows[rows.len() - 1];
    proof {
        assert(rows@.last() == rows@[rows@.len() - 1]);
    }
    let cells = match json_array_items(last_row) {
        Some(cs) => cs,
        None => {
            return Err(EngineError::MissingField(String::from_str("4")));
        },
    };
    if cells.len() <= 4 {
        return Err(EngineError::MissingField(String::from_str("4")));
    }
    match json_as_string(&cells[4]) {
        Some(close) => Ok(close),
        None => Err(EngineError::BadParse),
    }
}

} // verus!
