//! Per-pair stop-loss configuration.
//!
//! The threshold store holds one key, `"percentages"`, whose value is a JSON
//! array of `{pair, new_stop_loss, next_stop_loss}` entries, each threshold a
//! decimal-string percentage.  It is read once at engine construction;
//! failing to parse it is fatal to startup.

use vstd::prelude::*;
use crate::error::EngineError;
use crate::json::{json_parse, json_array_items, spec_json_parse, spec_json_array};
use crate::market::{string_field, spec_field_string};

verus! {

/// The two thresholds configured for a pair, decimal-string percentages:
/// the gain that makes a first protective order worth placing, and the gain
/// past an existing trigger that makes tightening worth while.
#[derive(Debug, Clone)]
pub struct Percentage {
    pub pair: String,
    pub new_stop_loss: String,
    pub next_stop_loss: String,
}

/// `p` is exactly what the configuration entry `v` holds.
pub open spec fn spec_percentage_matches(v: serde_json::Value, p: Percentage) -> bool {
    &&& spec_field_string(v, "pair"@) == Some(p.pair@)
    &&& spec_field_string(v, "new_stop_loss"@) == Some(p.new_stop_loss@)
    &&& spec_field_string(v, "next_stop_loss"@) == Some(p.next_stop_loss@)
}

/// The entry `v` carries every field a threshold needs.
pub open spec fn spec_percentage_ok(v: serde_json::Value) -> bool {
    &&& spec_field_string(v, "pair"@) is Some
    &&& spec_field_string(v, "new_stop_loss"@) is Some
    &&& spec_field_string(v, "next_stop_loss"@) is Some
}

/// Everything `parse_percentages` promises: `Ok` holds, entry for entry, the
/// thresholds of the document's array; text that is no JSON, no array, or an
/// array with a malformed entry is `BadParse`.
pub open spec fn spec_percentages_result(
    text: Seq<char>,
    r: Result<Vec<Percentage>, EngineError>,
) -> bool {
    match spec_json_parse(text) {
        None => r matches Err(e) && e is BadParse,
        Some(doc) => match spec_json_array(doc) {
            None => r matches Err(e) && e is BadParse,
            Some(items) => if forall|i: int|
                0 <= i < items.len() ==> spec_percentage_ok(#[trigger] items[i]) {
                r matches Ok(ps) && ps@.len() == items.len() && forall|i: int|
                    0 <= i < items.len() ==> spec_percentage_matches(
                        items[i],
                        #[trigger] ps@[i],
                    )
            } else {
                r matches Err(e) && e is BadParse
            },
        },
    }
}

/// One threshold entry out of its JSON object.
fn percentage_from_value(v: &serde_json::Value) -> (r: Result<Percentage, EngineError>)
    ensures
        match r {
            Ok(p) => spec_percentage_matches(*v, p),
            Err(e) => e is BadParse && !spec_percentage_ok(*v),
        },
{
    let pair = string_field(v, "pair")?;
    let new_stop_loss = string_field(v, "new_stop_loss")?;
    let next_stop_loss = string_field(v, "next_stop_loss")?;
    Ok(Percentage { pair, new_stop_loss, next_stop_loss })
}

/// Parses the threshold store's `"percentages"` document: a JSON array of
/// per-pair threshold entries.
#[verifier::loop_isolation(false)]
pub fn parse_percentages(text: &str) -> (r: Result<Vec<Percentage>, EngineError>)
    ensures
        spec_percentages_result(text@, r),
{
    let doc = match json_parse(text) {
        Ok(v) => v,
        Err(_) => {
            return Err(EngineError::BadParse);
        },
    };
    let items = match json_array_items(&doc) {
        Some(items) => items,
        None => {
            return Err(EngineError::BadParse);
        },
    };
    let mut percentages: Vec<Percentage> = Vec::new();
    let mut i: usize = 0;
    while i < items.len()
        invariant
            percentages@.len() == i <= items@.len(),
            forall|j: int|
                0 <= j < i ==> spec_percentage_matches(items@[j], #[trigger] percentages@[j]),
        decreases items@.len() - i,
    {
        let p = match percentage_from_value(&items[i]) {
            Ok(p) => p,
            Err(e) => {
                proof {
                    assert(!spec_percentage_ok(items@[i as int]));
                    match spec_json_array(doc) {
                        Some(its) => {
                            assert(its == items@);
                            assert(!(forall|k: int|
                                0 <= k < its.len() ==> spec_percentage_ok(#[trigger] its[k])));
                        },
                        None => {
                            assert(false);
                        },
                    }
                }
                return Err(e);
            },
        };
        percentages.push(p);
        i = i + 1;
    }
    proof {
        assert forall|k: int|
            0 <= k < items@.len() implies spec_percentage_ok(#[trigger] items@[k]) by {
            assert(spec_percentage_matches(items@[k], percentages@[k]));
        }
    }
    Ok(percentages)
}

} // verus!
