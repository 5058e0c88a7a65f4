//! The position aggregator.
//!
//! Folds the trade history and the current balances into one bought position
//! per pair.  A record is kept when it is a buy and the base asset's balance
//! is present and above the dust threshold; among records of one pair the one
//! with the later-or-equal timestamp wins, so an exact tie favors the record
//! folded later.  The position's quantity is the asset's current balance.

use vstd::prelude::*;
use vstd::pervasive::arbitrary;
use crate::dtos::{Trade, FutureOperation};
use crate::decimal::{spec_price, parse_price};
use crate::error::EngineError;
use crate::text::str_eq;
use vstd::string::StringExecFns;
use vstd::string::StrSliceExecFns;

verus! {

/// Balances at or below this many atoms (`0.00001` units) are dust: the
/// position is not worth protecting.
pub const DUST_ATOMS: u64 = 1000;

/// The base asset of a pair: the pair without its `"EUR"` quote suffix.
pub open spec fn spec_base_asset(pair: Seq<char>) -> Seq<char> {
    if pair.len() >= 3 && pair[pair.len() - 3] == 'E' && pair[pair.len() - 2] == 'U'
        && pair[pair.len() - 1] == 'R' {
        pair.subrange(0, pair.len() - 3)
    } else {
        pair
    }
}

pub fn base_asset(pair: &str) -> (r: String)
    ensures
        r@ == spec_base_asset(pair@),
{
    let n = pair.unicode_len();
    if n >= 3 && pair.get_char(n - 3) == 'E' && pair.get_char(n - 2) == 'U' && pair.get_char(
        n - 1,
    ) == 'R' {
        let base = pair.substring_char(0, n - 3);
        String::from_str(base)
    } else {
        String::from_str(pair)
    }
}

/// First balance entry under `key`.
pub open spec fn spec_lookup(balances: Seq<(String, String)>, key: Seq<char>) -> Option<String>
    decreases balances.len(),
{
    if balances.len() == 0 {
        None
    } else if balances[0].0@ == key {
        Some(balances[0].1)
    } else {
        spec_lookup(balances.drop_first(), key)
    }
}

fn lookup_balance(balances: &Vec<(String, String)>, key: &str) -> (r: Option<String>)
    ensures
        r == spec_lookup(balances@, key@),
{
    let n = balances.len();
    let mut i: usize = 0;
    proof {
        assert(balances@.skip(0) =~= balances@);
    }
    while i < n
        invariant
            i <= n,
            n == balances@.len(),
            spec_lookup(balances@, key@) == spec_lookup(balances@.skip(i as int), key@),
        decreases n - i,
    {
        proof {
            assert(balances@.skip(i as int)[0] == balances@[i as int]);
            assert(balances@.skip(i as int).drop_first() =~= balances@.skip(i + 1));
        }
        if str_eq(balances[i].0.as_str(), key) {
            return Some(balances[i].1.clone());
        }
        i = i + 1;
    }
    proof {
        assert(balances@.skip(n as int).len() == 0);
    }
    None
}

/// Whether a trade record yields a position: a buy whose base asset is held
/// above the dust threshold.  A balance that is no decimal counts as absent.
pub open spec fn spec_kept(t: Trade, balances: Seq<(String, String)>) -> bool {
    &&& t.trade_type@ == "buy"@
    &&& match spec_lookup(balances, spec_base_asset(t.pair@)) {
        Some(b) => match spec_price(b@) {
            Some(v) => v > DUST_ATOMS,
            None => false,
        },
        None => false,
    }
}

pub open spec fn spec_atoms_or_zero(s: Seq<char>) -> u64 {
    match spec_price(s) {
        Some(v) => v,
        None => 0,
    }
}

pub open spec fn spec_balance_of(balances: Seq<(String, String)>, key: Seq<char>) -> String {
    match spec_lookup(balances, key) {
        Some(b) => b,
        None => arbitrary(),
    }
}

/// The position a kept trade record yields.
pub open spec fn spec_position_of(t: Trade, balances: Seq<(String, String)>) -> FutureOperation {
    FutureOperation {
        buy_price: spec_atoms_or_zero(t.price@),
        pair: t.pair,
        quantity: spec_balance_of(balances, spec_base_asset(t.pair@)),
        operation_time: t.time,
    }
}

/// First position with the given pair.
pub open spec fn spec_find_pair(s: Seq<FutureOperation>, pair: Seq<char>) -> Option<int>
    decreases s.len(),
{
    if s.len() == 0 {
        None
    } else if s[0].pair@ == pair {
        Some(0int)
    } else {
        match spec_find_pair(s.drop_first(), pair) {
            Some(i) => Some(i + 1),
            None => None,
        }
    }
}

proof fn lemma_find_pair_found(s: Seq<FutureOperation>, pair: Seq<char>, i: int)
    requires
        0 <= i < s.len(),
        s[i].pair@ == pair,
        forall|j: int| 0 <= j < i ==> s[j].pair@ != pair,
    ensures
        spec_find_pair(s, pair) == Some(i),
    decreases s.len(),
{
    if i == 0 {
    } else {
        assert(s[0].pair@ != pair);
        let t = s.drop_first();
        assert(t[i - 1].pair@ == pair);
        assert(forall|j: int| 0 <= j < i - 1 ==> t[j].pair@ != pair);
        lemma_find_pair_found(t, pair, i - 1);
    }
}

proof fn lemma_find_pair_none(s: Seq<FutureOperation>, pair: Seq<char>)
    requires
        forall|j: int| 0 <= j < s.len() ==> s[j].pair@ != pair,
    ensures
        spec_find_pair(s, pair) is None,
    decreases s.len(),
{
    if s.len() > 0 {
        lemma_find_pair_none(s.drop_first(), pair);
    }
}

pub fn find_position(acc: &Vec<FutureOperation>, pair: &str) -> (r: Option<usize>)
    ensures
        match r {
            Some(j) => spec_find_pair(acc@, pair@) == Some(j as int) && j < acc@.len()
                && acc@[j as int].pair@ == pair@,
            None => spec_find_pair(acc@, pair@) is None,
        },
{
    let n = acc.len();
    let mut i: usize = 0;
    while i < n
        invariant
            i <= n,
            n == acc@.len(),
            forall|j: int| 0 <= j < i ==> acc@[j].pair@ != pair@,
        decreases n - i,
    {
        if str_eq(acc[i].pair.as_str(), pair) {
            proof {
                lemma_find_pair_found(acc@, pair@, i as int);
            }
            return Some(i);
        }
        i = i + 1;
    }
    proof {
        lemma_find_pair_none(acc@, pair@);
    }
    None
}

proof fn lemma_find_pair_some_means_match(s: Seq<FutureOperation>, pair: Seq<char>, i: int)
    requires
        spec_find_pair(s, pair) == Some(i),
    ensures
        0 <= i < s.len(),
        s[i].pair@ == pair,
        forall|j: int| 0 <= j < i ==> s[j].pair@ != pair,
    decreases s.len(),
{
    if s.len() > 0 && s[0].pair@ != pair {
        lemma_find_pair_some_means_match(s.drop_first(), pair, i - 1);
        assert(forall|j: int| 1 <= j < i ==> s[j].pair@ == s.drop_first()[j - 1].pair@);
    }
}

proof fn lemma_find_pair_none_means_no_match(s: Seq<FutureOperation>, pair: Seq<char>)
    requires
        spec_find_pair(s, pair) is None,
    ensures
        forall|j: int| 0 <= j < s.len() ==> s[j].pair@ != pair,
    decreases s.len(),
{
    if s.len() > 0 {
        lemma_find_pair_none_means_no_match(s.drop_first(), pair);
        assert(forall|j: int|
            1 <= j < s.len() ==> s[j].pair@ == s.drop_first()[j - 1].pair@ && s[j].pair@ != pair);
    }
}

/// Every kept trade record's pair stands in the fold.
proof fn lemma_kept_pair_present(
    trades: Seq<(String, Trade)>,
    balances: Seq<(String, String)>,
    j: int,
)
    requires
        0 <= j < trades.len(),
        spec_kept(trades[j].1, balances),
    ensures
        spec_find_pair(spec_fold_positions(trades, balances), trades[j].1.pair@) is Some,
    decreases trades.len(),
{
    let prev = spec_fold_positions(trades.drop_last(), balances);
    let fold = spec_fold_positions(trades, balances);
    let t = trades.last().1;
    if j == trades.len() - 1 {
        // the last record's own pair was pushed or refreshed
        match spec_find_pair(prev, t.pair@) {
            None => {
                lemma_find_pair_none_means_no_match(prev, t.pair@);
                let fo = spec_position_of(t, balances);
                assert(fold == prev.push(fo));
                lemma_find_pair_found(fold, t.pair@, prev.len() as int);
            },
            Some(k) => {
                lemma_find_pair_some_means_match(prev, t.pair@, k);
                if prev[k].operation_time <= t.time {
                    let fo = spec_position_of(t, balances);
                    assert(fold == prev.update(k, fo));
                    assert(fold[k].pair@ == t.pair@);
                    assert(forall|m: int| 0 <= m < k ==> fold[m].pair@ == prev[m].pair@);
                    lemma_find_pair_found(fold, t.pair@, k);
                } else {
                    assert(fold == prev);
                }
            },
        }
    } else {
        lemma_kept_pair_present(trades.drop_last(), balances, j);
        let pair = trades[j].1.pair@;
        let k = choose|k: int| spec_find_pair(prev, pair) == Some(k);
        assert(spec_find_pair(prev, pair) == Some(k));
        lemma_find_pair_some_means_match(prev, pair, k);
        if spec_kept(t, balances) {
            match spec_find_pair(prev, t.pair@) {
                None => {
                    let fo = spec_position_of(t, balances);
                    assert(fold == prev.push(fo));
                    assert(fold[k].pair@ == pair);
                    assert(forall|m: int| 0 <= m < k ==> fold[m].pair@ == prev[m].pair@);
                    lemma_find_pair_found(fold, pair, k);
                },
                Some(u) => {
                    lemma_find_pair_some_means_match(prev, t.pair@, u);
                    if prev[u].operation_time <= t.time {
                        let fo = spec_position_of(t, balances);
                        assert(fold == prev.update(u, fo));
                        assert(fold[u].pair@ == prev[u].pair@);
                        assert(fold[k].pair@ == pair);
                        assert(forall|m: int| 0 <= m < k ==> fold[m].pair@ == prev[m].pair@);
                        lemma_find_pair_found(fold, pair, k);
                    } else {
                        assert(fold == prev);
                    }
                },
            }
        } else {
            assert(fold == prev);
        }
    }
}

/// What stands in the fold for a pair outlives every kept record of that
/// pair: the retained position carries the latest-or-equal timestamp, so a
/// later-or-tied buy always replaces an earlier one.
pub proof fn lemma_position_carries_latest_time(
    trades: Seq<(String, Trade)>,
    balances: Seq<(String, String)>,
    k: int,
    j: int,
)
    requires
        0 <= k < spec_fold_positions(trades, balances).len(),
        0 <= j < trades.len(),
        spec_kept(trades[j].1, balances),
        trades[j].1.pair@ == spec_fold_positions(trades, balances)[k].pair@,
    ensures
        trades[j].1.time <= spec_fold_positions(trades, balances)[k].operation_time,
    decreases trades.len(),
{
    let prev = spec_fold_positions(trades.drop_last(), balances);
    let fold = spec_fold_positions(trades, balances);
    let t = trades.last().1;
    lemma_one_position_per_pair(trades.drop_last(), balances);
    if !spec_kept(t, balances) {
        assert(fold == prev);
        assert(j < trades.len() - 1);
        lemma_position_carries_latest_time(trades.drop_last(), balances, k, j);
    } else {
        let fo = spec_position_of(t, balances);
        match spec_find_pair(prev, t.pair@) {
            None => {
                lemma_find_pair_none_means_no_match(prev, t.pair@);
                assert(fold == prev.push(fo));
                if k < prev.len() {
                    // an old pair: the new record's pair is absent from prev
                    assert(fold[k] == prev[k]);
                    if j == trades.len() - 1 {
                        assert(prev[k].pair@ != t.pair@);
                        assert(false);
                    } else {
                        lemma_position_carries_latest_time(trades.drop_last(), balances, k, j);
                    }
                } else {
                    // the fresh position: no kept record of this pair stood before
                    assert(fold[k] == fo);
                    if j < trades.len() - 1 {
                        lemma_kept_pair_present(trades.drop_last(), balances, j);
                        assert(false);
                    }
                }
            },
            Some(u) => {
                lemma_find_pair_some_means_match(prev, t.pair@, u);
                if prev[u].operation_time <= t.time {
                    assert(fold == prev.update(u, fo));
                    if k != u {
                        assert(fold[k] == prev[k]);
                        if j == trades.len() - 1 {
                            // uniqueness: only position u carries this pair
                            assert(prev[k].pair@ == t.pair@ && prev[u].pair@ == t.pair@);
                            assert(false);
                        } else {
                            lemma_position_carries_latest_time(trades.drop_last(), balances, k, j);
                        }
                    } else {
                        assert(fold[k] == fo);
                        assert(fo.operation_time == t.time);
                        if j < trades.len() - 1 {
                            lemma_position_carries_latest_time(trades.drop_last(), balances, u, j);
                        }
                    }
                } else {
                    assert(fold == prev);
                    if j == trades.len() - 1 {
                        // the retained position is strictly later than the new record
                        if k != u {
                            assert(prev[k].pair@ == t.pair@ && prev[u].pair@ == t.pair@);
                            assert(false);
                        }
                    } else {
                        lemma_position_carries_latest_time(trades.drop_last(), balances, k, j);
                    }
                }
            },
        }
    }
}

/// The statement of [`lemma_position_has_provenance`] for one position.
pub open spec fn spec_has_provenance(
    trades: Seq<(String, Trade)>,
    balances: Seq<(String, String)>,
    fo: FutureOperation,
) -> bool {
    exists|i: int|
        0 <= i < trades.len() && spec_kept(#[trigger] trades[i].1, balances) && trades[i].1.pair@
            == fo.pair@ && fo == spec_position_of(trades[i].1, balances)
}

/// A position that already had provenance among the first records keeps it
/// when one more record is folded.
proof fn lemma_provenance_lifts(
    trades: Seq<(String, Trade)>,
    balances: Seq<(String, String)>,
    fo: FutureOperation,
)
    requires
        trades.len() > 0,
        spec_has_provenance(trades.drop_last(), balances, fo),
    ensures
        spec_has_provenance(trades, balances, fo),
{
    let i0 = choose|i: int|
        0 <= i < trades.drop_last().len() && spec_kept(
            #[trigger] trades.drop_last()[i].1,
            balances,
        ) && trades.drop_last()[i].1.pair@ == fo.pair@ && fo == spec_position_of(
            trades.drop_last()[i].1,
            balances,
        );
    assert(trades[i0] == trades.drop_last()[i0]);
    assert(spec_kept(trades[i0].1, balances));
}

/// Every position in the fold is the data of some kept record of its pair:
/// the aggregator invents nothing.
pub proof fn lemma_position_has_provenance(
    trades: Seq<(String, Trade)>,
    balances: Seq<(String, String)>,
    k: int,
)
    requires
        0 <= k < spec_fold_positions(trades, balances).len(),
    ensures
        spec_has_provenance(trades, balances, spec_fold_positions(trades, balances)[k]),
    decreases trades.len(),
{
    let prev = spec_fold_positions(trades.drop_last(), balances);
    let fold = spec_fold_positions(trades, balances);
    let t = trades.last().1;
    if !spec_kept(t, balances) {
        assert(fold == prev);
        lemma_position_has_provenance(trades.drop_last(), balances, k);
        lemma_provenance_lifts(trades, balances, prev[k]);
    } else {
        let fo = spec_position_of(t, balances);
        match spec_find_pair(prev, t.pair@) {
            None => {
                assert(fold == prev.push(fo));
                if k < prev.len() {
                    lemma_position_has_provenance(trades.drop_last(), balances, k);
                    lemma_provenance_lifts(trades, balances, prev[k]);
                } else {
                    assert(fold[k] == fo);
                    assert(spec_kept(trades[trades.len() - 1].1, balances));
                }
            },
            Some(u) => {
                lemma_find_pair_some_means_match(prev, t.pair@, u);
                if prev[u].operation_time <= t.time {
                    assert(fold == prev.update(u, fo));
                    if k == u {
                        assert(fold[k] == fo);
                        assert(spec_kept(trades[trades.len() - 1].1, balances));
                    } else {
                        assert(fold[k] == prev[k]);
                        lemma_position_has_provenance(trades.drop_last(), balances, k);
                        lemma_provenance_lifts(trades, balances, prev[k]);
                    }
                } else {
                    assert(fold == prev);
                    lemma_position_has_provenance(trades.drop_last(), balances, k);
                    lemma_provenance_lifts(trades, balances, prev[k]);
                }
            },
        }
    }
}

/// No two positions share a pair.
pub open spec fn spec_pairs_unique(s: Seq<FutureOperation>) -> bool {
    forall|i: int, j: int| 0 <= i < j < s.len() ==> s[i].pair@ != s[j].pair@
}

/// The aggregator's invariant: one live position per pair, however many
/// trade records fold into it.
pub proof fn lemma_one_position_per_pair(
    trades: Seq<(String, Trade)>,
    balances: Seq<(String, String)>,
)
    ensures
        spec_pairs_unique(spec_fold_positions(trades, balances)),
    decreases trades.len(),
{
    if trades.len() > 0 {
        lemma_one_position_per_pair(trades.drop_last(), balances);
        let prev = spec_fold_positions(trades.drop_last(), balances);
        let t = trades.last().1;
        if spec_kept(t, balances) {
            let fo = spec_position_of(t, balances);
            match spec_find_pair(prev, t.pair@) {
                Some(j) => {
                    if prev[j].operation_time <= t.time {
                        lemma_find_pair_some_means_match(prev, t.pair@, j);
                        let updated = prev.update(j, fo);
                        assert forall|a: int, b: int| 0 <= a < b < updated.len() implies updated[a].pair@
                            != updated[b].pair@ by {
                            assert(updated[a].pair@ == prev[a].pair@);
                            assert(updated[b].pair@ == prev[b].pair@);
                        }
                    }
                },
                None => {
                    lemma_find_pair_none_means_no_match(prev, t.pair@);
                },
            }
        }
    }
}

/// Every kept record's buy price parses.
pub open spec fn spec_prices_ok(
    trades: Seq<(String, Trade)>,
    balances: Seq<(String, String)>,
) -> bool {
    forall|i: int|
        0 <= i < trades.len() && spec_kept(#[trigger] trades[i].1, balances) ==> spec_price(
            trades[i].1.price@,
        ) is Some
}

/// The fold over the trade history: one position per pair, the
/// later-or-equal timestamp replacing what stood before.
pub open spec fn spec_fold_positions(
    trades: Seq<(String, Trade)>,
    balances: Seq<(String, String)>,
) -> Seq<FutureOperation>
    decreases trades.len(),
{
    if trades.len() == 0 {
        Seq::empty()
    } else {
        let prev = spec_fold_positions(trades.drop_last(), balances);
        let t = trades.last().1;
        if spec_kept(t, balances) {
            let fo = spec_position_of(t, balances);
            match spec_find_pair(prev, t.pair@) {
                Some(j) => if prev[j].operation_time <= t.time {
                    prev.update(j, fo)
                } else {
                    prev
                },
                None => prev.push(fo),
            }
        } else {
            prev
        }
    }
}

/// Derives the current bought positions from the trade history and the
/// balances.  Fails with `BadParse`, aborting the pass, when a kept record
/// carries a buy price that is no decimal.
pub fn get_buy_prices(trades: &Vec<(String, Trade)>, balances: &Vec<(String, String)>) -> (r:
    Result<Vec<FutureOperation>, EngineError>)
    ensures
        match r {
            Ok(fos) => spec_prices_ok(trades@, balances@) && fos@ == spec_fold_positions(
                trades@,
                balances@,
            ),
            Err(e) => !spec_prices_ok(trades@, balances@) && e is BadParse,
        },
{
    let n = trades.len();
    let mut acc: Vec<FutureOperation> = Vec::new();
    let mut i: usize = 0;
    while i < n
        invariant
            i <= n,
            n == trades@.len(),
            acc@ == spec_fold_positions(trades@.take(i as int), balances@),
            forall|j: int|
                0 <= j < i && spec_kept(#[trigger] trades@[j].1, balances@) ==> spec_price(
                    trades@[j].1.price@,
                ) is Some,
        decreases n - i,
    {
        proof {
            assert(trades@.take(i + 1).drop_last() =~= trades@.take(i as int));
            assert(trades@.take(i + 1).last() == trades@[i as int]);
        }
        let t = &trades[i].1;
        let mut balance: Option<String> = None;
        if str_eq(t.trade_type.as_str(), "buy") {
            let base = base_asset(t.pair.as_str());
            match lookup_balance(balances, base.as_str()) {
                Some(b) => {
                    match parse_price(b.as_str()) {
                        Some(v) => {
                            if v > DUST_ATOMS {
                                balance = Some(b);
                            }
                        },
                        None => {},
                    }
                },
                None => {},
            }
        }
        match balance {
            Some(b) => {
                assert(spec_kept(trades@[i as int].1, balances@));
                let atoms = match parse_price(t.price.as_str()) {
                    Some(atoms) => atoms,
                    None => {
                        assert(!spec_prices_ok(trades@, balances@));
                        return Err(EngineError::BadParse);
                    },
                };
                let fo = FutureOperation {
                    buy_price: atoms,
                    pair: t.pair.clone(),
                    quantity: b,
                    operation_time: t.time,
                };
                assert(fo == spec_position_of(trades@[i as int].1, balances@));
                match find_position(&acc, t.pair.as_str()) {
                    Some(j) => {
                        if acc[j].operation_time <= t.time {
                            acc.set(j, fo);
                        }
                    },
                    None => {
                        acc.push(fo);
                    },
                }
            },
            None => {
                assert(!spec_kept(trades@[i as int].1, balances@));
            },
        }
        i = i + 1;
    }
    proof {
        assert(trades@.take(n as int) =~= trades@);
    }
    Ok(acc)
}

} // verus!
