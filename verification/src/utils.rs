//! Helpers shared across the engine: the base-currency prefix of a pair and
//! the cron minute list.

use vstd::prelude::*;
use vstd::string::StringExecFns;
use crate::text::{spec_starts_with, starts_with};
use crate::decimal::{dec_str, u128_to_string};

verus! {

/// The base currency that `substract_pair` recognizes at the start of a pair.
/// Where one known name starts another (`REP` and `REPV2`), the longer wins;
/// an unknown prefix yields the empty string.
pub open spec fn spec_substract_pair(pair: Seq<char>) -> Seq<char> {
    if spec_starts_with(pair, "MLN"@) {
        "MLN"@
    } else if spec_starts_with(pair, "GNO"@) {
        "GNO"@
    } else if spec_starts_with(pair, "KAVA"@) {
        "KAVA"@
    } else if spec_starts_with(pair, "STORJ"@) {
        "STORJ"@
    } else if spec_starts_with(pair, "PAXG"@) {
        "PAXG"@
    } else if spec_starts_with(pair, "CRV"@) {
        "CRV"@
    } else if spec_starts_with(pair, "OXT"@) {
        "OXT"@
    } else if spec_starts_with(pair, "BAL"@) {
        "BAL"@
    } else if spec_starts_with(pair, "NANO"@) {
        "NANO"@
    } else if spec_starts_with(pair, "SC"@) {
        "SC"@
    } else if spec_starts_with(pair, "LSK"@) {
        "LSK"@
    } else if spec_starts_with(pair, "REPV2"@) {
        "REPV2"@
    } else if spec_starts_with(pair, "REP"@) {
        "REP"@
    } else if spec_starts_with(pair, "KNC"@) {
        "KNC"@
    } else if spec_starts_with(pair, "QTUM"@) {
        "QTUM"@
    } else if spec_starts_with(pair, "ICX"@) {
        "ICX"@
    } else if spec_starts_with(pair, "BAT"@) {
        "BAT"@
    } else if spec_starts_with(pair, "ALGO"@) {
        "ALGO"@
    } else if spec_starts_with(pair, "KSM"@) {
        "KSM"@
    } else if spec_starts_with(pair, "XDG"@) {
        "XDG"@
    } else if spec_starts_with(pair, "WAVES"@) {
        "WAVES"@
    } else if spec_starts_with(pair, "SNX"@) {
        "SNX"@
    } else if spec_starts_with(pair, "COMP"@) {
        "COMP"@
    } else if spec_starts_with(pair, "OMG"@) {
        "OMG"@
    } else if spec_starts_with(pair, "YFI"@) {
        "YFI"@
    } else if spec_starts_with(pair, "ETC"@) {
        "ETC"@
    } else if spec_starts_with(pair, "ZEC"@) {
        "ZEC"@
    } else if spec_starts_with(pair, "DASH"@) {
        "DASH"@
    } else if spec_starts_with(pair, "UNI"@) {
        "UNI"@
    } else if spec_starts_with(pair, "FIL"@) {
        "FIL"@
    } else if spec_starts_with(pair, "DAI"@) {
        "DAI"@
    } else if spec_starts_with(pair, "ATOM"@) {
        "ATOM"@
    } else if spec_starts_with(pair, "XTZ"@) {
        "XTZ"@
    } else if spec_starts_with(pair, "XLM"@) {
        "XLM"@
    } else if spec_starts_with(pair, "TRX"@) {
        "TRX"@
    } else if spec_starts_with(pair, "XMR"@) {
        "XMR"@
    } else if spec_starts_with(pair, "EOS"@) {
        "EOS"@
    } else if spec_starts_with(pair, "USDC"@) {
        "USDC"@
    } else if spec_starts_with(pair, "ADA"@) {
        "ADA"@
    } else if spec_starts_with(pair, "DOT"@) {
        "DOT"@
    } else if spec_starts_with(pair, "LTC"@) {
        "LTC"@
    } else if spec_starts_with(pair, "BCH"@) {
        "BCH"@
    } else if spec_starts_with(pair, "LINK"@) {
        "LINK"@
    } else if spec_starts_with(pair, "XRP"@) {
        "XRP"@
    } else if spec_starts_with(pair, "USDT"@) {
        "USDT"@
    } else if spec_starts_with(pair, "ETH"@) {
        "ETH"@
    } else if spec_starts_with(pair, "XBT"@) {
        "XBT"@
    } else {
        Seq::empty()
    }
}

/// Strips a pair down to its base currency, e.g. `"KAVAEUR"` to `"KAVA"`.
pub fn substract_pair(pair: &str) -> (r: String)
    ensures
        r@ == spec_substract_pair(pair@),
{
    if starts_with(pair, "MLN") {
        String::from_str("MLN")
    } else if starts_with(pair, "GNO") {
        String::from_str("GNO")
    } else if starts_with(pair, "KAVA") {
        String::from_str("KAVA")
    } else if starts_with(pair, "STORJ") {
        String::from_str("STORJ")
    } else if starts_with(pair, "PAXG") {
        String::from_str("PAXG")
    } else if starts_with(pair, "CRV") {
        String::from_str("CRV")
    } else if starts_with(pair, "OXT") {
        String::from_str("OXT")
    } else if starts_with(pair, "BAL") {
        String::from_str("BAL")
    } else if starts_with(pair, "NANO") {
        String::from_str("NANO")
    } else if starts_with(pair, "SC") {
        String::from_str("SC")
    } else if starts_with(pair, "LSK") {
        String::from_str("LSK")
    } else if starts_with(pair, "REPV2") {
        String::from_str("REPV2")
    } else if starts_with(pair, "REP") {
        String::from_str("REP")
    } else if starts_with(pair, "KNC") {
        String::from_str("KNC")
    } else if starts_with(pair, "QTUM") {
        String::from_str("QTUM")
    } else if starts_with(pair, "ICX") {
        String::from_str("ICX")
    } else if starts_with(pair, "BAT") {
        String::from_str("BAT")
    } else if starts_with(pair, "ALGO") {
        String::from_str("ALGO")
    } else if starts_with(pair, "KSM") {
        String::from_str("KSM")
    } else if starts_with(pair, "XDG") {
        String::from_str("XDG")
    } else if starts_with(pair, "WAVES") {
        String::from_str("WAVES")
    } else if starts_with(pair, "SNX") {
        String::from_str("SNX")
    } else if starts_with(pair, "COMP") {
        String::from_str("COMP")
    } else if starts_with(pair, "OMG") {
        String::from_str("OMG")
    } else if starts_with(pair, "YFI") {
        String::from_str("YFI")
    } else if starts_with(pair, "ETC") {
        String::from_str("ETC")
    } else if starts_with(pair, "ZEC") {
        String::from_str("ZEC")
    } else if starts_with(pair, "DASH") {
        String::from_str("DASH")
    } else if starts_with(pair, "UNI") {
        String::from_str("UNI")
    } else if starts_with(pair, "FIL") {
        String::from_str("FIL")
    } else if starts_with(pair, "DAI") {
        String::from_str("DAI")
    } else if starts_with(pair, "ATOM") {
        String::from_str("ATOM")
    } else if starts_with(pair, "XTZ") {
        String::from_str("XTZ")
    } else if starts_with(pair, "XLM") {
        String::from_str("XLM")
    } else if starts_with(pair, "TRX") {
        String::from_str("TRX")
    } else if starts_with(pair, "XMR") {
        String::from_str("XMR")
    } else if starts_with(pair, "EOS") {
        String::from_str("EOS")
    } else if starts_with(pair, "USDC") {
        String::from_str("USDC")
    } else if starts_with(pair, "ADA") {
        String::from_str("ADA")
    } else if starts_with(pair, "DOT") {
        String::from_str("DOT")
    } else if starts_with(pair, "LTC") {
        String::from_str("LTC")
    } else if starts_with(pair, "BCH") {
        String::from_str("BCH")
    } else if starts_with(pair, "LINK") {
        String::from_str("LINK")
    } else if starts_with(pair, "XRP") {
        String::from_str("XRP")
    } else if starts_with(pair, "USDT") {
        String::from_str("USDT")
    } else if starts_with(pair, "ETH") {
        String::from_str("ETH")
    } else if starts_with(pair, "XBT") {
        String::from_str("XBT")
    } else {
        String::new()
    }
}

/// The multiples of `mult` among `0 .. upto`, in order.
pub open spec fn spec_multiples(mult: int, upto: int) -> Seq<int>
    decreases upto,
{
    if upto <= 0 {
        Seq::empty()
    } else {
        let prev = spec_multiples(mult, upto - 1);
        if (upto - 1) % mult == 0 {
            prev.push(upto - 1)
        } else {
            prev
        }
    }
}

/// The decimal renderings of `xs`, joined with commas.
pub open spec fn spec_join_dec(xs: Seq<int>) -> Seq<char>
    decreases xs.len(),
{
    if xs.len() == 0 {
        Seq::empty()
    } else if xs.len() == 1 {
        dec_str(xs[0] as nat)
    } else {
        spec_join_dec(xs.drop_last()) + seq![','] + dec_str(xs.last() as nat)
    }
}

/// The minutes of an hour that are multiples of `mult`, as a comma-joined
/// list for the cron trigger, e.g. `"0,2,4,...,58"` for `2`.
pub fn get_multiples(mult: i32) -> (r: String)
    requires
        1 <= mult,
    ensures
        r@ == spec_join_dec(spec_multiples(mult as int, 60)),
{
    let mut acc = String::new();
    let mut first = true;
    let mut n: i32 = 0;
    while n < 60
        invariant
            0 <= n <= 60,
            1 <= mult,
            first == (spec_multiples(mult as int, n as int).len() == 0),
            acc@ == spec_join_dec(spec_multiples(mult as int, n as int)),
        decreases 60 - n,
    {
        let ghost old_xs = spec_multiples(mult as int, n as int);
        if n % mult == 0 {
            proof {
                assert(spec_multiples(mult as int, n + 1) == old_xs.push(n as int));
                assert(old_xs.push(n as int).drop_last() =~= old_xs);
            }
            if first {
                first = false;
                let ds = u128_to_string(n as u128);
                acc.append(ds.as_str());
                proof {
                    assert(Seq::<char>::empty() + dec_str(n as nat) =~= dec_str(n as nat));
                }
            } else {
                acc.append(",");
                let ds = u128_to_string(n as u128);
                acc.append(ds.as_str());
                proof {
                    reveal_strlit(",");
                    assert(","@ =~= seq![',']);
                    let xs = spec_multiples(mult as int, n + 1);
                    assert(xs.len() >= 2);
                    assert(spec_join_dec(xs) == spec_join_dec(old_xs) + seq![','] + dec_str(
                        n as nat,
                    ));
                    assert((spec_join_dec(old_xs) + ","@) + dec_str(n as nat) =~= spec_join_dec(
                        old_xs,
                    ) + seq![','] + dec_str(n as nat));
                }
            }
        } else {
            proof {
                assert(spec_multiples(mult as int, n + 1) == old_xs);
            }
        }
        n = n + 1;
    }
    acc
}

} // verus!
