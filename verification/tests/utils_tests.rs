use dancespiele::utils::{substract_pair, get_multiples};

#[test]
fn should_substract_the_currency_from_pair() {
    let currencies_to_change = vec![
        "EUR", "USD", "XBT", "ETH", "CAD", "JPY", "CHF", "GBP", "USDT", "USDC", "DAI", "AUD",
    ];
    let current_currencies = vec![
        "XBT", "ETH", "USDT", "XRP", "LINK", "BCH", "LTC", "DOT", "ADA", "USDC", "EOS", "XMR",
        "TRX", "XLM", "XTZ", "ATOM", "DAI", "FIL", "UNI", "DASH", "ZEC", "ETC", "YFI", "OMG",
        "COMP", "SNX", "WAVES", "XDG", "KSM", "ALGO", "BAT", "ICX", "QTUM", "KNC", "REP", "REPV2",
        "LSK", "SC", "NANO", "BAL", "OXT", "CRV", "PAXG", "STORJ", "KAVA", "GNO", "MLN",
    ];

    current_currencies.into_iter().for_each(|cc| {
        currencies_to_change.clone().into_iter().for_each(|ctc| {
            let mut cc_copy = cc.to_string();
            cc_copy.push_str(ctc);

            let currency = substract_pair(&cc_copy);

            assert_eq!(currency, cc);
        })
    });
}

#[test]
fn unknown_prefix_yields_empty() {
    assert_eq!(substract_pair("ZZZEUR"), "");
}

#[test]
fn longer_prefix_wins_over_shorter() {
    assert_eq!(substract_pair("REPV2EUR"), "REPV2");
    assert_eq!(substract_pair("REPEUR"), "REP");
}

#[test]
fn multiples_of_two_cover_the_hour() {
    assert_eq!(
        get_multiples(2),
        "0,2,4,6,8,10,12,14,16,18,20,22,24,26,28,30,32,34,36,38,40,42,44,46,48,50,52,54,56,58"
    );
}

#[test]
fn multiples_of_seven() {
    assert_eq!(get_multiples(7), "0,7,14,21,28,35,42,49,56");
}
