use dancespiele::decimal::{parse_price, parse_integer, format_price, u128_to_string};

#[test]
fn should_compare_numbers_string() {
    if parse_price("2.5").unwrap() < parse_price("2.6").unwrap() {
        println!("works 1");
    }
    if parse_price("3.43").unwrap() > parse_price("3.41").unwrap() {
        println!("works 2");
    }

    if parse_price("4.34").unwrap() > parse_price("10.32").unwrap() {
        println!("works 3");
    }

    if parse_price("34.443").unwrap() > parse_price("100.34").unwrap() {
        panic!("should not work");
    }
}

#[test]
fn parses_plain_decimals() {
    assert_eq!(parse_price("3.43"), Some(343_000_000));
    assert_eq!(parse_price("0.392"), Some(39_200_000));
    assert_eq!(parse_price("0.00001"), Some(1_000));
    assert_eq!(parse_price("40"), Some(4_000_000_000));
    assert_eq!(parse_price("0"), Some(0));
    assert_eq!(parse_price(".5"), Some(50_000_000));
    assert_eq!(parse_price("5."), Some(500_000_000));
}

#[test]
fn truncates_beyond_eight_places() {
    assert_eq!(parse_price("0.123456789"), Some(12_345_678));
    assert_eq!(parse_price("0.00000001"), Some(1));
}

#[test]
fn rejects_malformed_decimals() {
    assert_eq!(parse_price(""), None);
    assert_eq!(parse_price("."), None);
    assert_eq!(parse_price("3.4.3"), None);
    assert_eq!(parse_price("-1"), None);
    assert_eq!(parse_price("1e3"), None);
    assert_eq!(parse_price("12a"), None);
    assert_eq!(parse_price("inf"), None);
}

#[test]
fn formats_canonical_decimals() {
    assert_eq!(format_price(343_000_000), "3.43");
    assert_eq!(format_price(39_200_000), "0.392");
    assert_eq!(format_price(0), "0");
    assert_eq!(format_price(100_000_000), "1");
    assert_eq!(format_price(1), "0.00000001");
    assert_eq!(format_price(4_000_000_000), "40");
}

#[test]
fn format_parse_round_trip() {
    for atoms in [0u64, 1, 999, 1_000, 39_200_000, 343_000_000, 4_000_000_000] {
        let s = format_price(atoms as u128);
        assert_eq!(parse_price(&s), Some(atoms));
    }
}

#[test]
fn parses_integers() {
    assert_eq!(parse_integer("0"), Some(0));
    assert_eq!(parse_integer("2123444"), Some(2123444));
    assert_eq!(parse_integer(""), None);
    assert_eq!(parse_integer("12.5"), None);
    assert_eq!(u128_to_string(160000), "160000");
}
