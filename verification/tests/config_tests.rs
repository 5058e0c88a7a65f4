use dancespiele::config::{parse_percentages, Percentage};
use dancespiele::error::EngineError;

#[test]
fn should_fetch_coins_percentages_stop_loss() {
    let percentages = vec![
        Percentage {
            new_stop_loss: String::from("15.0"),
            next_stop_loss: String::from("5.0"),
            pair: String::from("KAVAEUR"),
        },
        Percentage {
            new_stop_loss: String::from("30.0"),
            next_stop_loss: String::from("5.0"),
            pair: String::from("OXTEUR"),
        },
    ];

    // the document as it sits under the store's "percentages" key
    let percentages_string = r#"[
        {"pair": "KAVAEUR", "new_stop_loss": "15.0", "next_stop_loss": "5.0"},
        {"pair": "OXTEUR", "new_stop_loss": "30.0", "next_stop_loss": "5.0"}
    ]"#;

    let percentages_saved = parse_percentages(percentages_string).unwrap();

    assert_eq!(percentages_saved.len(), percentages.len());
    for (saved, expected) in percentages_saved.iter().zip(percentages.iter()) {
        assert_eq!(saved.pair, expected.pair);
        assert_eq!(saved.new_stop_loss, expected.new_stop_loss);
        assert_eq!(saved.next_stop_loss, expected.next_stop_loss);
    }
}

#[test]
fn threshold_document_must_be_an_array_of_entries() {
    assert!(matches!(parse_percentages("not json").unwrap_err(), EngineError::BadParse));
    assert!(matches!(parse_percentages(r#"{"pair": "KAVAEUR"}"#).unwrap_err(), EngineError::BadParse));
    assert!(matches!(
        parse_percentages(r#"[{"pair": "KAVAEUR", "new_stop_loss": "15.0"}]"#).unwrap_err(),
        EngineError::BadParse
    ));
}
