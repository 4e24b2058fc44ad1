use kafka_toy::config::Offset;

#[test]
fn parses_earliest() {
    assert!(matches!(Offset::from_str("earliest"), Ok(Offset::Earliest)));
}

#[test]
fn parses_latest() {
    assert!(matches!(Offset::from_str("latest"), Ok(Offset::Latest)));
}

#[test]
fn parsing_ignores_case() {
    assert!(matches!(Offset::from_str("EARLIEST"), Ok(Offset::Earliest)));
    assert!(matches!(Offset::from_str("Latest"), Ok(Offset::Latest)));
}

#[test]
fn rejects_unknown_offset() {
    let err = Offset::from_str("sometime").unwrap_err();
    assert_eq!(
        err,
        "Invalid offset: sometime. Must be one of earliest or latest"
    );
}

#[test]
fn renders_offset_words() {
    assert_eq!(Offset::Earliest.to_string(), "earliest");
    assert_eq!(Offset::Latest.to_string(), "latest");
}
