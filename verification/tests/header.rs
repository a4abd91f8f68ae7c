use parser::mt940::format::BasicHeaderBlock;
use parser::ParserError;

#[test]
fn mt940_test_basic_header_constructor() {
    let header_str = String::from("F01GSCRUS30XXXX3614000002");
    let header_str_bigger = String::from("F01GSCRUS30XXXX36140000021");
    let header_str_less = String::from("F01GSCRUS30XXXX361400000");

    let target = BasicHeaderBlock {
        application_identifier: "F".to_string(),
        service_identifier: "01".to_string(),
        lt_identifier: "GSCRUS30XXXX".to_string(),
        session_number: "3614".to_string(),
        sequence_number: "000002".to_string(),
    };

    assert_eq!(
        target,
        BasicHeaderBlock::from_string(&header_str).expect("Failed to parse header")
    );
    assert!(BasicHeaderBlock::from_string(&header_str_bigger).is_err());
    assert!(BasicHeaderBlock::from_string(&header_str_less).is_err());
}

#[test]
fn tests_test_basic_header_constructor() {
    let header_str = String::from("F01GSCRUS30XXXX3614000002");
    let header_str_bigger = String::from("F01GSCRUS30XXXX36140000021");
    let header_str_less = String::from("F01GSCRUS30XXXX361400000");

    let target = BasicHeaderBlock {
        application_identifier: "F".to_string(),
        service_identifier: "01".to_string(),
        lt_identifier: "GSCRUS30XXXX".to_string(),
        session_number: "3614".to_string(),
        sequence_number: "000002".to_string(),
    };

    assert_eq!(
        target,
        BasicHeaderBlock::from_string(&header_str).expect("Failed to parse header")
    );
    assert!(BasicHeaderBlock::from_string(&header_str_bigger).is_err());
    assert!(BasicHeaderBlock::from_string(&header_str_less).is_err());
}

#[test]
fn basic_header_of_wrong_length_is_a_malformed_envelope() {
    assert_eq!(
        BasicHeaderBlock::from_string(""),
        Err(ParserError::MalformedEnvelope)
    );
    assert_eq!(
        BasicHeaderBlock::from_string("F01GSCRUS30XXXX36140000021"),
        Err(ParserError::MalformedEnvelope)
    );
}

#[test]
fn basic_header_is_written_as_it_was_read() {
    let text = "F01BANKDEFFAXXX0000000000";
    let header = BasicHeaderBlock::from_string(text).unwrap();
    assert_eq!(header.to_string(), text);
    assert_eq!(BasicHeaderBlock::default().to_string(), "");
}
