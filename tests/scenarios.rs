use iso_11649::{ParseError, RfCreditorReference, GEN_PREFIX, IDENTIFIER};

#[test]
fn generate_from_digits() {
    let rf = RfCreditorReference::new("539007547034");
    assert_eq!(rf.to_electronic_string(), "RF18539007547034");
    assert_eq!(rf.to_string(), "RF18 5390 0754 7034");
    assert_eq!(rf.checksum(), 18);
    let rf = RfCreditorReference::try_new("539007547034").unwrap();
    assert_eq!(rf.to_electronic_string(), "RF18539007547034");
    assert_eq!(rf.as_str(), "RF18 5390 0754 7034");
}

#[test]
fn generate_short_body() {
    let rf = RfCreditorReference::try_new("2348231").unwrap();
    assert_eq!(rf.checksum(), 71);
    assert_eq!(rf.to_electronic_string(), "RF712348231");
    assert_eq!(rf.to_string(), "RF71 2348 231");
}

#[test]
fn generate_after_identifier_or_prefix() {
    let a = RfCreditorReference::try_new("RF00539007547034").unwrap();
    let b = RfCreditorReference::try_new("RF539007547034").unwrap();
    let c = RfCreditorReference::try_new("RF00 5390 0754 7034").unwrap();
    assert_eq!(a.to_electronic_string(), "RF18539007547034");
    assert_eq!(b.to_electronic_string(), "RF18539007547034");
    assert_eq!(c.to_electronic_string(), "RF18539007547034");
}

#[test]
fn generate_with_letters() {
    let rf = RfCreditorReference::try_new("RF00 ABCD 0754 efgh").unwrap();
    assert_eq!(rf.checksum(), 63);
    assert_eq!(rf.to_string(), "RF63 ABCD 0754 efgh");
    assert_eq!(rf.to_electronic_string(), "RF63ABCD0754efgh");
}

#[test]
fn generate_rejects_bad_body() {
    assert_eq!(
        RfCreditorReference::try_new("5390@"),
        Err(ParseError::InvalidCharacter("RF005390@".to_string()))
    );
    assert_eq!(
        RfCreditorReference::try_new(""),
        Err(ParseError::InvalidFormat("RF00".to_string()))
    );
    assert_eq!(
        RfCreditorReference::try_new("1234567890123456789012"),
        Err(ParseError::InvalidFormat("RF001234567890123456789012".to_string()))
    );
}

#[test]
fn parse_print_form() {
    let rf = RfCreditorReference::parse_str("RF18 5390 0754 7034").unwrap();
    assert_eq!(rf.to_electronic_string(), "RF18539007547034");
    assert_eq!(rf.to_string(), "RF18 5390 0754 7034");
    assert_eq!(rf.checksum(), 18);
}

#[test]
fn parse_regroups_spaces() {
    let rf = RfCreditorReference::parse_str("RF1853 900754 7034").unwrap();
    assert_eq!(rf.to_string(), "RF18 5390 0754 7034");
}

#[test]
fn parse_missing_identifier() {
    assert_eq!(
        RfCreditorReference::parse_str("18539007547034"),
        Err(ParseError::InvalidIdentifier("18539007547034".to_string()))
    );
}

#[test]
fn parse_too_long() {
    assert_eq!(
        RfCreditorReference::parse_str("RF18539007547034928TOOLONG"),
        Err(ParseError::InvalidFormat("RF18539007547034928TOOLONG".to_string()))
    );
}

#[test]
fn parse_bad_character() {
    assert_eq!(
        RfCreditorReference::parse_str("RF18539007547034@"),
        Err(ParseError::InvalidCharacter("RF18539007547034@".to_string()))
    );
}

#[test]
fn parse_wrong_check_digits() {
    assert_eq!(
        RfCreditorReference::parse_str("RF19 5390 0754 7034"),
        Err(ParseError::InvalidChecksum("RF19539007547034".to_string()))
    );
}

#[test]
fn parse_check_digits_not_digits() {
    assert_eq!(
        RfCreditorReference::parse_str("RFAB539007547034"),
        Err(ParseError::InvalidChecksum("RFAB539007547034".to_string()))
    );
}

#[test]
fn boundary_lengths() {
    let short = RfCreditorReference::try_new("5").unwrap();
    assert_eq!(short.to_electronic_string(), "RF635");
    assert!(RfCreditorReference::parse_str("RF635").is_ok());
    let long = RfCreditorReference::parse_str("RF93539007547034928301234").unwrap();
    assert_eq!(long.to_electronic_string().len(), 25);
    assert_eq!(
        RfCreditorReference::parse_str("RF63"),
        Err(ParseError::InvalidFormat("RF63".to_string()))
    );
    assert_eq!(
        RfCreditorReference::parse_str("RF935390075470349283012345"),
        Err(ParseError::InvalidFormat("RF935390075470349283012345".to_string()))
    );
}

#[test]
fn round_trip_print_and_electronic() {
    for s in ["RF18539007547034", "RF63 ABCD 0754 efgh", "RF93539007547034928301234"] {
        let rf = RfCreditorReference::parse_str(s).unwrap();
        let from_print = RfCreditorReference::parse_str(&rf.to_string()).unwrap();
        let from_electronic = RfCreditorReference::parse_str(&rf.to_electronic_string()).unwrap();
        assert_eq!(from_print, from_electronic);
        assert_eq!(from_print, rf);
        assert_eq!(from_print.checksum(), rf.checksum());
    }
}

#[test]
fn generated_reference_parses() {
    for body in ["539007547034", "2348231", "ABCD0754efgh", "5", "zzzzzzzzzzzzzzzzzzzzz"] {
        let rf = RfCreditorReference::try_new(body).unwrap();
        let again = RfCreditorReference::parse_str(&rf.to_electronic_string()).unwrap();
        assert_eq!(again.checksum(), rf.checksum());
        assert_eq!(again, rf);
    }
}

#[test]
fn parsed_reference_checks_mod_97() {
    let rf = RfCreditorReference::parse_str("RF63 ABCD 0754 efgh").unwrap();
    let digits = RfCreditorReference::gen_check_digits(&rf.to_electronic_string()).unwrap();
    assert!(RfCreditorReference::is_valid(&digits));
    let wrong = RfCreditorReference::gen_check_digits("RF64ABCD0754efgh").unwrap();
    assert!(!RfCreditorReference::is_valid(&wrong));
}

#[test]
fn generation_is_repeatable() {
    let a = RfCreditorReference::try_new("ABCD0754efgh");
    let b = RfCreditorReference::try_new("ABCD0754efgh");
    assert_eq!(a, b);
}

#[test]
fn longest_letter_body_does_not_overflow() {
    let rf = RfCreditorReference::try_new("zzzzzzzzzzzzzzzzzzzzz").unwrap();
    assert_eq!(rf.to_electronic_string().len(), 25);
    assert!(RfCreditorReference::parse_str(&rf.to_electronic_string()).is_ok());
}

#[test]
fn check_digits_of_lower_and_upper_letters_agree() {
    assert_eq!(
        RfCreditorReference::gen_check_digits("RF00aZ").unwrap(),
        RfCreditorReference::gen_check_digits("RF00Az").unwrap()
    );
    assert_eq!(
        RfCreditorReference::gen_check_digits("RF00Az").unwrap(),
        vec![1, 0, 3, 5, 2, 7, 1, 5, 0, 0]
    );
    assert!(RfCreditorReference::gen_check_digits("RF00A-").is_err());
}

#[test]
fn checksum_ninety_eight() {
    // 98 is the check number where the body with 00 already divides by 97
    let (c, chars) = RfCreditorReference::gen_checksum(&[9, 7, 0]);
    assert_eq!(c, 98);
    assert_eq!(chars, ['9', '8']);
}

#[test]
fn check_reference_order_of_checks() {
    assert_eq!(
        RfCreditorReference::check_reference("XX"),
        Err(ParseError::InvalidFormat("XX".to_string()))
    );
    assert_eq!(
        RfCreditorReference::check_reference("XX18@"),
        Err(ParseError::InvalidIdentifier("XX18@".to_string()))
    );
    assert_eq!(RfCreditorReference::check_reference("RF991"), Ok(()));
}

#[test]
fn convert_electronic_removes_spaces() {
    assert_eq!(RfCreditorReference::convert_electronic(" RF18 5390  0754 "), "RF1853900754");
}

#[test]
fn conversions_to_string() {
    let rf = RfCreditorReference::parse_str("RF712348231").unwrap();
    let s: String = (&rf).into();
    assert_eq!(s, "RF71 2348 231");
    let s: String = rf.into();
    assert_eq!(s, "RF71 2348 231");
}

#[test]
fn error_text() {
    let err = RfCreditorReference::parse_str("18539007547034").unwrap_err();
    assert_eq!(err.to_string(), "identifier is not RF [18539007547034]");
    let err = ParseError::InvalidChecksum("RF19".to_string());
    assert_eq!(err.to_string(), "checksum has invalid format [RF19]");
}

#[test]
fn constants() {
    assert_eq!(IDENTIFIER, "RF");
    assert_eq!(GEN_PREFIX, "RF00");
}
