use name_registry::registration::{parse_registration, ValidationError};
use name_registry::wire::HostRecord;

fn record(address: &[u8], name: &str) -> HostRecord {
    HostRecord { address: address.to_vec(), name: name.to_string() }
}

#[test]
fn name_and_address_around_one_bar() {
    assert_eq!(
        parse_registration("example|192.168.1.1"),
        Ok(record(&[192, 168, 1, 1], "example"))
    );
}

#[test]
fn both_fields_are_trimmed() {
    assert_eq!(
        parse_registration("  example \t| 10.0.0.1\n"),
        Ok(record(&[10, 0, 0, 1], "example"))
    );
    assert_eq!(parse_registration("|1.2.3.4"), Ok(record(&[1, 2, 3, 4], "")));
    assert_eq!(parse_registration(" a b |1.2.3.4"), Ok(record(&[1, 2, 3, 4], "a b")));
}

#[test]
fn a_name_may_hold_any_character_but_the_bar() {
    assert_eq!(
        parse_registration("dominio.ñandú.example|8.8.8.8"),
        Ok(record(&[8, 8, 8, 8], "dominio.ñandú.example"))
    );
}

#[test]
fn one_field_or_three_have_the_wrong_shape() {
    assert_eq!(parse_registration("onlyonepart"), Err(ValidationError::Shape));
    assert_eq!(parse_registration(""), Err(ValidationError::Shape));
    assert_eq!(parse_registration("a|1.2.3.4|b"), Err(ValidationError::Shape));
    assert_eq!(parse_registration("a||1.2.3.4"), Err(ValidationError::Shape));
}

#[test]
fn a_second_field_that_is_no_address_is_refused() {
    assert_eq!(parse_registration("example|192.168.1.999"), Err(ValidationError::Address));
    assert_eq!(parse_registration("example|"), Err(ValidationError::Address));
    assert_eq!(parse_registration("example|1.2.3"), Err(ValidationError::Address));
    assert_eq!(parse_registration("example|1.2.3.4.5"), Err(ValidationError::Address));
    assert_eq!(parse_registration("example|1. 2.3.4"), Err(ValidationError::Address));
    assert_eq!(parse_registration("example|host"), Err(ValidationError::Address));
}
