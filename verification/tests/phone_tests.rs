use uiobot::phone::{normalize_norwegian_phone, normalize_twilio_phone};

#[test]
fn test_normalize_norwegian_phone() {
    // Valid formats (using numbers starting with 4 - mobile, or 2 - Oslo landline)
    assert_eq!(normalize_norwegian_phone("+4741234567"), Some("+4741234567".to_string()));
    assert_eq!(normalize_norwegian_phone("4741234567"), Some("+4741234567".to_string()));
    assert_eq!(normalize_norwegian_phone("41234567"), Some("+4741234567".to_string()));
    assert_eq!(normalize_norwegian_phone("+47 412 34 567"), Some("+4741234567".to_string()));
    assert_eq!(normalize_norwegian_phone("412-34-567"), Some("+4741234567".to_string()));

    // Valid first digits (2-9)
    assert_eq!(normalize_norwegian_phone("22345678"), Some("+4722345678".to_string()));
    assert_eq!(normalize_norwegian_phone("92345678"), Some("+4792345678".to_string()));
    assert_eq!(normalize_norwegian_phone("45678901"), Some("+4745678901".to_string()));

    // Invalid: wrong length
    assert_eq!(normalize_norwegian_phone("4234567"), None); // 7 digits
    assert_eq!(normalize_norwegian_phone("423456789"), None); // 9 digits
    assert_eq!(normalize_norwegian_phone("+474234567"), None); // +47 + 7 digits

    // Invalid: starts with 0 or 1
    assert_eq!(normalize_norwegian_phone("01234567"), None);
    assert_eq!(normalize_norwegian_phone("11234567"), None);

    // Invalid: non-Norwegian country code
    assert_eq!(normalize_norwegian_phone("+1234567890"), None);
    assert_eq!(normalize_norwegian_phone("+4641234567"), None);

    // Invalid: contains letters
    assert_eq!(normalize_norwegian_phone("+47412abc78"), None);
}

#[test]
fn test_normalize_twilio_phone() {
    // Valid U.S. numbers
    assert_eq!(normalize_twilio_phone("+12025551234"), Some("+12025551234".to_string()));
    assert_eq!(normalize_twilio_phone("+1 202 555 1234"), Some("+12025551234".to_string()));
    assert_eq!(normalize_twilio_phone("+1-202-555-1234"), Some("+12025551234".to_string()));

    // Valid Norwegian numbers
    assert_eq!(normalize_twilio_phone("+4741234567"), Some("+4741234567".to_string()));
    assert_eq!(normalize_twilio_phone("+47 412 34 567"), Some("+4741234567".to_string()));

    // Invalid: missing + prefix
    assert_eq!(normalize_twilio_phone("12025551234"), None);
    assert_eq!(normalize_twilio_phone("4741234567"), None);

    // Invalid: wrong length
    assert_eq!(normalize_twilio_phone("+1202555123"), None); // U.S. too short
    assert_eq!(normalize_twilio_phone("+120255512345"), None); // U.S. too long
    assert_eq!(normalize_twilio_phone("+474123456"), None); // Norwegian too short

    // Invalid: other country codes
    assert_eq!(normalize_twilio_phone("+442071234567"), None); // UK
    assert_eq!(normalize_twilio_phone("+33123456789"), None); // France
}
