use uiobot::config::{
    extract_email_from_address, is_valid_email, validate_interval, Config, ConfigError,
};
use uiobot::filter::{parse_points_filter_expr, PointsFilter};

fn base_config() -> Config {
    Config {
        url: "https://example.com".to_string(),
        db: "test.db".to_string(),
        database_url: None,
        database_auth_token: None,
        points_exact: None,
        points_max: None,
        points_min: None,
        points_filter_expr: None,
        verbose: false,
        email_to: None,
        email_from: None,
        port: 3000,
        sms_to: None,
        sms_from: None,
    }
}

#[test]
fn test_is_valid_email() {
    assert!(is_valid_email("user@example.com"));
    assert!(is_valid_email("user.name@example.co.uk"));
    assert!(is_valid_email("user+tag@example.com"));
    assert!(!is_valid_email("invalid"));
    assert!(!is_valid_email("@example.com"));
    assert!(!is_valid_email("user@"));
    assert!(!is_valid_email("user@localhost"));
    assert!(!is_valid_email(""));
}

#[test]
fn test_extract_email_from_address() {
    assert_eq!(
        extract_email_from_address("UiOBot <bot@example.com>"),
        "bot@example.com"
    );
    assert_eq!(
        extract_email_from_address("bot@example.com"),
        "bot@example.com"
    );
    assert_eq!(
        extract_email_from_address("  Name <email@test.com>  "),
        "email@test.com"
    );
}

#[test]
fn test_email_recipients() {
    let mut config = base_config();
    config.email_to = Some("a@b.com, c@d.com, e@f.com".to_string());

    let recipients = config.email_recipients();
    assert_eq!(recipients.len(), 3);
    assert_eq!(recipients[0], "a@b.com");
    assert_eq!(recipients[1], "c@d.com");
    assert_eq!(recipients[2], "e@f.com");
}

#[test]
fn test_parse_points_filter_expr_exact() {
    let filter = parse_points_filter_expr("2.5").unwrap();
    assert!(matches!(filter, PointsFilter::Exact(250)));

    let filter = parse_points_filter_expr("10").unwrap();
    assert!(matches!(filter, PointsFilter::Exact(1000)));
}

#[test]
fn test_parse_points_filter_expr_min() {
    let filter = parse_points_filter_expr(">=5").unwrap();
    assert!(matches!(filter, PointsFilter::Range { min: Some(500), max: None }));

    let filter = parse_points_filter_expr("5+").unwrap();
    assert!(matches!(filter, PointsFilter::Range { min: Some(500), max: None }));

    let filter = parse_points_filter_expr(">5").unwrap();
    assert!(matches!(filter, PointsFilter::Range { min: Some(500), max: None }));
}

#[test]
fn test_parse_points_filter_expr_max() {
    let filter = parse_points_filter_expr("<=10").unwrap();
    assert!(matches!(filter, PointsFilter::Range { min: None, max: Some(1000) }));

    let filter = parse_points_filter_expr("<10").unwrap();
    assert!(matches!(filter, PointsFilter::Range { min: None, max: Some(1000) }));

    let filter = parse_points_filter_expr("10-").unwrap();
    assert!(matches!(filter, PointsFilter::Range { min: None, max: Some(1000) }));
}

#[test]
fn test_parse_points_filter_expr_range() {
    let filter = parse_points_filter_expr("5-10").unwrap();
    assert!(matches!(
        filter,
        PointsFilter::Range { min: Some(500), max: Some(1000) }
    ));

    let filter = parse_points_filter_expr("2.5-7.5").unwrap();
    assert!(matches!(
        filter,
        PointsFilter::Range { min: Some(250), max: Some(750) }
    ));
}

#[test]
fn test_parse_points_filter_expr_empty() {
    let filter = parse_points_filter_expr("").unwrap();
    assert!(matches!(filter, PointsFilter::All));

    let filter = parse_points_filter_expr("  ").unwrap();
    assert!(matches!(filter, PointsFilter::All));
}

#[test]
fn test_parse_points_filter_expr_invalid() {
    assert!(parse_points_filter_expr("lots").is_none());
    assert!(parse_points_filter_expr(">=abc").is_none());
    assert!(parse_points_filter_expr("a-b").is_none());
}

#[test]
fn test_points_filter_expr_takes_precedence() {
    let mut config = base_config();
    config.points_exact = Some(1000); // This should be ignored
    config.points_filter_expr = Some("2.5".to_string()); // This takes precedence

    let filter = config.points_filter();
    assert!(matches!(filter, PointsFilter::Exact(250)));
}

#[test]
fn test_points_filter_falls_back_to_fields() {
    let mut config = base_config();
    config.points_filter_expr = Some("nonsense".to_string());
    config.points_min = Some(250);

    let filter = config.points_filter();
    assert!(matches!(filter, PointsFilter::Range { min: Some(250), max: None }));
}

#[test]
fn test_filter_description() {
    assert_eq!(PointsFilter::All.description(), "all courses");
    assert_eq!(
        PointsFilter::Exact(250).description(),
        "courses with exactly 2.5 points"
    );
    assert_eq!(
        PointsFilter::Range { min: Some(500), max: Some(1000) }.description(),
        "courses with 5-10 points"
    );
    assert_eq!(
        PointsFilter::Range { min: Some(500), max: None }.description(),
        "courses with >= 5 points"
    );
    assert_eq!(
        PointsFilter::Range { min: None, max: Some(1000) }.description(),
        "courses with <= 10 points"
    );
    assert_eq!(
        PointsFilter::Range { min: None, max: None }.description(),
        "all courses"
    );
}

#[test]
fn test_validate_rejects_bad_url() {
    let mut config = base_config();
    config.url = "ftp://example.com".to_string();
    let err = config.validate().unwrap_err();
    assert!(matches!(err, ConfigError::InvalidUrl(_)));
    assert_eq!(
        err.message(),
        "Invalid URL 'ftp://example.com': must start with http:// or https://"
    );
}

#[test]
fn test_validate_rejects_inverted_range() {
    let mut config = base_config();
    config.points_min = Some(1000);
    config.points_max = Some(500);
    let err = config.validate().unwrap_err();
    assert!(matches!(err, ConfigError::InvalidPointsRange { min: 1000, max: 500 }));
    assert_eq!(
        err.message(),
        "Invalid points filter: minimum points (10) cannot be greater than maximum points (5)"
    );
}

#[test]
fn test_validate_rejects_negative_exact() {
    let mut config = base_config();
    config.points_exact = Some(-250);
    let err = config.validate().unwrap_err();
    assert!(matches!(err, ConfigError::NegativePointsExact(-250)));
}

#[test]
fn test_validate_requires_auth_token_for_remote() {
    let mut config = base_config();
    config.database_url = Some("libsql://db.example.com".to_string());
    let err = config.validate().unwrap_err();
    assert!(matches!(err, ConfigError::MissingDatabaseAuthToken));

    config.database_auth_token = Some("token".to_string());
    assert!(config.validate().is_ok());
}

#[test]
fn test_validate_checks_email_settings() {
    let mut config = base_config();
    config.email_to = Some("a@b.com".to_string());
    let err = config.validate().unwrap_err();
    assert!(matches!(err, ConfigError::MissingEmailFrom));

    config.email_from = Some("Bot <bot@example.com>".to_string());
    assert!(config.validate().is_ok());

    config.email_to = Some("not-an-address".to_string());
    let err = config.validate().unwrap_err();
    assert!(matches!(err, ConfigError::InvalidEmailTo(_)));
}

#[test]
fn test_validate_checks_sms_settings() {
    let mut config = base_config();
    config.sms_to = Some("+4741234567".to_string());
    let err = config.validate().unwrap_err();
    assert!(matches!(err, ConfigError::MissingSmsFrom));

    config.sms_from = Some("+12025551234".to_string());
    assert!(config.validate().is_ok());

    config.sms_from = Some("12025551234".to_string());
    let err = config.validate().unwrap_err();
    assert!(matches!(err, ConfigError::InvalidSmsFrom(_)));
}

#[test]
fn test_validate_accepts_plain_config() {
    assert!(base_config().validate().is_ok());
}

#[test]
fn test_validate_interval_bounds() {
    let err = validate_interval(9).unwrap_err();
    assert_eq!(err, "Invalid interval: 9 seconds is too short. Minimum is 10 seconds.");
    assert!(validate_interval(10).is_ok());
    assert!(validate_interval(60).is_ok());
}

#[test]
fn test_sms_recipients_normalized() {
    let mut config = base_config();
    config.sms_to = Some("41234567, +47 412 34 568, nonsense".to_string());
    let recipients = config.sms_recipients();
    assert_eq!(recipients, vec!["+4741234567".to_string(), "+4741234568".to_string()]);
    assert!(config.sms_enabled());
}

#[test]
fn test_validate_rejects_dead_end_filter_expression() {
    let mut config = base_config();
    config.points_filter_expr = Some("nonsense".to_string());
    let err = config.validate().unwrap_err();
    assert!(matches!(err, ConfigError::UnparseableFilterExpression(_)));
    assert_eq!(
        err.message(),
        "Invalid points filter expression 'nonsense' and no numeric filter fields to fall back to"
    );

    // With a numeric field to fall back to, the expression may fail to parse.
    config.points_min = Some(250);
    assert!(config.validate().is_ok());
}

#[test]
fn test_validate_rejects_bad_database_url() {
    let mut config = base_config();
    config.database_url = Some("postgres://db".to_string());
    config.database_auth_token = Some("token".to_string());
    let err = config.validate().unwrap_err();
    assert!(matches!(err, ConfigError::InvalidDatabaseUrl(_)));
}

#[test]
fn test_validate_rejects_bad_from_address() {
    let mut config = base_config();
    config.email_to = Some("a@b.com".to_string());
    config.email_from = Some("Bot <not-an-address>".to_string());
    let err = config.validate().unwrap_err();
    assert!(matches!(err, ConfigError::InvalidEmailFrom(_)));
}
