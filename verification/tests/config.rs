use extension_catalog::config::{credentials_from, test_mode_from, Credentials};
use extension_catalog::model::ConfigError;

#[test]
fn both_settings_give_the_credential_pair() {
    assert_eq!(
        credentials_from(Some("alice".to_string()), Some("s3cret".to_string())),
        Ok(Credentials { user: "alice".to_string(), password: "s3cret".to_string() })
    );
}

#[test]
fn an_empty_setting_is_still_a_setting() {
    assert_eq!(
        credentials_from(Some(String::new()), Some(String::new())),
        Ok(Credentials { user: String::new(), password: String::new() })
    );
}

#[test]
fn an_absent_user_is_a_configuration_error() {
    assert_eq!(
        credentials_from(None, Some("s3cret".to_string())),
        Err(ConfigError { variable: "TYPO3NIX_USER".to_string() })
    );
}

#[test]
fn an_absent_password_is_a_configuration_error() {
    assert_eq!(
        credentials_from(Some("alice".to_string()), None),
        Err(ConfigError { variable: "TYPO3NIX_PASSWORD".to_string() })
    );
}

#[test]
fn the_user_is_reported_first_when_both_are_absent() {
    assert_eq!(
        credentials_from(None, None),
        Err(ConfigError { variable: "TYPO3NIX_USER".to_string() })
    );
}

#[test]
fn a_configuration_error_says_what_is_not_set() {
    let error = ConfigError { variable: "TYPO3NIX_USER".to_string() };
    assert_eq!(error.message(), "TYPO3NIX_USER not set");
}

#[test]
fn test_mode_is_on_for_the_value_one() {
    assert!(test_mode_from(Some("1")));
}

#[test]
fn test_mode_is_off_for_any_other_value() {
    for value in ["0", "", "true", "11", "01", "1 ", " 1", "yes", "١"] {
        assert!(!test_mode_from(Some(value)));
    }
}

#[test]
fn test_mode_is_off_when_the_setting_is_absent() {
    assert!(!test_mode_from(None));
}
