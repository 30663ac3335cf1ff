use paddledesk::model::{OcrError, ServiceId};
use paddledesk::queue::submission_failure_message;
use paddledesk::settings::{
    current_service_setting, is_secret_setting_key, persist_results_setting, public_settings,
    screenshot_hotkey_setting, validate_setting_keys, SCREENSHOT_SHORTCUT,
};
use paddledesk::shortcut::{is_function_key, normalize_shortcut, registration_shortcut};
use paddledesk::credentials::{
    after_probe, credential_failure, credential_status, delete_outcome, delete_token,
    ensure_token_configured, load_token, save_token, CredentialOp, TokenValidation,
};

fn pairs(items: &[(&str, &str)]) -> Vec<(String, String)> {
    items
        .iter()
        .map(|(key, value)| (key.to_string(), value.to_string()))
        .collect()
}

#[test]
fn settings_reject_token_keys_before_storage() {
    let secret = pairs(&[("access_token", "test-secret")]);
    let ordinary = pairs(&[("theme", "dark")]);

    assert!(validate_setting_keys(&secret).is_err());
    assert!(validate_setting_keys(&ordinary).is_ok());
}

#[test]
fn settings_reject_invalid_enum_values() {
    for invalid in [
        pairs(&[("language", "fr")]),
        pairs(&[("theme", "sepia")]),
        pairs(&[("proxy_mode", "auto")]),
        pairs(&[("concurrency", "8")]),
        pairs(&[("onboarding_complete", "yes")]),
    ] {
        assert!(validate_setting_keys(&invalid).is_err());
    }
}

#[test]
fn screenshot_shortcuts_require_a_real_key_and_normalize_modifiers() {
    assert_eq!(normalize_shortcut("f8").unwrap(), "F8");
    assert_eq!(normalize_shortcut("win+shift+x").unwrap(), "Win+Shift+X");
    assert_eq!(normalize_shortcut("alt+ctrl+s").unwrap(), "Ctrl+Alt+S");
    assert_eq!(
        normalize_shortcut("ctrl+alt+win+shift+s").unwrap(),
        "Ctrl+Alt+Win+Shift+S"
    );
    for invalid in ["S", "Ctrl", "Ctrl+Alt", "F13", "Ctrl+S+X"] {
        assert!(normalize_shortcut(invalid).is_err(), "{invalid}");
    }
}

#[test]
fn setting_errors_name_the_offending_key() {
    assert_eq!(
        validate_setting_keys(&pairs(&[("Access_Token", "x")])).unwrap_err(),
        "setting 'Access_Token' must use Windows Credential Manager"
    );
    assert_eq!(
        validate_setting_keys(&pairs(&[("theme", "sepia")])).unwrap_err(),
        "invalid value for setting 'theme'"
    );
    assert!(validate_setting_keys(&pairs(&[
        ("language", "zh-CN"),
        ("concurrency", "4"),
        ("save_history", "0"),
        ("current_service", "structure_v3"),
        ("custom_key", "anything"),
    ]))
    .is_ok());
    assert!(validate_setting_keys(&Vec::new()).is_ok());
}

#[test]
fn secret_keys_are_detected_without_case() {
    assert!(is_secret_setting_key("ACCESS_TOKEN"));
    assert!(is_secret_setting_key("refreshToken"));
    assert!(!is_secret_setting_key("theme"));
    assert!(!is_secret_setting_key("tok"));
}

#[test]
fn public_settings_drop_token_keys_and_keep_order() {
    let visible = public_settings(pairs(&[
        ("theme", "dark"),
        ("access_token", "secret"),
        ("language", "en"),
    ]));
    assert_eq!(visible, pairs(&[("theme", "dark"), ("language", "en")]));
}

#[test]
fn save_history_setting_controls_result_persistence() {
    assert_eq!(persist_results_setting(&pairs(&[("save_history", "1")])), Some(true));
    assert_eq!(persist_results_setting(&pairs(&[("save_history", "0")])), Some(false));
    assert_eq!(persist_results_setting(&pairs(&[("theme", "dark")])), None);
}

#[test]
fn stored_current_service_is_parsed_or_rejected() {
    assert_eq!(current_service_setting(None), Ok(ServiceId::Vl16));
    assert_eq!(
        current_service_setting(Some("pp_ocr_v6".into())),
        Ok(ServiceId::PpOcrV6)
    );
    assert_eq!(
        current_service_setting(Some("gpt".into())),
        Err("invalid stored current service".to_string())
    );
}

#[test]
fn screenshot_hotkey_defaults_to_ctrl_alt_s() {
    assert_eq!(screenshot_hotkey_setting(None), SCREENSHOT_SHORTCUT);
    assert_eq!(screenshot_hotkey_setting(Some("F8".into())), "F8");
}

#[test]
fn shortcut_errors_are_exact() {
    assert_eq!(
        normalize_shortcut("S").unwrap_err(),
        "single-key shortcuts must be F1-F12"
    );
    assert_eq!(
        normalize_shortcut("Ctrl+Alt+Shift+Win+Meta+S").unwrap_err(),
        "shortcut must contain 2 to 5 keys"
    );
    assert_eq!(
        normalize_shortcut("Ctrl+Control+S").unwrap_err(),
        "shortcut contains a duplicate modifier"
    );
    assert_eq!(
        normalize_shortcut("Ctrl+S+X").unwrap_err(),
        "shortcut must contain exactly one main key"
    );
    assert_eq!(
        normalize_shortcut("Ctrl+Alt").unwrap_err(),
        "shortcut is missing a main key"
    );
    assert_eq!(
        normalize_shortcut("S+X").unwrap_err(),
        "shortcut must contain exactly one main key"
    );
    assert_eq!(normalize_shortcut(" ctrl + f12 ").unwrap(), "Ctrl+F12");
    assert_eq!(normalize_shortcut("super+1").unwrap(), "Win+1");
}

#[test]
fn function_keys_are_f1_to_f12() {
    assert!(is_function_key("F1"));
    assert!(is_function_key("F12"));
    assert!(!is_function_key("F0"));
    assert!(!is_function_key("F13"));
    assert!(!is_function_key("f5"));
    assert!(!is_function_key("F"));
}

#[test]
fn registration_spells_win_as_super() {
    assert_eq!(registration_shortcut("Win+Shift+X"), "Super+Shift+X");
    assert_eq!(registration_shortcut("Ctrl+Alt+S"), "Ctrl+Alt+S");
}

#[test]
fn failed_capture_cleanup_is_appended_to_the_message() {
    assert_eq!(
        submission_failure_message("queue closed".into(), Ok(true)),
        "queue closed"
    );
    assert_eq!(
        submission_failure_message("queue closed".into(), Err("locked".into())),
        "queue closed; capture cleanup failed: locked"
    );
}

#[test]
fn credential_status_reports_the_last_four_characters() {
    let status = credential_status(Ok("abcdef123456".into())).unwrap();
    assert!(status.configured);
    assert_eq!(status.last_four.as_deref(), Some("3456"));
    let missing = credential_status(Err(OcrError::Auth)).unwrap();
    assert!(!missing.configured);
    assert_eq!(missing.last_four, None);
    let blank = credential_status(Ok("   ".into())).unwrap();
    assert!(!blank.configured);
    assert!(credential_status(Err(OcrError::Internal("locked".into()))).is_err());
}

#[test]
fn token_must_be_configured_before_recognition() {
    assert!(ensure_token_configured(Ok("secret".into())).is_ok());
    assert!(ensure_token_configured(Ok(" ".into())).is_err());
    assert!(ensure_token_configured(Err(OcrError::Auth)).is_err());
}

#[test]
fn deleting_a_missing_token_succeeds() {
    assert!(delete_outcome(Ok(())).is_ok());
    assert!(delete_outcome(Err(OcrError::Auth)).is_ok());
    assert!(delete_outcome(Err(OcrError::Internal("denied".into()))).is_err());
}

#[test]
fn token_is_stored_only_after_an_accepting_probe() {
    assert!(matches!(after_probe(Ok(true)), TokenValidation::Store));
    assert!(matches!(after_probe(Ok(false)), TokenValidation::Rejected));
    assert!(matches!(
        after_probe(Err(OcrError::Network("offline".into()))),
        TokenValidation::Failed(_)
    ));
}

#[test]
fn credential_store_needs_windows() {
    assert_eq!(load_token(), Err(OcrError::Auth));
    assert_eq!(
        save_token("secret"),
        Err(OcrError::Internal("Windows Credential Manager is unavailable".into()))
    );
    assert_eq!(
        delete_token(),
        Err(OcrError::Internal("Windows Credential Manager is unavailable".into()))
    );
}

#[test]
fn missing_credentials_read_as_auth_failures() {
    assert_eq!(credential_failure(CredentialOp::Read, true, "no entry"), OcrError::Auth);
    assert!(matches!(
        credential_failure(CredentialOp::Write, false, "denied"),
        OcrError::Internal(_)
    ));
}

#[test]
fn canonical_shortcuts_normalise_to_themselves() {
    for input in ["f8", "win+shift+x", "alt+ctrl+s", " meta + 7 ", "shift+control+F11"] {
        let canonical = normalize_shortcut(input).unwrap();
        assert_eq!(normalize_shortcut(&canonical).unwrap(), canonical, "{input}");
    }
}

#[test]
fn normalised_shortcuts_list_modifiers_in_canonical_order() {
    let canonical = normalize_shortcut("shift+x+alt").unwrap();
    let keys: Vec<&str> = canonical.split('+').collect();
    assert_eq!(keys, vec!["Alt", "Shift", "X"]);
    assert!(normalize_shortcut("ctrl+control+s").is_err());
}
