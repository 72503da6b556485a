use envsafe_cli::api::EnvVariable;
use envsafe_cli::config::Config;
use envsafe_cli::rotation::{
    generate_secret, is_excluded_by_pattern, needs_rotation, needs_rotation_at, rotate_values, rotation_due,
    secret_for, should_rotate,
};

fn var(k: &str, v: &str) -> EnvVariable {
    EnvVariable { key: k.to_string(), value: v.to_string(), updated_at: None }
}

#[test]
fn secret_is_hex_sha256_of_key_old_and_time() {
    assert_eq!(
        secret_for("old", "API_KEY", 1700000000),
        "bbb0430406a90b831bc0f9e779bde020ff785101ab57c507737e9eb25f65ea48"
    );
    let fresh = generate_secret("old", "API_KEY");
    assert_eq!(fresh.len(), 64);
    assert!(fresh.chars().all(|c| c.is_ascii_hexdigit() && !c.is_ascii_uppercase()));
}

#[test]
fn common_settings_are_excluded() {
    for k in ["NODE_ENV", "PORT", "HOST", "ENVIRONMENT", "DEBUG", "LOG_LEVEL", "DATABASE_URL", "CACHE_PATH", "_URL"] {
        assert!(is_excluded_by_pattern(k), "{}", k);
    }
    for k in ["API_KEY", "PORTS", "URL", "MY_URL_X", "debug"] {
        assert!(!is_excluded_by_pattern(k), "{}", k);
    }
}

#[test]
fn specific_list_overrides_exclusions() {
    let exclude = vec!["SECRET".to_string()];
    let specific = Some(vec!["PORT".to_string()]);
    assert!(should_rotate(&"PORT".to_string(), &specific, &exclude));
    assert!(!should_rotate(&"API_KEY".to_string(), &specific, &exclude));
    assert!(!should_rotate(&"SECRET".to_string(), &None, &exclude));
    assert!(!should_rotate(&"PORT".to_string(), &None, &exclude));
    assert!(should_rotate(&"API_KEY".to_string(), &None, &exclude));
}

#[test]
fn interval_is_compared_in_seconds() {
    assert!(rotation_due(30, 0, 30 * 86400));
    assert!(!rotation_due(30, 0, 30 * 86400 - 1));
    assert!(rotation_due(0, 10, 10));
    assert!(rotation_due(1, i64::MIN, i64::MAX));
}

#[test]
fn disabled_or_never_rotated() {
    let mut config = Config::default();
    assert!(!needs_rotation(&config.rotation));
    config.rotation.enabled = true;
    assert!(needs_rotation(&config.rotation));
    config.rotation.last_rotation = Some("not a date".to_string());
    assert!(needs_rotation(&config.rotation));
    config.rotation.last_rotation = Some("2999-01-01T00:00:00Z".to_string());
    assert!(!needs_rotation(&config.rotation));
    config.rotation.last_rotation = Some("2000-01-01T00:00:00+00:00".to_string());
    assert!(needs_rotation(&config.rotation));
}

#[test]
fn rotation_replaces_only_selected_values() {
    let vars = vec![var("API_KEY", "old"), var("PORT", "8080"), var("TOKEN", "t")];
    let out = rotate_values(&vars, &None, &vec!["TOKEN".to_string()], 1700000000, "2023-11-14T22:13:20Z");
    assert_eq!(out.rotated, 1);
    assert_eq!(out.variables.len(), 3);
    assert_eq!(out.variables[0].key, "API_KEY");
    assert_eq!(out.variables[0].value, "bbb0430406a90b831bc0f9e779bde020ff785101ab57c507737e9eb25f65ea48");
    assert_eq!(out.variables[0].updated_at.as_deref(), Some("2023-11-14T22:13:20Z"));
    assert_eq!(out.variables[1].value, "8080");
    assert!(out.variables[1].updated_at.is_none());
    assert_eq!(out.variables[2].value, "t");
}

#[test]
fn secret_input_writes_timestamp_in_decimal() {
    assert_eq!(secret_for("v", "K", -5), "62fb85774e7194f31fdb8217156f3a6a81029f8a52adb00e5e0c2526cec6e695");
    assert_eq!(secret_for("v", "K", 0), "eb0f768a432069a03d428deeed9408be478bc4bdf547b79e3b3e8cbb7e078840");
    assert_eq!(
        secret_for("v", "K", i64::MIN),
        "c13d0d0c10ba6f4b961d0f5e0281c0858998b185598fc37c4ea8c333836d2c84"
    );
}

#[test]
fn rotation_due_at_given_time() {
    let mut config = Config::default();
    assert!(!needs_rotation_at(&config.rotation, 0));
    config.rotation.enabled = true;
    assert!(needs_rotation_at(&config.rotation, 0));
    config.rotation.last_rotation = Some("1970-01-01T00:00:00Z".to_string());
    config.rotation.interval_days = 1;
    assert!(!needs_rotation_at(&config.rotation, 86399));
    assert!(needs_rotation_at(&config.rotation, 86400));
    assert!(!needs_rotation_at(&config.rotation, -5));
    config.rotation.last_rotation = Some("yesterday".to_string());
    assert!(needs_rotation_at(&config.rotation, -5));
}
