use annotation_store::settings::{
    debounce_ms, entry_limit, parse_setting, read_u64_env, DEFAULT_DEBOUNCE_MS,
    DEFAULT_ENTRY_LIMIT, ENV_CHECKPOINT_FILE, ENV_DEBOUNCE_MS, ENV_ENTRY_LIMIT,
};

#[test]
fn numbers_in_settings() {
    for (value, number) in [
        ("0", Some(0)),
        ("42", Some(42)),
        (" 42\n", Some(42)),
        ("\u{2003}7\u{85}", Some(7)),
        ("+7", Some(7)),
        ("007", Some(7)),
        ("18446744073709551615", Some(u64::MAX)),
        ("18446744073709551616", None),
        ("", None),
        ("+", None),
        ("++1", None),
        ("-1", None),
        ("1 2", None),
        ("1_000", None),
        ("0x10", None),
        ("\u{661}", None),
        ("\u{200b}7", None),
    ] {
        assert_eq!(parse_setting(value), number, "{value:?}");
        assert_eq!(read_u64_env(Some(value), 99), number.unwrap_or(99));
    }
    assert_eq!(read_u64_env(None, 99), 99);
}

#[test]
fn defaults_of_settings() {
    assert_eq!(DEFAULT_DEBOUNCE_MS, 1000);
    assert_eq!(DEFAULT_ENTRY_LIMIT, 10_000);
    assert_eq!(debounce_ms(None), 1000);
    assert_eq!(debounce_ms(Some("soon")), 1000);
    assert_eq!(debounce_ms(Some("5")), 5);
    assert_eq!(entry_limit(None), 10_000);
    assert_eq!(entry_limit(Some("1")), 1);
    assert_eq!(entry_limit(Some("18446744073709551615")), usize::MAX);
    assert_eq!(ENV_DEBOUNCE_MS, "NVNMOSD_ANNOTATION_DEBOUNCE_MS");
    assert_eq!(ENV_ENTRY_LIMIT, "NVNMOSD_ANNOTATION_ENTRY_LIMIT");
    assert_eq!(ENV_CHECKPOINT_FILE, "NVNMOSD_ANNOTATION_CHECKPOINT_FILE");
}
