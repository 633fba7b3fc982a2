use tower_defense::guards::{
    should_timeout, validate_string_length, validate_wave_number, validate_wave_timing,
    MAX_GAME_TICKS, MAX_WAVE_NUMBER,
};

#[test]
fn test_validate_string_length() {
    assert!(validate_string_length("short", 10, "test").is_ok());
    assert!(validate_string_length("very long string that exceeds limit", 10, "test").is_err());
}

#[test]
fn test_validate_wave_timing() {
    assert!(validate_wave_timing(0, 6_000_000).is_ok());
    assert!(validate_wave_timing(0, 3_000_000).is_err());
}

#[test]
fn test_should_timeout() {
    assert!(!should_timeout(100));
    assert!(should_timeout(MAX_GAME_TICKS));
    assert!(should_timeout(MAX_GAME_TICKS + 1));
}

#[test]
fn test_validate_wave_number() {
    assert!(validate_wave_number(50).is_ok());
    assert!(validate_wave_number(MAX_WAVE_NUMBER).is_ok());
    assert!(validate_wave_number(MAX_WAVE_NUMBER + 1).is_err());
}

#[test]
fn string_length_message_and_bounds() {
    assert!(validate_string_length("abcde", 5, "name").is_ok());
    assert_eq!(
        validate_string_length("abcdef", 5, "name"),
        Err("name exceeds maximum length of 5".to_string())
    );
    assert!(validate_wave_timing(1_000_000, 6_000_000).is_ok());
    assert!(validate_wave_timing(1_000_001, 6_000_000).is_err());
    assert!(validate_wave_timing(9_000_000, 1_000_000).is_err());
}
