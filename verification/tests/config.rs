use tower_defense::config::{get_config, parse_count, Config, ConfigError, CountError};

#[test]
fn the_default_is_ten_towers_ten_units_running() {
    let config = Config::default();
    assert_eq!(config, Config { paused: false, towers: 10, units: 10 });
}

#[test]
fn a_count_is_read_from_its_digits() {
    assert_eq!(parse_count("0"), Ok(0));
    assert_eq!(parse_count("7"), Ok(7));
    assert_eq!(parse_count("10"), Ok(10));
    assert_eq!(parse_count("1234567890"), Ok(1_234_567_890));
    assert_eq!(parse_count("007"), Ok(7));
    assert_eq!(parse_count("+42"), Ok(42));
}

#[test]
fn the_largest_count_is_read_and_the_next_is_too_large() {
    let largest = format!("{}", usize::MAX);
    assert_eq!(parse_count(&largest), Ok(usize::MAX));
    let next = format!("{}", usize::MAX as u128 + 1);
    assert_eq!(parse_count(&next), Err(CountError::TooLarge));
    assert_eq!(
        parse_count("99999999999999999999999999999999"),
        Err(CountError::TooLarge)
    );
    let padded = format!("000000000000000000000000{}", usize::MAX);
    assert_eq!(parse_count(&padded), Ok(usize::MAX));
}

#[test]
fn an_empty_text_is_no_count() {
    assert_eq!(parse_count(""), Err(CountError::Empty));
}

#[test]
fn a_text_with_something_else_than_digits_is_no_count() {
    assert_eq!(parse_count("-5"), Err(CountError::InvalidDigit));
    assert_eq!(parse_count("-"), Err(CountError::InvalidDigit));
    assert_eq!(parse_count("+"), Err(CountError::InvalidDigit));
    assert_eq!(parse_count("++1"), Err(CountError::InvalidDigit));
    assert_eq!(parse_count("1+"), Err(CountError::InvalidDigit));
    assert_eq!(parse_count("ten"), Err(CountError::InvalidDigit));
    assert_eq!(parse_count("1 0"), Err(CountError::InvalidDigit));
    assert_eq!(parse_count(" 10"), Err(CountError::InvalidDigit));
    assert_eq!(parse_count("10 "), Err(CountError::InvalidDigit));
    assert_eq!(parse_count("1.5"), Err(CountError::InvalidDigit));
    assert_eq!(parse_count("0x10"), Err(CountError::InvalidDigit));
    assert_eq!(parse_count("١٢"), Err(CountError::InvalidDigit));
    assert_eq!(parse_count("1é"), Err(CountError::InvalidDigit));
    assert_eq!(parse_count("/"), Err(CountError::InvalidDigit));
    assert_eq!(parse_count(":"), Err(CountError::InvalidDigit));
}

#[test]
fn a_bad_digit_counts_before_the_size() {
    assert_eq!(
        parse_count("99999999999999999999999999999999x"),
        Err(CountError::InvalidDigit)
    );
}

#[test]
fn the_counts_agree_with_the_standard_parser() {
    for text in ["0", "1", "+1", "18446744073709551615", "000", "+0009"] {
        assert_eq!(parse_count(text).ok(), text.parse::<usize>().ok());
    }
    for text in ["", "+", "-", "-1", "a", "1a", "18446744073709551616", " 1", "+-1"] {
        assert!(parse_count(text).is_err());
        assert!(text.parse::<usize>().is_err());
    }
}

#[test]
fn a_configuration_takes_what_was_typed() {
    assert_eq!(
        get_config(true, Some("3"), Some("250")),
        Ok(Config { paused: true, towers: 3, units: 250 })
    );
    assert_eq!(
        get_config(false, Some("0"), Some("0")),
        Ok(Config { paused: false, towers: 0, units: 0 })
    );
}

#[test]
fn a_configuration_falls_back_on_the_default_counts() {
    assert_eq!(
        get_config(false, None, None),
        Ok(Config { paused: false, towers: 10, units: 10 })
    );
    assert_eq!(
        get_config(true, None, Some("4")),
        Ok(Config { paused: true, towers: 10, units: 4 })
    );
    assert_eq!(
        get_config(false, Some("4"), None),
        Ok(Config { paused: false, towers: 4, units: 10 })
    );
}

#[test]
fn a_configuration_names_the_count_it_refuses() {
    assert_eq!(
        get_config(false, Some("-1"), Some("5")),
        Err(ConfigError::Towers(CountError::InvalidDigit))
    );
    assert_eq!(
        get_config(false, Some("5"), Some("many")),
        Err(ConfigError::Units(CountError::InvalidDigit))
    );
    assert_eq!(
        get_config(false, Some(""), Some("5")),
        Err(ConfigError::Towers(CountError::Empty))
    );
    assert_eq!(
        get_config(false, Some("5"), Some("")),
        Err(ConfigError::Units(CountError::Empty))
    );
    assert_eq!(
        get_config(false, Some("5"), Some("99999999999999999999999")),
        Err(ConfigError::Units(CountError::TooLarge))
    );
    assert_eq!(
        get_config(false, Some("99999999999999999999999"), None),
        Err(ConfigError::Towers(CountError::TooLarge))
    );
}

#[test]
fn a_configuration_looks_at_the_towers_first() {
    assert_eq!(
        get_config(false, Some(""), Some("x")),
        Err(ConfigError::Towers(CountError::Empty))
    );
}
