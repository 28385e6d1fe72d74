use batty::config::{log_level, parse_duration, Config, LogLevel, Units};

#[test]
fn units_names_in_any_case() {
    assert_eq!(Units::parse("human"), Ok(Units::Human));
    assert_eq!(Units::parse("HuMaN"), Ok(Units::Human));
    assert_eq!(Units::parse("si"), Ok(Units::Si));
    assert_eq!(Units::parse("SI"), Ok(Units::Si));
    assert_eq!("Si".parse::<Units>(), Ok(Units::Si));
}

#[test]
fn unknown_units_are_refused() {
    assert_eq!(
        Units::parse("metric"),
        Err("unknown units `metric` (expected `human` or `si`)".to_string())
    );
    assert!(Units::parse("humans").is_err());
    assert!(Units::parse("").is_err());
}

#[test]
fn default_units_are_human() {
    assert_eq!(Units::default(), Units::Human);
}

#[test]
fn delay_must_be_a_positive_number() {
    assert_eq!(parse_duration("1"), Ok(1));
    assert_eq!(parse_duration("25"), Ok(25));
    assert_eq!(parse_duration("+3"), Ok(3));
    assert_eq!(parse_duration("18446744073709551615"), Ok(u64::MAX));
    assert_eq!(parse_duration("0"), Err("0 isn't a positive number".to_string()));
    assert_eq!(parse_duration("-2"), Err("-2 isn't a positive number".to_string()));
    assert_eq!(parse_duration("abc"), Err("abc isn't a positive number".to_string()));
    assert_eq!(parse_duration(""), Err(" isn't a positive number".to_string()));
    assert_eq!(parse_duration("+"), Err("+ isn't a positive number".to_string()));
    assert_eq!(parse_duration("1.5"), Err("1.5 isn't a positive number".to_string()));
    assert_eq!(
        parse_duration("18446744073709551616"),
        Err("18446744073709551616 isn't a positive number".to_string())
    );
}

#[test]
fn config_getters() {
    let c = Config::new(3, 2, Units::Si);
    assert_eq!(c.verbosity(), 3);
    assert_eq!(c.delay(), 2);
    assert_eq!(c.units(), Units::Si);
}

#[test]
fn verbosity_selects_log_level() {
    assert_eq!(log_level(0), LogLevel::Error);
    assert_eq!(log_level(1), LogLevel::Warn);
    assert_eq!(log_level(2), LogLevel::Info);
    assert_eq!(log_level(3), LogLevel::Debug);
    assert_eq!(log_level(4), LogLevel::Trace);
    assert_eq!(log_level(200), LogLevel::Trace);
}
