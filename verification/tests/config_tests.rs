use loadmodel::config::{cost_at, parse_u64_dec, ConfigError, Mode, ModelConfig};

#[test]
fn latency_item_plain_number() {
    assert_eq!(ModelConfig::parse_latency_item("300"), Ok(vec![300]));
}

#[test]
fn latency_item_repetition() {
    assert_eq!(ModelConfig::parse_latency_item("300*3"), Ok(vec![300, 300, 300]));
}

#[test]
fn latency_list_comma_separated() {
    assert_eq!(
        ModelConfig::parse_latency_list("200,200,200,500"),
        Ok(vec![200, 200, 200, 500])
    );
}

#[test]
fn latency_duration_string() {
    assert_eq!(ModelConfig::parse_latency("1s"), Ok(1000));
    assert_eq!(ModelConfig::parse_latency("300ms"), Ok(300));
}

#[test]
fn latency_item_duration_repetition() {
    assert_eq!(ModelConfig::parse_latency_item("2s*2"), Ok(vec![2000, 2000]));
}

#[test]
fn latency_item_zero_count() {
    assert_eq!(ModelConfig::parse_latency_item("300*0"), Ok(vec![]));
}

#[test]
fn latency_item_extra_star_segment_is_ignored() {
    // the count is read between the first star and the next
    assert_eq!(ModelConfig::parse_latency_item("300*3*9"), Ok(vec![300, 300, 300]));
}

#[test]
fn latency_illegal_value_is_an_error() {
    assert_eq!(ModelConfig::parse_latency("abc"), Err(ConfigError::IllegalNumeric));
    assert_eq!(ModelConfig::parse_latency(""), Err(ConfigError::IllegalNumeric));
}

#[test]
fn latency_item_missing_count_is_an_error() {
    assert_eq!(
        ModelConfig::parse_latency_item("300*"),
        Err(ConfigError::IllegalNumeric)
    );
    assert_eq!(
        ModelConfig::parse_latency_item("*3"),
        Err(ConfigError::IllegalNumeric)
    );
}

#[test]
fn latency_list_propagates_errors() {
    assert_eq!(
        ModelConfig::parse_latency_list("200,abc"),
        Err(ConfigError::IllegalNumeric)
    );
    assert_eq!(
        ModelConfig::parse_latency_list("200,"),
        Err(ConfigError::IllegalNumeric)
    );
}

#[test]
fn plain_decimal_bounds() {
    assert_eq!(parse_u64_dec("18446744073709551615"), Some(u64::MAX));
    assert_eq!(parse_u64_dec("18446744073709551616"), None);
    assert_eq!(parse_u64_dec(""), None);
    assert_eq!(parse_u64_dec("12x"), None);
    assert_eq!(parse_u64_dec("0"), Some(0));
}

#[test]
fn plain_decimal_accepts_one_leading_plus() {
    assert_eq!(parse_u64_dec("+12"), Some(12));
    assert_eq!(parse_u64_dec("+"), None);
    assert_eq!(parse_u64_dec("++1"), None);
    assert_eq!(ModelConfig::parse_latency("+300"), Ok(300));
    assert_eq!(ModelConfig::parse_latency_item("300*+3"), Ok(vec![300, 300, 300]));
}

#[test]
fn long_literals_are_read_as_plain_numbers_only() {
    // twenty-one characters: past the duration-parser bound, but still
    // a plain number thanks to the leading zero
    assert_eq!(ModelConfig::parse_latency("000000000000000000300"), Ok(300));
    // a spelled-out duration past the bound is rejected
    assert_eq!(
        ModelConfig::parse_latency("1hour 30minutes 45seconds"),
        Err(ConfigError::IllegalNumeric)
    );
    // at the bound the duration parser still applies
    assert_eq!(ModelConfig::parse_latency("1hour 30m 45seconds"), Ok(5445000));
}

#[test]
fn costs_cycle_through_the_distribution() {
    let dist = vec![200u64, 500, 900];
    let picks: Vec<u64> = (0..7).map(|i| cost_at(&dist, i)).collect();
    assert_eq!(picks, vec![200, 500, 900, 200, 500, 900, 200]);
}

#[test]
fn python_path_defaults() {
    let cfg = ModelConfig {
        name: "run".to_string(),
        n_jobs: 10,
        rps: 100,
        latency_distribution: vec![50],
        python_path: None,
        mode: Mode::Async,
    };
    assert_eq!(cfg.get_python_path(), Some("/usr/bin/python3"));
}

#[test]
fn python_path_passes_through() {
    let cfg = ModelConfig {
        name: "run".to_string(),
        n_jobs: 10,
        rps: 100,
        latency_distribution: vec![50],
        python_path: Some("/opt/py/bin/python3".to_string()),
        mode: Mode::Sync(4),
    };
    assert_eq!(cfg.get_python_path(), Some("/opt/py/bin/python3"));
}
