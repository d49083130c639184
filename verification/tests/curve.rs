use amdfand::config::{Config, ConfigError, MatrixPoint};
use amdfand::device::LogLevel;

/// Round a fixed-point milli value to the nearest whole unit.
fn round_unit(v: i64) -> i64 {
    (v + 500) / 1000
}

fn curve_config(points: Vec<MatrixPoint>) -> Config {
    Config::new(None, LogLevel::Error, points, None)
}

#[test]
fn below_minimal() {
    let config = Config::default();
    assert_eq!(config.speed_for_temp(1_000), 4_000);
}

#[test]
fn minimal() {
    let config = Config::default();
    assert_eq!(config.speed_for_temp(4_000), 4_000);
}

#[test]
fn between_3_and_4_temp_46() {
    let config = Config::default();
    // 45 -> 50
    // 60 -> 66
    assert_eq!(round_unit(config.speed_for_temp(46_000)), 51);
}

#[test]
fn between_3_and_4_temp_58() {
    let config = Config::default();
    // 45 -> 50
    // 60 -> 66
    assert_eq!(round_unit(config.speed_for_temp(58_000)), 64);
}

#[test]
fn between_3_and_4_temp_59() {
    let config = Config::default();
    // 45 -> 50
    // 60 -> 66
    assert_eq!(round_unit(config.speed_for_temp(59_000)), 65);
}

#[test]
fn average() {
    let config = Config::default();
    assert_eq!(config.speed_for_temp(60_000), 66_000);
}

#[test]
fn max() {
    let config = Config::default();
    assert_eq!(config.speed_for_temp(80_000), 100_000);
}

#[test]
fn above_max() {
    let config = Config::default();
    assert_eq!(config.speed_for_temp(160_000), 100_000);
}

#[test]
fn interpolated_value_exact() {
    let config = Config::default();
    // 50 + (66 - 50) / (60 - 45) * (46 - 45) = 51.0666..., floored to the
    // fixed-point grid.
    assert_eq!(config.speed_for_temp(46_000), 51_066);
}

#[test]
fn empty_curve_falls_back_to_zero() {
    let config = curve_config(vec![]);
    assert_eq!(config.validate(), Ok(()));
    assert_eq!(config.speed_for_temp(-40_000), 0);
    assert_eq!(config.speed_for_temp(0), 0);
    assert_eq!(config.speed_for_temp(300_000), 0);
}

#[test]
fn equal_temperature_plateau() {
    // Equal adjacent temperatures with rising speed are legal; at the
    // shared temperature the rightmost point wins.
    let config = curve_config(vec![
        MatrixPoint { temp: 10_000, speed: 10_000 },
        MatrixPoint { temp: 10_000, speed: 40_000 },
        MatrixPoint { temp: 20_000, speed: 60_000 },
    ]);
    assert_eq!(config.validate(), Ok(()));
    assert_eq!(config.speed_for_temp(9_000), 10_000);
    assert_eq!(config.speed_for_temp(10_000), 40_000);
    assert_eq!(config.speed_for_temp(20_000), 60_000);
}

#[test]
fn default_curve_validates() {
    let config = Config::default();
    assert_eq!(config.validate(), Ok(()));
    assert_eq!(config.log_level(), LogLevel::Error);
    assert!(config.cards().is_none());
    assert_eq!(config.temp_input().map(|t| t.0), Some(1));
}

#[test]
fn validate_speed_too_low() {
    let config = curve_config(vec![
        MatrixPoint { temp: 0, speed: 0 },
        MatrixPoint { temp: 10_000, speed: -1 },
    ]);
    assert_eq!(
        config.validate(),
        Err(ConfigError::FanSpeedTooLow { value: -1, index: 1 })
    );
}

#[test]
fn validate_speed_too_high() {
    let config = curve_config(vec![MatrixPoint { temp: 0, speed: 100_001 }]);
    assert_eq!(
        config.validate(),
        Err(ConfigError::FanSpeedTooHigh { value: 100_001, index: 0 })
    );
}

#[test]
fn validate_unsorted_speed() {
    let config = curve_config(vec![
        MatrixPoint { temp: 0, speed: 50_000 },
        MatrixPoint { temp: 10_000, speed: 40_000 },
    ]);
    assert_eq!(
        config.validate(),
        Err(ConfigError::UnsortedFanSpeed { current: 40_000, index: 1, last: 50_000 })
    );
}

#[test]
fn validate_unsorted_temp() {
    let config = curve_config(vec![
        MatrixPoint { temp: 20_000, speed: 40_000 },
        MatrixPoint { temp: 10_000, speed: 50_000 },
    ]);
    assert_eq!(
        config.validate(),
        Err(ConfigError::UnsortedFanTemp { current: 10_000, index: 1, last: 20_000 })
    );
}

#[test]
fn validate_reports_first_violation() {
    // Both entries are bad; the scan is fail-fast and reports the first.
    let config = curve_config(vec![
        MatrixPoint { temp: 0, speed: -5 },
        MatrixPoint { temp: 10_000, speed: 200_000 },
    ]);
    assert_eq!(
        config.validate(),
        Err(ConfigError::FanSpeedTooLow { value: -5, index: 0 })
    );
}
