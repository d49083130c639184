use amdfand::config::{Config, ConfigError, MatrixPoint};
use amdfand::device::{AmdGpuError, LogLevel, TempInput};
use amdfand::error::VoltageError;

#[test]
fn voltage_error_wraps_config_error() {
    let source = ConfigError::FanSpeedTooLow { value: -1, index: 0 };
    let wrapped = VoltageError::from(source);
    assert!(matches!(
        wrapped,
        VoltageError::Config(ConfigError::FanSpeedTooLow { value: -1, index: 0 })
    ));
}

#[test]
fn voltage_error_wraps_parse_error() {
    let source = AmdGpuError::InvalidCard("weird".to_string());
    let wrapped = VoltageError::from(source);
    assert!(matches!(wrapped, VoltageError::AmdGpu(_)));
}

#[test]
fn config_round_trips_its_parts() {
    let config = Config::new(
        Some(vec!["card0".to_string()]),
        LogLevel::Info,
        vec![MatrixPoint { temp: 0, speed: 0 }],
        Some(TempInput(3)),
    );
    assert_eq!(config.cards(), Some(&vec!["card0".to_string()]));
    assert_eq!(config.log_level(), LogLevel::Info);
    assert_eq!(
        config.speed_matrix(),
        &vec![MatrixPoint { temp: 0, speed: 0 }]
    );
    assert_eq!(config.temp_input(), Some(&TempInput(3)));
}
