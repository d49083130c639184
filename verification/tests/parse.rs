use amdfand::device::{AmdGpuError, Card, TempInput};

#[test]
fn parse_card0() {
    assert_eq!("card0".parse::<Card>(), Ok(Card(0)))
}

#[test]
fn parse_card1() {
    assert_eq!("card1".parse::<Card>(), Ok(Card(1)))
}

#[test]
fn parse_invalid_temp_input() {
    assert_eq!(
        "".parse::<TempInput>(),
        Err(AmdGpuError::InvalidTempInput("".to_string()))
    );
    assert_eq!(
        "12".parse::<TempInput>(),
        Err(AmdGpuError::InvalidTempInput("12".to_string()))
    );
    assert_eq!(
        "temp12".parse::<TempInput>(),
        Err(AmdGpuError::InvalidTempInput("temp12".to_string()))
    );
    assert_eq!(
        "12_input".parse::<TempInput>(),
        Err(AmdGpuError::InvalidTempInput("12_input".to_string()))
    );
    assert_eq!(
        "temp_12_input".parse::<TempInput>(),
        Err(AmdGpuError::InvalidTempInput("temp_12_input".to_string()))
    );
}

#[test]
fn parse_valid_temp_input() {
    assert_eq!("temp12_input".parse::<TempInput>(), Ok(TempInput(12)));
}

#[test]
fn parse_invalid_cards() {
    assert_eq!(
        "cardX".parse::<Card>(),
        Err(AmdGpuError::InvalidCard("cardX".to_string()))
    );
    assert_eq!(
        "0".parse::<Card>(),
        Err(AmdGpuError::InvalidCard("0".to_string()))
    );
    assert_eq!(
        "".parse::<Card>(),
        Err(AmdGpuError::InvalidCard("".to_string()))
    );
    assert_eq!(
        "card".parse::<Card>(),
        Err(AmdGpuError::InvalidCard("card".to_string()))
    );
    assert_eq!(
        "card1x".parse::<Card>(),
        Err(AmdGpuError::InvalidCard("card1x".to_string()))
    );
}

#[test]
fn parse_card_large_index() {
    assert_eq!("card4294967295".parse::<Card>(), Ok(Card(u32::MAX)));
    // One past u32::MAX no longer parses.
    assert_eq!(
        "card4294967296".parse::<Card>(),
        Err(AmdGpuError::InvalidCard("card4294967296".to_string()))
    );
}

#[test]
fn parse_temp_input_edges() {
    assert_eq!("temp0_input".parse::<TempInput>(), Ok(TempInput(0)));
    assert_eq!(
        "temp_input".parse::<TempInput>(),
        Err(AmdGpuError::InvalidTempInput("temp_input".to_string()))
    );
    assert_eq!(
        "temp12_inputx".parse::<TempInput>(),
        Err(AmdGpuError::InvalidTempInput("temp12_inputx".to_string()))
    );
}
