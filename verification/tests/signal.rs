use event_pulse::error::AppError;
use event_pulse::models::{MilitaryTime, SignalTrigger};

#[test]
fn test_from_str_valid_input() {
    // Valid input: "M16:30:25::I86400"
    let input = "M16:30:25::I86400";
    let expected_time = MilitaryTime::new(16, 30, 25);
    let expected_trigger = SignalTrigger::new(expected_time, 86400);

    assert_eq!(SignalTrigger::from_str(input), Ok(expected_trigger));
}

#[test]
fn test_from_str_invalid_format() {
    // Invalid input: missing time component
    let input = "::I86400";
    let result = SignalTrigger::from_str(input);
    assert!(result.is_err());

    // Invalid input: missing interval component
    let input = "M16:30:25::";
    let result = SignalTrigger::from_str(input);
    assert!(result.is_err());

    // Invalid input: missing both time and interval components
    let input = "::";
    let result = SignalTrigger::from_str(input);
    assert!(result.is_err());

    // Invalid input: missing delimiter and interval component
    let input = "16:30:25::";
    let result = SignalTrigger::from_str(input);
    assert!(result.is_err());

    // Invalid input: missing time component
    let input = "M::I86400";
    let result = SignalTrigger::from_str(input);
    assert!(result.is_err());

    // Invalid input: missing interval value
    let input = "M16:30:25::I";
    let result = SignalTrigger::from_str(input);
    assert!(result.is_err());
}

#[test]
fn test_from_str_invalid_interval() {
    // Invalid input: invalid interval value
    let input = "M16:30:25::Iinvalid";
    let result = SignalTrigger::from_str(input);
    assert!(result.is_err());
}

fn parse_error(text: &str) -> Result<SignalTrigger, AppError> {
    Err(AppError::ParseError(text.to_string()))
}

fn format_error() -> Result<SignalTrigger, AppError> {
    Err(AppError::InvalidInputString("Invalid signal trigger format".to_string()))
}

#[test]
fn signal_trigger_errors_by_kind() {
    assert_eq!(SignalTrigger::from_str("::"), format_error());
    assert_eq!(SignalTrigger::from_str(""), format_error());
    assert_eq!(SignalTrigger::from_str("M16:30:25::"), format_error());
    assert_eq!(SignalTrigger::from_str("16:30:25::"), format_error());
    assert_eq!(SignalTrigger::from_str("M16:30:25::i86400"), format_error());
    assert_eq!(SignalTrigger::from_str("M16:30:25::I1::I2"), format_error());
    assert_eq!(
        SignalTrigger::from_str("::I86400"),
        parse_error(
            "Failed to parse signal trigger time: Invalid string format: Invalid military time format"
        )
    );
    assert_eq!(
        SignalTrigger::from_str("M::I86400"),
        parse_error(
            "Failed to parse signal trigger time: Invalid string format: Invalid military time format"
        )
    );
    assert_eq!(
        SignalTrigger::from_str("Mxx:30:25::I86400"),
        parse_error(
            "Failed to parse signal trigger time: Parse error: Failed to parse military time hour"
        )
    );
    assert_eq!(
        SignalTrigger::from_str("M16:30:::I86400"),
        parse_error(
            "Failed to parse signal trigger time: Parse error: Failed to parse military time seconds"
        )
    );
    assert_eq!(
        SignalTrigger::from_str("M16:30:25::I"),
        parse_error("Failed to parse signal trigger interval")
    );
    assert_eq!(
        SignalTrigger::from_str("M16:30:25::Iinvalid"),
        parse_error("Failed to parse signal trigger interval")
    );
    assert_eq!(
        SignalTrigger::from_str("M16:30:25::I 60"),
        parse_error("Failed to parse signal trigger interval")
    );
    assert_eq!(
        SignalTrigger::from_str("M16:30:25::I9223372036854775808"),
        parse_error("Failed to parse signal trigger interval")
    );
}

#[test]
fn signal_trigger_interval_is_not_negative() {
    assert_eq!(
        SignalTrigger::from_str("M16:30:25::I-1"),
        parse_error("Failed to parse signal trigger interval")
    );
    assert_eq!(
        SignalTrigger::from_str("M16:30:25::I-86400"),
        parse_error("Failed to parse signal trigger interval")
    );
    assert_eq!(
        SignalTrigger::from_str("M16:30:25::I0"),
        Ok(SignalTrigger::new(MilitaryTime::new(16, 30, 25), 0))
    );
    assert_eq!(
        SignalTrigger::from_str("M16:30:25::I-0"),
        Ok(SignalTrigger::new(MilitaryTime::new(16, 30, 25), 0))
    );
    assert_eq!(
        SignalTrigger::from_str("M16:30:25::I+60"),
        Ok(SignalTrigger::new(MilitaryTime::new(16, 30, 25), 60))
    );
    assert_eq!(
        SignalTrigger::from_str("M16:30:25::I9223372036854775807"),
        Ok(SignalTrigger::new(MilitaryTime::new(16, 30, 25), i64::MAX))
    );
}

#[test]
fn signal_trigger_lenient_forms() {
    let expected = Ok(SignalTrigger::new(MilitaryTime::new(15, 20, 12), 60));
    assert_eq!(SignalTrigger::from_str("M15:20:12::I60"), expected);
    assert_eq!(SignalTrigger::from_str("  M15:20:12::I60\n"), expected);
    assert_eq!(SignalTrigger::from_str("MMM15:20:12::I60"), expected);
    assert_eq!(SignalTrigger::from_str("15:20:12::I60"), expected);
    assert_eq!(SignalTrigger::from_str("M 15:20:12 ::I60"), expected);
    assert_eq!(SignalTrigger::from_str("M015:+20:12::I060"), expected);
    // the bounds of a clock are not held when a trigger is read
    assert_eq!(
        SignalTrigger::from_str("M99:99:99::I1"),
        Ok(SignalTrigger::new(MilitaryTime::new(99, 99, 99), 1))
    );
}
