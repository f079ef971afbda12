use chrono::NaiveTime;
use event_pulse::calendar::{TimeSpan, UtcInstant};
use event_pulse::error::AppError;
use event_pulse::models::time::from_duration_to_datetime;
use event_pulse::models::MilitaryTime;

fn format_error() -> Result<MilitaryTime, AppError> {
    Err(AppError::InvalidInputString("Invalid military time format".to_string()))
}

fn parse_error(field: &str) -> Result<MilitaryTime, AppError> {
    Err(AppError::ParseError(format!("Failed to parse military time {}", field)))
}

#[test]
fn military_time_is_read() {
    assert_eq!(MilitaryTime::from_str("16:30:25"), Ok(MilitaryTime::new(16, 30, 25)));
    assert_eq!(MilitaryTime::from_str("00:00:00"), Ok(MilitaryTime::new(0, 0, 0)));
    assert_eq!(MilitaryTime::from_str("  7:5:3\t\n"), Ok(MilitaryTime::new(7, 5, 3)));
    assert_eq!(MilitaryTime::from_str("\u{3000}7:5:3\u{a0}"), Ok(MilitaryTime::new(7, 5, 3)));
    assert_eq!(MilitaryTime::from_str("+1:+2:+3"), Ok(MilitaryTime::new(1, 2, 3)));
    assert_eq!(MilitaryTime::from_str("001:002:0000000000000003"), Ok(MilitaryTime::new(1, 2, 3)));
}

#[test]
fn military_time_bounds_are_not_held_when_read() {
    assert_eq!(MilitaryTime::from_str("24:60:60"), Ok(MilitaryTime::new(24, 60, 60)));
    assert_eq!(
        MilitaryTime::from_str("4294967295:0:4294967295"),
        Ok(MilitaryTime::new(u32::MAX, 0, u32::MAX))
    );
}

#[test]
fn military_time_needs_three_fields() {
    for text in ["", "16", "16:30", "16:30:25:00", ":", ":::", "16-30-25", "   "] {
        assert_eq!(MilitaryTime::from_str(text), format_error(), "{:?}", text);
    }
}

#[test]
fn military_time_fields_are_numbers() {
    assert_eq!(MilitaryTime::from_str("::"), parse_error("hour"));
    assert_eq!(MilitaryTime::from_str("a:30:25"), parse_error("hour"));
    assert_eq!(MilitaryTime::from_str("-1:30:25"), parse_error("hour"));
    assert_eq!(MilitaryTime::from_str("+:30:25"), parse_error("hour"));
    assert_eq!(MilitaryTime::from_str("4294967296:30:25"), parse_error("hour"));
    assert_eq!(MilitaryTime::from_str("1 :30:25"), parse_error("hour"));
    assert_eq!(MilitaryTime::from_str("16::25"), parse_error("minute"));
    assert_eq!(MilitaryTime::from_str("16:3o:25"), parse_error("minute"));
    assert_eq!(MilitaryTime::from_str("16: 30:25"), parse_error("minute"));
    assert_eq!(MilitaryTime::from_str("16:30:"), parse_error("seconds"));
    assert_eq!(MilitaryTime::from_str("16:30:2.5"), parse_error("seconds"));
    assert_eq!(MilitaryTime::from_str("16:30:٢"), parse_error("seconds"));
    assert_eq!(MilitaryTime::from_str("x:y:z"), parse_error("hour"));
}

#[test]
fn military_time_agrees_with_the_standard_parser() {
    let fields = ["0", "7", "+7", "-7", "", " 7", "07", "4294967295", "4294967296", "१", "7a", "++7"];
    for h in fields {
        for m in fields {
            let text = format!("{}:{}:59", h, m);
            let expected = match (h.parse::<u32>(), m.trim_end().parse::<u32>()) {
                (Ok(hour), Ok(minute)) if !h.starts_with(' ') => {
                    Some(MilitaryTime::new(hour, minute, 59))
                }
                _ => None,
            };
            // white space around the whole text is left out before it is cut
            let expected = if h.starts_with(' ') {
                match (h.trim().parse::<u32>(), m.parse::<u32>()) {
                    (Ok(hour), Ok(minute)) => Some(MilitaryTime::new(hour, minute, 59)),
                    _ => None,
                }
            } else {
                expected
            };
            assert_eq!(MilitaryTime::from_str(&text).ok(), expected, "{:?}", text);
        }
    }
}

#[test]
fn conversion_to_a_clock_time_holds_the_bounds() {
    assert_eq!(
        MilitaryTime::new(16, 30, 25).to_naive_time(),
        Some(NaiveTime::from_hms_opt(16, 30, 25).unwrap())
    );
    assert_eq!(
        MilitaryTime::new(23, 59, 59).to_naive_time(),
        NaiveTime::from_hms_opt(23, 59, 59)
    );
    assert_eq!(MilitaryTime::new(0, 0, 0).to_naive_time(), NaiveTime::from_hms_opt(0, 0, 0));
    assert_eq!(MilitaryTime::new(24, 0, 0).to_naive_time(), None);
    assert_eq!(MilitaryTime::new(0, 60, 0).to_naive_time(), None);
    assert_eq!(MilitaryTime::new(0, 0, 60).to_naive_time(), None);
    assert!(MilitaryTime::new(23, 59, 59).is_on_clock());
    assert!(!MilitaryTime::new(24, 0, 0).is_on_clock());
    assert!(!MilitaryTime::new(0, 60, 0).is_on_clock());
    assert!(!MilitaryTime::new(0, 0, 60).is_on_clock());
}

#[test]
fn conversion_from_a_clock_time_takes_its_fields() {
    let naive_time = NaiveTime::from_hms_opt(12, 30, 0).expect("chrono::NaiveTime");
    let military_time = MilitaryTime::from_naive_time(naive_time);
    assert_eq!(military_time.hour, 12);
    assert_eq!(military_time.minute, 30);
    assert_eq!(military_time.seconds, 0);
    for (h, m, s) in [(0, 0, 0), (23, 59, 59), (7, 8, 9)] {
        let time = MilitaryTime::new(h, m, s);
        assert_eq!(MilitaryTime::from_naive_time(time.to_naive_time().unwrap()), time);
    }
}

#[test]
fn instant_plus_span() {
    let now = chrono::Utc::now();
    let datetime = UtcInstant::new(now.timestamp(), now.timestamp_subsec_nanos()).unwrap();
    let duration = TimeSpan::try_days(1).unwrap();
    let result = from_duration_to_datetime(datetime, duration);
    let expected = now + chrono::Duration::try_days(1).unwrap();
    assert_eq!(result.secs, expected.timestamp());
    assert_eq!(result.nanos, expected.timestamp_subsec_nanos());
    let back = from_duration_to_datetime(result, TimeSpan { seconds: -86_400 });
    assert_eq!(back, datetime);
}
