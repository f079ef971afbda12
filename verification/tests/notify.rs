use chrono::{DateTime, Duration, Utc};
use event_pulse::calendar::{UtcInstant, MAX_TIMESTAMP};
use event_pulse::models::decimal::Money;
use event_pulse::models::event::Event;
use event_pulse::models::notify::{
    reschedule, try_reschedule, EventNotify, Recipient, SendFrequency, TransportMethod,
};
use event_pulse::models::time::from_duration_to_datetime;
use event_pulse::models::{Epoch, MilitaryTime, SignalTrigger};
use event_pulse::SECS_IN_WEEK;

fn instant(at: DateTime<Utc>) -> UtcInstant {
    UtcInstant::new(at.timestamp(), at.timestamp_subsec_nanos()).unwrap()
}

fn sample_notify(start: UtcInstant) -> EventNotify {
    let recipient = Recipient { recipient_id: "test@example.com".to_string() };
    let epoch = Epoch::from_str("15d3x").unwrap();
    let event = Event::new(
        "fishing boat rental".into(),
        Money::new(100, 50),
        epoch,
        Some(vec!["boat".to_owned(), "rental".to_owned()]),
        SignalTrigger::from_str("M15:20:12::I60").unwrap(),
        start,
        from_duration_to_datetime(start, epoch.to_duration()),
    );
    EventNotify::new(
        event,
        TransportMethod::Email(recipient.clone()),
        SendFrequency::Weekly,
        vec![recipient],
        SignalTrigger::new(MilitaryTime::new(10, 0, 0), SECS_IN_WEEK),
        start,
    )
}

#[test]
fn test_edit_delivery_frequency() {
    // Create initial data
    let start_date = Utc::now();
    // Create amount of type models::decimal::Money
    let amount: Money = Money::new(100, 50);
    // -- assign signal_trigger(s)
    let raw_trigger = "M15:20:12::I60";
    let parsed_signal = SignalTrigger::from_str(raw_trigger);
    // -- assign epoch
    let raw_epoch = "15d3x";
    let parsed_epoch = <Epoch as std::str::FromStr>::from_str(raw_epoch).unwrap();
    // -- create DateTime<Utc>
    // Get the current local time
    let local_time = chrono::Local::now();
    // Convert the local time to UTC
    let utc_time = local_time.with_timezone(&Utc);
    // tags for event entry
    let tags: Option<Vec<String>> = Some(vec!["boat".to_owned(), "rental".to_owned()]);

    let recipient = Recipient {
        recipient_id: "test@example.com".to_string(),
    };

    let delivery_method = TransportMethod::Email(recipient.clone());
    let delivery_frequency = SendFrequency::Weekly;
    let notify_trigger = SignalTrigger::new(
        MilitaryTime {
            hour: 10,
            minute: 0,
            seconds: 0,
        },
        SECS_IN_WEEK,
    );

    let scheduled_event = Event::new(
        "fishing boat rental".into(),
        amount,
        parsed_epoch.clone(),
        tags,
        parsed_signal.unwrap(),
        instant(utc_time.clone()),
        from_duration_to_datetime(instant(utc_time.clone()), Epoch::to_duration(&parsed_epoch)),
    );

    let mut event_notify = EventNotify::new(
        scheduled_event,
        delivery_method,
        delivery_frequency,
        vec![recipient],
        notify_trigger,
        instant(utc_time),
    );

    // Test with different frequencies
    event_notify.edit_delivery_frequency(instant(start_date), SendFrequency::DayPrior);
    assert_eq!(event_notify.start_date, instant(start_date));

    event_notify.edit_delivery_frequency(instant(start_date), SendFrequency::Daily);
    assert_eq!(
        event_notify.start_date,
        instant(start_date + Duration::try_days(1).unwrap())
    );

    event_notify.edit_delivery_frequency(instant(start_date), SendFrequency::Weekly);
    assert_eq!(
        event_notify.start_date,
        instant(start_date + Duration::try_weeks(1).unwrap())
    );
}

#[test]
fn every_frequency_moves_the_start_by_its_days() {
    let start = UtcInstant::new(1_710_778_108, 250).unwrap();
    let table = [
        (SendFrequency::OnTrigger, 0),
        (SendFrequency::DayPrior, 0),
        (SendFrequency::Daily, 1),
        (SendFrequency::Weekly, 7),
        (SendFrequency::BiWeekly, 14),
        (SendFrequency::Monthly, 30),
        (SendFrequency::Quarterly, 90),
    ];
    for (frequency, days) in table {
        let expected = UtcInstant { secs: 1_710_778_108 + days * 86_400, nanos: 250 };
        assert_eq!(frequency.days(), days);
        assert_eq!(reschedule(start, frequency), expected);
        assert_eq!(try_reschedule(start, frequency), Some(expected));
        let mut notify = sample_notify(start);
        notify.edit_delivery_frequency(start, frequency);
        assert_eq!(notify.start_date, expected);
        assert_eq!(notify.delivery_frequency, frequency);
    }
}

#[test]
fn rescheduling_twice_moves_twice() {
    let start = instant(Utc::now());
    let mut notify = sample_notify(start);
    let id = notify.id.clone();
    notify.edit_delivery_frequency(notify.start_date, SendFrequency::Weekly);
    assert_eq!(notify.start_date.secs, start.secs + 7 * 86_400);
    assert_eq!(notify.start_date.nanos, start.nanos);
    notify.edit_delivery_frequency(notify.start_date, SendFrequency::Weekly);
    assert_eq!(notify.start_date.secs, start.secs + 14 * 86_400);
    assert_eq!(notify.start_date.nanos, start.nanos);
    assert_eq!(notify.delivery_frequency, SendFrequency::Weekly);
    assert_eq!(notify.id, id);
    assert_eq!(notify.recipients.len(), 1);
}

#[test]
fn rescheduling_stops_at_the_end_of_the_calendar() {
    let late = UtcInstant::new(MAX_TIMESTAMP - 86_400, 5).unwrap();
    assert_eq!(
        try_reschedule(late, SendFrequency::Daily),
        Some(UtcInstant { secs: MAX_TIMESTAMP, nanos: 5 })
    );
    assert_eq!(try_reschedule(late, SendFrequency::Weekly), None);
    assert_eq!(try_reschedule(late, SendFrequency::OnTrigger), Some(late));
}

#[test]
fn new_events_and_notifications_have_fresh_ids() {
    let start = instant(Utc::now());
    let notify = sample_notify(start);
    assert_eq!(notify.id.len(), 12);
    assert_eq!(&notify.id[..4], b"NTFY");
    assert_eq!(notify.scheduled_event.id().len(), 12);
    assert_eq!(&notify.scheduled_event.id()[..4], b"EVNT");
    assert_eq!(notify.scheduled_event.title, "fishing boat rental");
    assert_eq!(notify.scheduled_event.end_datetime.secs, start.secs + 45 * 86_400);
    assert_eq!(notify.created_at, notify.last_updated);
    assert_eq!(notify.start_date, start);
}

#[test]
fn recipients_are_added() {
    let mut notify = sample_notify(instant(Utc::now()));
    notify.add_recipient(Recipient { recipient_id: "second".to_string() });
    assert_eq!(notify.recipients.len(), 2);
    assert_eq!(notify.recipients[1].recipient_id, "second");
    notify.trigger_notification();
}
