use std::collections::HashSet;

use event_pulse::calendar::UtcInstant;
use event_pulse::models::decimal::Money;
use event_pulse::models::event::{Event, EventManager};
use event_pulse::models::notify::{EventNotify, Recipient, SendFrequency, TransportMethod};
use event_pulse::models::{Epoch, MilitaryTime, SignalTrigger};

fn event(title: &str) -> Event {
    let start = UtcInstant::new(1_710_778_108, 0).unwrap();
    Event::new(
        title.to_string(),
        Money::new(10, 99),
        Epoch::from_str("1m12x").unwrap(),
        None,
        SignalTrigger::from_str("M15:20:12::I60").unwrap(),
        start,
        start,
    )
}

fn event_with_id(id: &[u8]) -> Event {
    let mut e = event("with id");
    e.id = id.to_vec();
    e
}

fn tags(list: &[&str]) -> Vec<String> {
    list.iter().map(|t| t.to_string()).collect()
}

fn set_of(manager: &EventManager, id: &[u8]) -> Option<HashSet<String>> {
    manager.get_tags_for_event(id).map(|t| t.iter().cloned().collect())
}

fn set(list: &[&str]) -> Option<HashSet<String>> {
    Some(list.iter().map(|t| t.to_string()).collect())
}

#[test]
fn new_index_is_empty() {
    let manager = EventManager::new();
    assert_eq!(manager.get_tags_for_event(&[1, 2, 3]), None);
    assert_eq!(manager.get_tags_for_event(&[]), None);
}

#[test]
fn tagging_joins_the_tags_of_an_event() {
    let mut manager = EventManager::new();
    let spotify = event("Spotify");
    let id = spotify.id().to_vec();
    manager.tag_event(spotify.clone(), tags(&["subscription", "streaming-music"]));
    assert_eq!(set_of(&manager, &id), set(&["subscription", "streaming-music"]));
    manager.tag_event(spotify.clone(), tags(&["music", "subscription"]));
    assert_eq!(set_of(&manager, &id), set(&["subscription", "streaming-music", "music"]));
    manager.tag_event(spotify, tags(&[]));
    assert_eq!(set_of(&manager, &id), set(&["subscription", "streaming-music", "music"]));
    assert_eq!(set_of(&manager, &[0u8; 12]), None);
}

#[test]
fn tagging_without_tags_adds_no_event() {
    let mut manager = EventManager::new();
    manager.tag_event(event_with_id(&[1]), tags(&[]));
    assert_eq!(manager.get_tags_for_event(&[1]), None);
}

#[test]
fn events_are_told_apart_by_their_bytes() {
    let mut manager = EventManager::new();
    manager.tag_event(event_with_id(&[1, 2]), tags(&["a"]));
    manager.tag_event(event_with_id(&[1, 2, 3]), tags(&["b"]));
    manager.tag_event(event_with_id(&[]), tags(&["c"]));
    manager.tag_event(event_with_id(&[1, 3]), tags(&["d"]));
    assert_eq!(set_of(&manager, &[1, 2]), set(&["a"]));
    assert_eq!(set_of(&manager, &[1, 2, 3]), set(&["b"]));
    assert_eq!(set_of(&manager, &[]), set(&["c"]));
    assert_eq!(set_of(&manager, &[1, 3]), set(&["d"]));
    assert_eq!(set_of(&manager, &[1]), None);
    assert_eq!(set_of(&manager, &[2, 1]), None);
}

#[test]
fn removing_an_event_from_a_tag() {
    let mut manager = EventManager::new();
    manager.tag_event(event_with_id(&[1]), tags(&["a", "b", "a"]));
    manager.tag_event(event_with_id(&[2]), tags(&["a"]));
    manager.remove_event_from_tag(&[1], "a");
    assert_eq!(set_of(&manager, &[1]), set(&["b"]));
    assert_eq!(set_of(&manager, &[2]), set(&["a"]));
    manager.remove_event_from_tag(&[1], "missing");
    assert_eq!(set_of(&manager, &[1]), set(&["b"]));
    manager.remove_event_from_tag(&[1], "b");
    assert_eq!(set_of(&manager, &[1]), None);
    assert_eq!(set_of(&manager, &[2]), set(&["a"]));
    manager.remove_event_from_tag(&[3], "a");
    manager.remove_event_from_tag(&[1, 2, 3], "tag1");
    assert_eq!(set_of(&manager, &[2]), set(&["a"]));
    manager.remove_event_from_tag(&[2], "a");
    assert_eq!(set_of(&manager, &[2]), None);
}

#[test]
fn deleting_a_tag_everywhere() {
    let mut manager = EventManager::new();
    manager.delete_tag("tag1");
    manager.tag_event(event_with_id(&[1]), tags(&["a", "b"]));
    manager.tag_event(event_with_id(&[2]), tags(&["a"]));
    manager.tag_event(event_with_id(&[3]), tags(&["c", "b", "a", "a"]));
    manager.tag_event(event_with_id(&[4]), tags(&["d"]));
    manager.delete_tag("a");
    assert_eq!(set_of(&manager, &[1]), set(&["b"]));
    assert_eq!(set_of(&manager, &[2]), None);
    assert_eq!(set_of(&manager, &[3]), set(&["c", "b"]));
    assert_eq!(set_of(&manager, &[4]), set(&["d"]));
    manager.delete_tag("missing");
    assert_eq!(set_of(&manager, &[1]), set(&["b"]));
    manager.delete_tag("b");
    assert_eq!(set_of(&manager, &[1]), None);
    assert_eq!(set_of(&manager, &[3]), set(&["c"]));
    manager.delete_tag("c");
    manager.delete_tag("d");
    for id in 1..=4u8 {
        assert_eq!(set_of(&manager, &[id]), None);
    }
    manager.tag_event(event_with_id(&[2]), tags(&["z"]));
    assert_eq!(set_of(&manager, &[2]), set(&["z"]));
}

#[test]
fn recipients_are_removed_updated_and_listed() {
    let start = UtcInstant::new(1_710_778_108, 0).unwrap();
    let person = |id: &str| Recipient { recipient_id: id.to_string() };
    let mut notify = EventNotify::new(
        event("bill"),
        TransportMethod::Sms(person("a")),
        SendFrequency::Daily,
        vec![person("a"), person("b"), person("a"), person("c"), person("b")],
        SignalTrigger::new(MilitaryTime::new(9, 0, 0), 60),
        start,
    );
    let ids = |n: &EventNotify| -> Vec<String> {
        n.list_recipients().iter().map(|r| r.recipient_id.clone()).collect()
    };
    assert_eq!(ids(&notify), ["a", "b", "a", "c", "b"]);
    notify.update_recipient("b", person("x"));
    assert_eq!(ids(&notify), ["a", "x", "a", "c", "b"]);
    notify.update_recipient("missing", person("y"));
    assert_eq!(ids(&notify), ["a", "x", "a", "c", "b"]);
    notify.remove_recipient("a");
    assert_eq!(ids(&notify), ["x", "c", "b"]);
    notify.remove_recipient("missing");
    assert_eq!(ids(&notify), ["x", "c", "b"]);
    notify.remove_recipient("b");
    notify.remove_recipient("x");
    notify.remove_recipient("c");
    assert!(notify.list_recipients().is_empty());
    notify.set_event(event("other"));
    assert_eq!(notify.scheduled_event.title, "other");
}
