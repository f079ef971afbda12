//! Notifications for events, and the rule that moves their start date
//! when the frequency of delivery changes.
use vstd::prelude::*;
use vstd::pervasive::unreached;
use crate::calendar::{TimeSpan, UtcInstant};
use crate::models::event::{is_fresh_id, lemma_tag_is_prefix, Event};
use crate::models::signal::SignalTrigger;
use crate::models::time::from_duration_to_datetime;
use crate::models::uid::GlobalId;

verus! {

broadcast use vstd::string::group_string_axioms;

/// Represents a recipient who can receive notifications.
#[derive(Debug, Clone, PartialEq)]
pub struct Recipient {
    /// Represents a recipient handle or email address, associated with
    /// `TransportMethod`
    pub recipient_id: String,
}

/// Represents the transport method of a notification.
#[derive(Debug, Clone, PartialEq)]
pub enum TransportMethod {
    /// notification method is via email (email_address).
    Email(Recipient),
    /// notifications method is via SMS (phone_number).
    Sms(Recipient),
    /// Sends notifications via push notification (subscriber).
    PushNotification(Recipient),
    /// Sends notifications via Slack (slack_handle)
    Slack(Recipient),
    /// Sends notifications via Discord (discord_handle)
    Discord(Recipient),
    /// Sends notifications via Telegram (telegram_handle)
    Telegram(Recipient),
}

/// Represents the calendar date frequency of notifications.
#[derive(Debug, Clone, Copy, PartialEq, Eq, Structural)]
pub enum SendFrequency {
    /// Sends notifications immediately when triggered.
    OnTrigger,
    /// Sends notifications one day prior to the event trigger.
    DayPrior,
    /// Sends notifications daily.
    Daily,
    /// Sends notifications weekly.
    Weekly,
    /// Sends notifications bi-weekly (every two weeks).
    BiWeekly,
    /// Sends notifications monthly.
    Monthly,
    /// Sends notifications quarterly.
    Quarterly,
}

impl SendFrequency {
    /// The days by which a change to this frequency moves the start date:
    /// a month counts as 30 days and a quarter as 90, whatever the
    /// calendar says.
    pub open spec fn offset_days(&self) -> int {
        match self {
            SendFrequency::OnTrigger => 0,
            SendFrequency::DayPrior => 0,
            SendFrequency::Daily => 1,
            SendFrequency::Weekly => 7,
            SendFrequency::BiWeekly => 14,
            SendFrequency::Monthly => 30,
            SendFrequency::Quarterly => 90,
        }
    }

    /// The days by which a change to this frequency moves the start date.
    pub fn days(&self) -> (out: i64)
        ensures
            out == self.offset_days(),
    {
        match self {
            SendFrequency::OnTrigger => 0,
            SendFrequency::DayPrior => 0,
            SendFrequency::Daily => 1,
            SendFrequency::Weekly => 7,
            SendFrequency::BiWeekly => 14,
            SendFrequency::Monthly => 30,
            SendFrequency::Quarterly => 90,
        }
    }
}

/// The start date that a change to `frequency` gives, counted from
/// `current_start`.
pub open spec fn rescheduled(current_start: UtcInstant, frequency: SendFrequency) -> UtcInstant {
    current_start.plus(frequency.offset_days() * 86_400)
}

/// Computes the new start date of a notification whose frequency of
/// delivery changes to `frequency`, counted from `current_start`.
pub fn reschedule(current_start: UtcInstant, frequency: SendFrequency) -> (out: UtcInstant)
    requires
        current_start.is_valid(),
        rescheduled(current_start, frequency).is_valid(),
    ensures
        out == rescheduled(current_start, frequency),
{
    match frequency {
        SendFrequency::OnTrigger | SendFrequency::DayPrior => current_start,
        _ => match TimeSpan::try_days(frequency.days()) {
            Some(span) => from_duration_to_datetime(current_start, span),
            None => unreached(),
        },
    }
}

/// Computes the new start date as `reschedule` does, or nothing where it
/// would lie outside the calendar.
pub fn try_reschedule(current_start: UtcInstant, frequency: SendFrequency) -> (out: Option<
    UtcInstant,
>)
    requires
        current_start.is_valid(),
    ensures
        out is Some <==> rescheduled(current_start, frequency).is_valid(),
        out matches Some(t) ==> t == rescheduled(current_start, frequency),
{
    match TimeSpan::try_days(frequency.days()) {
        Some(span) => current_start.checked_add(span),
        None => unreached(),
    }
}

/// A change to a frequency moves the start date by the days of that
/// frequency, and a second change counts from the date that the first
/// one gave: two changes move it by the sum of their days.
pub proof fn lemma_reschedule_adds_up(
    start: UtcInstant,
    first: SendFrequency,
    second: SendFrequency,
)
    requires
        start.is_valid(),
        rescheduled(start, first).is_valid(),
    ensures
        rescheduled(start, first).secs == start.secs + first.offset_days() * 86_400,
        rescheduled(start, first).nanos == start.nanos,
        rescheduled(rescheduled(start, first), second) == start.plus(
            (first.offset_days() + second.offset_days()) * 86_400,
        ),
{
}

/// Changing to the weekly frequency moves the start date by exactly seven
/// days, and doing so twice in a row moves it by fourteen days in all.
pub proof fn lemma_weekly_twice(start: UtcInstant)
    requires
        start.is_valid(),
        rescheduled(start, SendFrequency::Weekly).is_valid(),
    ensures
        rescheduled(start, SendFrequency::Weekly) == start.plus(7 * 86_400int),
        rescheduled(rescheduled(start, SendFrequency::Weekly), SendFrequency::Weekly)
            == start.plus(14 * 86_400int),
        rescheduled(start, SendFrequency::Weekly) != start,
{
}

/// The place of the first recipient at or after `from` with the ID `id`.
pub open spec fn first_with_id(recipients: Seq<Recipient>, id: Seq<char>, from: int) -> Option<int>
    decreases recipients.len() - from,
{
    if from < 0 || from >= recipients.len() {
        None
    } else if recipients[from].recipient_id@ == id {
        Some(from)
    } else {
        first_with_id(recipients, id, from + 1)
    }
}

/// Represents a notification to be sent for an event.
#[derive(Debug, Clone, PartialEq)]
pub struct EventNotify {
    /// The ID of the event notification.
    pub id: Vec<u8>,
    /// The event for which the notification is scheduled.
    pub scheduled_event: Event,
    /// The method of notification delivery.
    pub delivery_method: TransportMethod,
    /// The frequency of notification delivery.
    pub delivery_frequency: SendFrequency,
    /// The recipients of the notification.
    pub recipients: Vec<Recipient>,
    /// The trigger for the notification (not the event trigger).
    pub notify_trigger: SignalTrigger,
    /// The start date of the notification.
    pub start_date: UtcInstant,
    /// The date and time when the notification was created.
    pub created_at: UtcInstant,
    /// The date and time when the notification was last updated.
    pub last_updated: UtcInstant,
}

impl EventNotify {
    /// Creates a notification with an identifier of its own under the
    /// prefix `NTFY`, created and last updated at the current instant.
    pub fn new(
        scheduled_event: Event,
        delivery_method: TransportMethod,
        delivery_frequency: SendFrequency,
        recipients: Vec<Recipient>,
        notify_trigger: SignalTrigger,
        start_date: UtcInstant,
    ) -> (out: Self)
        ensures
            is_fresh_id(out.id@, "NTFY"@),
            out.scheduled_event == scheduled_event,
            out.delivery_method == delivery_method,
            out.delivery_frequency == delivery_frequency,
            out.recipients == recipients,
            out.notify_trigger == notify_trigger,
            out.start_date == start_date,
            out.created_at.is_valid(),
            out.last_updated == out.created_at,
    {
        proof {
            reveal_strlit("NTFY");
            lemma_tag_is_prefix("NTFY"@);
        }
        let id = GlobalId(GlobalId::new("NTFY")).to_vec();
        let created_at = crate::utils::get_current_datetime_utc();
        let last_updated = created_at;
        EventNotify {
            id,
            scheduled_event,
            delivery_method,
            delivery_frequency,
            recipients,
            notify_trigger,
            start_date,
            created_at,
            last_updated,
        }
    }

    /// Changes the notification frequency and adjusts the start date
    /// accordingly.
    ///
    /// The new start date is counted from `start_date`, the current start
    /// date as the caller sees it: it stays as it is for `OnTrigger` and
    /// `DayPrior`, and moves by the days of the other frequencies.
    pub fn edit_delivery_frequency(
        &mut self,
        start_date: UtcInstant,
        deliver_frequency: SendFrequency,
    )
        requires
            start_date.is_valid(),
            rescheduled(start_date, deliver_frequency).is_valid(),
        ensures
            final(self).delivery_frequency == deliver_frequency,
            final(self).start_date == rescheduled(start_date, deliver_frequency),
            final(self).id == old(self).id,
            final(self).scheduled_event == old(self).scheduled_event,
            final(self).delivery_method == old(self).delivery_method,
            final(self).recipients == old(self).recipients,
            final(self).notify_trigger == old(self).notify_trigger,
            final(self).created_at == old(self).created_at,
            final(self).last_updated == old(self).last_updated,
    {
        self.delivery_frequency = deliver_frequency;
        self.start_date = reschedule(start_date, deliver_frequency);
    }

    /// Adds a new recipient to the notification list.
    pub fn add_recipient(&mut self, recipient: Recipient)
        ensures
            final(self).recipients@ == old(self).recipients@.push(recipient),
            final(self).id == old(self).id,
            final(self).scheduled_event == old(self).scheduled_event,
            final(self).delivery_method == old(self).delivery_method,
            final(self).delivery_frequency == old(self).delivery_frequency,
            final(self).notify_trigger == old(self).notify_trigger,
            final(self).start_date == old(self).start_date,
            final(self).created_at == old(self).created_at,
            final(self).last_updated == old(self).last_updated,
    {
        self.recipients.push(recipient);
    }

    /// Sets a new event for notification.
    pub fn set_event(&mut self, event: Event)
        ensures
            final(self).scheduled_event == event,
            final(self).id == old(self).id,
            final(self).delivery_method == old(self).delivery_method,
            final(self).delivery_frequency == old(self).delivery_frequency,
            final(self).recipients == old(self).recipients,
            final(self).notify_trigger == old(self).notify_trigger,
            final(self).start_date == old(self).start_date,
            final(self).created_at == old(self).created_at,
            final(self).last_updated == old(self).last_updated,
    {
        self.scheduled_event = event;
    }

    /// Removes a recipient from the notification list: every recipient
    /// with the ID `recipient_id` leaves, and the others keep their order.
    pub fn remove_recipient(&mut self, recipient_id: &str)
        ensures
            final(self).recipients@ == old(self).recipients@.filter(
                |r: Recipient| r.recipient_id@ != recipient_id@,
            ),
            final(self).id == old(self).id,
            final(self).scheduled_event == old(self).scheduled_event,
            final(self).delivery_method == old(self).delivery_method,
            final(self).delivery_frequency == old(self).delivery_frequency,
            final(self).notify_trigger == old(self).notify_trigger,
            final(self).start_date == old(self).start_date,
            final(self).created_at == old(self).created_at,
            final(self).last_updated == old(self).last_updated,
    {
        let wanted = recipient_id.to_owned();
        let ghost before = self.recipients@;
        let ghost keep = |r: Recipient| r.recipient_id@ != recipient_id@;
        let ghost mut seen: int = 0;
        let mut i: usize = 0;
        proof {
            reveal(Seq::filter);
            assert(before.take(0).filter(keep) =~= Seq::<Recipient>::empty());
            assert(before.skip(0) =~= before);
        }
        while i < self.recipients.len()
            invariant
                0 <= i <= self.recipients.len(),
                0 <= seen <= before.len(),
                wanted@ == recipient_id@,
                keep == (|r: Recipient| r.recipient_id@ != recipient_id@),
                self.recipients@.take(i as int) == before.take(seen).filter(keep),
                self.recipients@.skip(i as int) == before.skip(seen),
                self.id == old(self).id,
                self.scheduled_event == old(self).scheduled_event,
                self.delivery_method == old(self).delivery_method,
                self.delivery_frequency == old(self).delivery_frequency,
                self.notify_trigger == old(self).notify_trigger,
                self.start_date == old(self).start_date,
                self.created_at == old(self).created_at,
                self.last_updated == old(self).last_updated,
            decreases self.recipients.len() - i,
        {
            let ghost current = self.recipients@;
            proof {
                assert(current[i as int] == current.skip(i as int)[0]);
                assert(before.skip(seen).len() > 0);
                assert(current[i as int] == before[seen]);
                assert(before.take(seen + 1).drop_last() =~= before.take(seen));
                assert(before.take(seen + 1).last() == before[seen]);
                reveal(Seq::filter);
            }
            if self.recipients[i].recipient_id == wanted {
                let _ = self.recipients.remove(i);
                proof {
                    assert(self.recipients@.take(i as int) =~= current.take(i as int));
                    assert(self.recipients@.skip(i as int) =~= current.skip(i as int).skip(1));
                    assert(before.skip(seen).skip(1) =~= before.skip(seen + 1));
                }
            } else {
                proof {
                    assert(current.take(i + 1) =~= current.take(i as int).push(current[i as int]));
                    assert(current.skip(i + 1) =~= current.skip(i as int).skip(1));
                    assert(before.skip(seen).skip(1) =~= before.skip(seen + 1));
                }
                i += 1;
            }
            proof {
                seen = seen + 1;
            }
        }
        proof {
            assert(self.recipients@.take(i as int) =~= self.recipients@);
            assert(before.skip(seen).len() == 0);
            assert(before.take(seen) =~= before);
        }
    }

    /// Updates the details of a recipient in the notification list: the
    /// first recipient with the ID `recipient_id`, if there is one, is
    /// replaced by `new_recipient`.
    pub fn update_recipient(&mut self, recipient_id: &str, new_recipient: Recipient)
        ensures
            match first_with_id(old(self).recipients@, recipient_id@, 0) {
                Some(at) => final(self).recipients@ == old(self).recipients@.update(
                    at,
                    new_recipient,
                ),
                None => final(self).recipients@ == old(self).recipients@,
            },
            final(self).id == old(self).id,
            final(self).scheduled_event == old(self).scheduled_event,
            final(self).delivery_method == old(self).delivery_method,
            final(self).delivery_frequency == old(self).delivery_frequency,
            final(self).notify_trigger == old(self).notify_trigger,
            final(self).start_date == old(self).start_date,
            final(self).created_at == old(self).created_at,
            final(self).last_updated == old(self).last_updated,
    {
        let wanted = recipient_id.to_owned();
        let mut i: usize = 0;
        while i < self.recipients.len()
            invariant
                i <= self.recipients.len(),
                wanted@ == recipient_id@,
                *self == *old(self),
                first_with_id(self.recipients@, recipient_id@, 0) == first_with_id(
                    self.recipients@,
                    recipient_id@,
                    i as int,
                ),
            decreases self.recipients.len() - i,
        {
            if self.recipients[i].recipient_id == wanted {
                self.recipients.set(i, new_recipient);
                return ;
            }
            i += 1;
        }
    }

    /// Returns a list of all recipients for this notification, in their
    /// order.
    pub fn list_recipients(&self) -> (out: Vec<&Recipient>)
        ensures
            out@.len() == self.recipients@.len(),
            forall|i: int| 0 <= i < out@.len() ==> *#[trigger] out@[i] == self.recipients@[i],
    {
        let mut out: Vec<&Recipient> = Vec::new();
        let mut i: usize = 0;
        while i < self.recipients.len()
            invariant
                i <= self.recipients.len(),
                out@.len() == i,
                forall|k: int| 0 <= k < i ==> *#[trigger] out@[k] == self.recipients@[k],
            decreases self.recipients.len() - i,
        {
            out.push(&self.recipients[i]);
            i += 1;
        }
        out
    }

    /// Triggers the notification manually: nothing is sent from here.
    pub fn trigger_notification(&self) {
    }
}

} // verus!
