//! Time-triggered events.
use vstd::prelude::*;
use crate::calendar::UtcInstant;
use crate::models::decimal::Money;
use crate::models::epoch::Epoch;
use crate::models::signal::SignalTrigger;
use crate::models::uid::{be_bytes, padded, prefix_of, GlobalId};
use crate::utils;

verus! {

broadcast use vstd::string::group_string_axioms;

/// A time-triggered event.
#[derive(Debug, Clone, PartialEq)]
pub struct Event {
    /// The identifier of the event.
    pub id: Vec<u8>,
    /// Name of the event
    pub title: String,
    /// Currency amount of the event
    pub amount: Money,
    /// Time scale for the event
    pub epoch: Epoch,
    /// Classification for an event
    pub tags: Option<Vec<String>>,
    /// Military-Time trigger for the event
    pub signal_trigger: SignalTrigger,
    /// Start date for recorded event
    pub start_datetime: UtcInstant,
    /// End date for recorded event
    pub end_datetime: UtcInstant,
    /// Date created
    pub created_at: UtcInstant,
}

/// The bytes of an identifier made at some time with the prefix `tag`.
pub open spec fn is_fresh_id(id: Seq<u8>, tag: Seq<char>) -> bool {
    exists|t: u64| id == padded(tag) + be_bytes(t)
}

/// A prefix of four capital letters is one that identifiers accept.
pub proof fn lemma_tag_is_prefix(tag: Seq<char>)
    requires
        tag.len() == 4,
        forall|i: int| 0 <= i < 4 ==> 'A' <= #[trigger] tag[i] <= 'Z',
    ensures
        prefix_of(tag) is Ok,
{
    assert forall|i: int| 0 <= i < tag.len() implies (0 <= (#[trigger] tag[i] as nat) < 128) by {
        assert('A' <= tag[i] <= 'Z');
    }
}

impl Event {
    /// Constructor to create a new `Event`, with an identifier of its own
    /// under the prefix `EVNT` and the current instant as its creation
    /// date.
    pub fn new(
        title: String,
        amount: Money,
        epoch: Epoch,
        tags: Option<Vec<String>>,
        signal_trigger: SignalTrigger,
        start_datetime: UtcInstant,
        end_datetime: UtcInstant,
    ) -> (out: Self)
        ensures
            is_fresh_id(out.id@, "EVNT"@),
            out.title == title,
            out.amount == amount,
            out.epoch == epoch,
            out.tags == tags,
            out.signal_trigger == signal_trigger,
            out.start_datetime == start_datetime,
            out.end_datetime == end_datetime,
            out.created_at.is_valid(),
    {
        proof {
            reveal_strlit("EVNT");
            lemma_tag_is_prefix("EVNT"@);
        }
        let id = GlobalId(GlobalId::new("EVNT")).to_vec();
        let created_at = utils::get_current_datetime_utc();
        Self {
            id,
            title,
            amount,
            epoch,
            tags,
            signal_trigger,
            start_datetime,
            end_datetime,
            created_at,
        }
    }

    /// The identifier of the event.
    pub fn id(&self) -> (out: &[u8])
        ensures
            out@ == self.id@,
    {
        self.id.as_slice()
    }
}

/// The tags of one event in the index.
pub struct TagEntry {
    /// The identifier of the event.
    pub event_id: Vec<u8>,
    /// The tags of the event, each at least once.
    pub tags: Vec<String>,
}

/// The set of the texts that `tags` holds.
pub open spec fn tag_set(tags: Seq<String>) -> Set<Seq<char>> {
    Set::new(|t: Seq<char>| exists|i: int| 0 <= i < tags.len() && (#[trigger] tags[i])@ == t)
}

/// Some entry of `entries` is for the event `id`.
pub open spec fn has_event(entries: Seq<TagEntry>, id: Seq<u8>) -> bool {
    exists|i: int| 0 <= i < entries.len() && (#[trigger] entries[i]).event_id@ == id
}

/// The place of an entry for the event `id`.
pub open spec fn place_of(entries: Seq<TagEntry>, id: Seq<u8>) -> int {
    choose|i: int| 0 <= i < entries.len() && (#[trigger] entries[i]).event_id@ == id
}

/// No two entries are for the same event, and every entry holds a tag.
pub open spec fn entries_wf(entries: Seq<TagEntry>) -> bool {
    distinct_events(entries) && all_tagged(entries)
}

/// The index that `entries` stand for: each event with the set of its
/// tags.
pub open spec fn index_of(entries: Seq<TagEntry>) -> Map<Seq<u8>, Set<Seq<char>>> {
    Map::new(
        |id: Seq<u8>| has_event(entries, id),
        |id: Seq<u8>| tag_set(entries[place_of(entries, id)].tags@),
    )
}

/// The tags of the event `id` in an index; none where it is not there.
pub open spec fn tags_in(index: Map<Seq<u8>, Set<Seq<char>>>, id: Seq<u8>) -> Set<Seq<char>> {
    if index.contains_key(id) {
        index[id]
    } else {
        Set::empty()
    }
}

/// Where no two entries are for the same event, the index holds for the
/// event of each entry the tags of that entry.
proof fn lemma_index_at(entries: Seq<TagEntry>, i: int)
    requires
        distinct_events(entries),
        0 <= i < entries.len(),
    ensures
        index_of(entries).contains_key(entries[i].event_id@),
        index_of(entries)[entries[i].event_id@] == tag_set(entries[i].tags@),
        place_of(entries, entries[i].event_id@) == i,
{
    let id = entries[i].event_id@;
    let p = place_of(entries, id);
    assert(0 <= p < entries.len() && entries[p].event_id@ == id);
    if p < i {
        assert(entries[p].event_id@ != entries[i].event_id@);
    }
    if i < p {
        assert(entries[i].event_id@ != entries[p].event_id@);
    }
}

/// A list of tags stands for the empty set only where it is empty.
proof fn lemma_tag_set_empty(tags: Seq<String>)
    ensures
        tags.len() == 0 <==> tag_set(tags) == Set::<Seq<char>>::empty(),
{
    if tags.len() > 0 {
        assert(tag_set(tags).contains(tags[0]@));
    } else {
        assert(tag_set(tags) =~= Set::<Seq<char>>::empty());
    }
}

/// No two entries are for the same event.
pub open spec fn distinct_events(entries: Seq<TagEntry>) -> bool {
    forall|i: int, j: int|
        0 <= i < j < entries.len() ==> (#[trigger] entries[i]).event_id@ != (
        #[trigger] entries[j]).event_id@
}

/// Taking an entry out of the list takes its event out of the index.
proof fn lemma_index_without(entries: Seq<TagEntry>, i: int)
    requires
        distinct_events(entries),
        0 <= i < entries.len(),
    ensures
        distinct_events(entries.remove(i)),
        !has_event(entries.remove(i), entries[i].event_id@),
        index_of(entries.remove(i)) == index_of(entries).remove(entries[i].event_id@),
{
    let rest = entries.remove(i);
    let id = entries[i].event_id@;
    assert forall|k: int| 0 <= k < rest.len() implies #[trigger] rest[k] == entries[if k < i {
        k
    } else {
        k + 1
    }] by {}
    assert forall|a: int, b: int| 0 <= a < b < rest.len() implies (#[trigger] rest[a]).event_id@
        != (#[trigger] rest[b]).event_id@ by {
        let pa = if a < i {
            a
        } else {
            a + 1
        };
        let pb = if b < i {
            b
        } else {
            b + 1
        };
        assert(entries[pa].event_id@ != entries[pb].event_id@);
    }
    assert(!has_event(rest, id)) by {
        if has_event(rest, id) {
            let k = place_of(rest, id);
            let pk = if k < i {
                k
            } else {
                k + 1
            };
            assert(entries[pk].event_id@ == id);
            if pk < i {
                assert(entries[pk].event_id@ != entries[i].event_id@);
            } else {
                assert(entries[i].event_id@ != entries[pk].event_id@);
            }
        }
    }
    let goal = index_of(entries).remove(id);
    assert forall|k: Seq<u8>| index_of(rest).contains_key(k) <==> goal.contains_key(k) by {
        if index_of(rest).contains_key(k) {
            let a = place_of(rest, k);
            let pa = if a < i {
                a
            } else {
                a + 1
            };
            assert(entries[pa].event_id@ == k);
        }
        if goal.contains_key(k) {
            let m = place_of(entries, k);
            let a = if m < i {
                m
            } else {
                m - 1
            };
            assert(rest[a] == entries[m]);
            assert(rest[a].event_id@ == k);
        }
    }
    assert forall|k: Seq<u8>| index_of(rest).contains_key(k) implies index_of(rest)[k]
        == goal[k] by {
        let a = place_of(rest, k);
        lemma_index_at(rest, a);
        let pa = if a < i {
            a
        } else {
            a + 1
        };
        assert(rest[a] == entries[pa]);
        lemma_index_at(entries, pa);
    }
    assert(index_of(rest) =~= goal);
}

/// Adding an entry for a new event adds the event, with the tags of the
/// entry, to the index.
proof fn lemma_index_push(entries: Seq<TagEntry>, entry: TagEntry)
    requires
        distinct_events(entries),
        !has_event(entries, entry.event_id@),
    ensures
        distinct_events(entries.push(entry)),
        index_of(entries.push(entry)) == index_of(entries).insert(
            entry.event_id@,
            tag_set(entry.tags@),
        ),
{
    let after = entries.push(entry);
    let last = entries.len() as int;
    let id = entry.event_id@;
    assert forall|a: int, b: int| 0 <= a < b < after.len() implies (#[trigger] after[a]).event_id@
        != (#[trigger] after[b]).event_id@ by {
        assert(after[a] == entries[a]);
        if b < last {
            assert(after[b] == entries[b]);
        }
    }
    let goal = index_of(entries).insert(id, tag_set(entry.tags@));
    assert forall|k: Seq<u8>| index_of(after).contains_key(k) <==> goal.contains_key(k) by {
        if index_of(after).contains_key(k) {
            let a = place_of(after, k);
            if a < last {
                assert(entries[a].event_id@ == k);
            }
        }
        if goal.contains_key(k) && k != id {
            let m = place_of(entries, k);
            assert(after[m].event_id@ == k);
        }
        if k == id {
            assert(after[last].event_id@ == id);
        }
    }
    assert forall|k: Seq<u8>| index_of(after).contains_key(k) implies index_of(after)[k]
        == goal[k] by {
        let a = place_of(after, k);
        lemma_index_at(after, a);
        if a < last {
            assert(after[a] == entries[a]);
            lemma_index_at(entries, a);
        }
    }
    assert(index_of(after) =~= goal);
}

/// The tags of two lists, one after the other, are the tags of both.
proof fn lemma_tag_set_of_both(held: Seq<String>, added: Seq<String>)
    ensures
        tag_set(held + added) == tag_set(held).union(tag_set(added)),
{
    let merged = held + added;
    assert forall|t: Seq<char>| tag_set(merged).contains(t) implies tag_set(held).union(
        tag_set(added),
    ).contains(t) by {
        let k = choose|k: int| 0 <= k < merged.len() && (#[trigger] merged[k])@ == t;
        if k < held.len() {
            assert(held[k]@ == t);
        } else {
            assert(added[k - held.len()]@ == t);
        }
    }
    assert forall|t: Seq<char>| tag_set(held).union(tag_set(added)).contains(
        t,
    ) implies tag_set(merged).contains(t) by {
        if tag_set(held).contains(t) {
            let k = choose|k: int| 0 <= k < held.len() && (#[trigger] held[k])@ == t;
            assert(merged[k]@ == t);
        } else {
            let k = choose|k: int| 0 <= k < added.len() && (#[trigger] added[k])@ == t;
            assert(merged[held.len() + k]@ == t);
        }
    }
    assert(tag_set(merged) =~= tag_set(held).union(tag_set(added)));
}

/// Every entry holds a tag.
pub open spec fn all_tagged(entries: Seq<TagEntry>) -> bool {
    forall|i: int| 0 <= i < entries.len() ==> (#[trigger] entries[i]).tags@.len() > 0
}

/// An index without the tag `tag`: the tag leaves the tags of every
/// event, and an event left without tags leaves the index.
pub open spec fn without_tag(index: Map<Seq<u8>, Set<Seq<char>>>, tag: Seq<char>) -> Map<
    Seq<u8>,
    Set<Seq<char>>,
> {
    Map::new(
        |id: Seq<u8>| index.contains_key(id) && index[id].remove(tag) != Set::<Seq<char>>::empty(),
        |id: Seq<u8>| index[id].remove(tag),
    )
}

/// Tells whether two runs of bytes are the same.
fn same_bytes(a: &[u8], b: &[u8]) -> (out: bool)
    ensures
        out == (a@ == b@),
{
    if a.len() != b.len() {
        return false;
    }
    let mut i: usize = 0;
    while i < a.len()
        invariant
            i <= a.len(),
            a.len() == b.len(),
            a@.take(i as int) == b@.take(i as int),
        decreases a.len() - i,
    {
        if a[i] != b[i] {
            return false;
        }
        assert(a@.take(i + 1) =~= a@.take(i as int).push(a@[i as int]));
        assert(b@.take(i + 1) =~= b@.take(i as int).push(b@[i as int]));
        i += 1;
    }
    assert(a@.take(a@.len() as int) =~= a@);
    assert(b@.take(b@.len() as int) =~= b@);
    true
}

/// Takes every occurrence of `tag` out of `tags`.
fn remove_tag(tags: &mut Vec<String>, tag: &String)
    ensures
        tag_set(final(tags)@) == tag_set(old(tags)@).remove(tag@),
        final(tags)@.len() <= old(tags)@.len(),
{
    let ghost before = tags@;
    let mut i: usize = 0;
    while i < tags.len()
        invariant
            i <= tags.len(),
            tags@.len() <= before.len(),
            tag_set(tags@).remove(tag@) == tag_set(before).remove(tag@),
            forall|k: int| 0 <= k < i ==> (#[trigger] tags@[k])@ != tag@,
        decreases tags.len() - i,
    {
        if tags[i] == *tag {
            let ghost current = tags@;
            let _ = tags.remove(i);
            proof {
                assert forall|t: Seq<char>| t != tag@ implies (tag_set(tags@).contains(t)
                    <==> tag_set(current).contains(t)) by {
                    if tag_set(tags@).contains(t) {
                        let k = choose|k: int| 0 <= k < tags@.len() && (#[trigger] tags@[k])@ == t;
                        if k < i {
                            assert(current[k]@ == t);
                        } else {
                            assert(current[k + 1]@ == t);
                        }
                    }
                    if tag_set(current).contains(t) {
                        let k = choose|k: int|
                            0 <= k < current.len() && (#[trigger] current[k])@ == t;
                        if k < i {
                            assert(tags@[k]@ == t);
                        } else {
                            assert(k != i);
                            assert(tags@[k - 1]@ == t);
                        }
                    }
                }
                assert(tag_set(tags@).remove(tag@) =~= tag_set(current).remove(tag@));
            }
        } else {
            i += 1;
        }
    }
    proof {
        assert(!tag_set(tags@).contains(tag@));
        assert(tag_set(tags@) =~= tag_set(tags@).remove(tag@));
    }
}

/// The place of the entry for the event `event_id`, if it has one.
fn find_entry(entries: &Vec<TagEntry>, event_id: &[u8]) -> (out: Option<usize>)
    ensures
        match out {
            Some(i) => i < entries@.len() && entries@[i as int].event_id@ == event_id@,
            None => !has_event(entries@, event_id@),
        },
{
    let mut i: usize = 0;
    while i < entries.len()
        invariant
            i <= entries.len(),
            forall|k: int| 0 <= k < i ==> (#[trigger] entries@[k]).event_id@ != event_id@,
        decreases entries.len() - i,
    {
        if same_bytes(entries[i].event_id.as_slice(), event_id) {
            return Some(i);
        }
        i += 1;
    }
    None
}

/// Manages events and their associated tags: an index from the
/// identifier of an event to the set of its tags. An event without tags is
/// not in the index.
pub struct EventManager {
    entries: Vec<TagEntry>,
}

impl View for EventManager {
    type V = Map<Seq<u8>, Set<Seq<char>>>;

    closed spec fn view(&self) -> Map<Seq<u8>, Set<Seq<char>>> {
        index_of(self.entries@)
    }
}

impl EventManager {
    /// The index holds every event at most once, and with a tag.
    #[verifier::type_invariant]
    spec fn wf(&self) -> bool {
        entries_wf(self.entries@)
    }

    /// Creates a new `EventManager`, with an empty index.
    pub fn new() -> (out: Self)
        ensures
            out@ == Map::<Seq<u8>, Set<Seq<char>>>::empty(),
    {
        let out = Self { entries: Vec::new() };
        assert(out@ =~= Map::<Seq<u8>, Set<Seq<char>>>::empty());
        out
    }

    /// Retrieves the tags associated with the specified event ID: the
    /// tags of the event, each at least once, or nothing where the event
    /// is not in the index.
    pub fn get_tags_for_event(&self, event_id: &[u8]) -> (out: Option<&Vec<String>>)
        ensures
            match out {
                Some(tags) => self@.contains_key(event_id@) && tag_set(tags@) == self@[event_id@],
                None => !self@.contains_key(event_id@),
            },
    {
        proof {
            use_type_invariant(self);
        }
        match find_entry(&self.entries, event_id) {
            Some(i) => {
                proof {
                    lemma_index_at(self.entries@, i as int);
                }
                Some(&self.entries[i].tags)
            },
            None => None,
        }
    }

    /// Tags an event with the provided tags: they join the tags that the
    /// index holds for the event. Without tags, nothing changes.
    pub fn tag_event(&mut self, event: Event, tags: Vec<String>)
        ensures
            final(self)@ == if tags@.len() == 0 {
                old(self)@
            } else {
                old(self)@.insert(
                    event.id@,
                    tags_in(old(self)@, event.id@).union(tag_set(tags@)),
                )
            },
    {
        proof {
            use_type_invariant(&*self);
        }
        if tags.len() == 0 {
            return ;
        }
        let ghost before = self.entries@;
        let ghost id = event.id@;
        let mut tags = tags;
        let ghost added = tags@;
        let mut entries: Vec<TagEntry> = Vec::new();
        std::mem::swap(&mut self.entries, &mut entries);
        let mut entry = match find_entry(&entries, event.id.as_slice()) {
            Some(i) => {
                proof {
                    lemma_index_at(before, i as int);
                    lemma_index_without(before, i as int);
                    assert forall|k: int| 0 <= k < before.remove(i as int).len() implies (
                    #[trigger] before.remove(i as int)[k]).tags@.len() > 0 by {
                        assert(before.remove(i as int)[k] == before[if k < i {
                            k
                        } else {
                            k + 1
                        }]);
                    }
                }
                entries.remove(i)
            },
            None => TagEntry { event_id: event.id, tags: Vec::new() },
        };
        let ghost held = entry.tags@;
        let ghost rest = entries@;
        assert(tag_set(held) == tags_in(index_of(before), id)) by {
            if !has_event(before, id) {
                assert(tag_set(held) =~= Set::<Seq<char>>::empty());
            }
        }
        assert(index_of(rest) == index_of(before).remove(id)) by {
            if !has_event(before, id) {
                assert(index_of(before).remove(id) =~= index_of(before));
            }
        }
        entry.tags.append(&mut tags);
        proof {
            lemma_tag_set_of_both(held, added);
            lemma_index_push(rest, entry);
            assert(index_of(before).remove(id).insert(id, tag_set(entry.tags@)) =~= index_of(
                before,
            ).insert(id, tag_set(entry.tags@)));
            assert forall|k: int| 0 <= k < rest.push(entry).len() implies (
            #[trigger] rest.push(entry)[k]).tags@.len() > 0 by {
                if k < rest.len() {
                    assert(rest.push(entry)[k] == rest[k]);
                }
            }
        }
        entries.push(entry);
        self.entries = entries;
    }

    /// Removes an event ID from its associated tag map: the tag `tag`
    /// leaves the tags of the event `event_id`, and an event left without
    /// tags leaves the index.
    pub fn remove_event_from_tag(&mut self, event_id: &[u8], tag: &str)
        ensures
            final(self)@ == if !old(self)@.contains_key(event_id@) {
                old(self)@
            } else if old(self)@[event_id@].remove(tag@) == Set::<Seq<char>>::empty() {
                old(self)@.remove(event_id@)
            } else {
                old(self)@.insert(event_id@, old(self)@[event_id@].remove(tag@))
            },
    {
        proof {
            use_type_invariant(&*self);
        }
        let ghost before = self.entries@;
        let ghost id = event_id@;
        let i = match find_entry(&self.entries, event_id) {
            Some(i) => i,
            None => {
                return ;
            },
        };
        proof {
            lemma_index_at(before, i as int);
            lemma_index_without(before, i as int);
            assert forall|k: int| 0 <= k < before.remove(i as int).len() implies (
            #[trigger] before.remove(i as int)[k]).tags@.len() > 0 by {
                assert(before.remove(i as int)[k] == before[if k < i {
                    k
                } else {
                    k + 1
                }]);
            }
        }
        let wanted = tag.to_owned();
        let mut entries: Vec<TagEntry> = Vec::new();
        std::mem::swap(&mut self.entries, &mut entries);
        let mut entry = entries.remove(i);
        let ghost rest = entries@;
        remove_tag(&mut entry.tags, &wanted);
        proof {
            lemma_tag_set_empty(entry.tags@);
        }
        if entry.tags.len() > 0 {
            proof {
                lemma_index_push(rest, entry);
                assert(index_of(before).remove(id).insert(id, tag_set(entry.tags@)) =~= index_of(
                    before,
                ).insert(id, tag_set(entry.tags@)));
                assert forall|k: int| 0 <= k < rest.push(entry).len() implies (
                #[trigger] rest.push(entry)[k]).tags@.len() > 0 by {
                    if k < rest.len() {
                        assert(rest.push(entry)[k] == rest[k]);
                    }
                }
            }
            entries.push(entry);
        }
        self.entries = entries;
    }

    /// Deletes a tag from all associated events: the tag leaves the tags
    /// of every event, and an event left without tags leaves the index.
    pub fn delete_tag(&mut self, tag: &str)
        ensures
            final(self)@ == without_tag(old(self)@, tag@),
    {
        proof {
            use_type_invariant(&*self);
        }
        let wanted = tag.to_owned();
        let ghost goal = without_tag(index_of(self.entries@), tag@);
        let mut entries: Vec<TagEntry> = Vec::new();
        std::mem::swap(&mut self.entries, &mut entries);
        let mut remaining: usize = entries.len();
        while remaining > 0
            invariant
                remaining <= entries@.len(),
                wanted@ == tag@,
                entries_wf(entries@),
                forall|k: int|
                    remaining <= k < entries@.len() ==> !tag_set(
                        (#[trigger] entries@[k]).tags@,
                    ).contains(tag@),
                without_tag(index_of(entries@), tag@) == goal,
            decreases remaining,
        {
            let ghost current = entries@;
            proof {
                lemma_index_at(current, 0);
                lemma_index_without(current, 0);
            }
            let mut entry = entries.remove(0);
            let ghost id = entry.event_id@;
            let ghost held = tag_set(entry.tags@);
            let ghost rest = entries@;
            assert forall|k: int| 0 <= k < rest.len() implies #[trigger] rest[k] == current[k
                + 1] by {}
            remove_tag(&mut entry.tags, &wanted);
            proof {
                lemma_tag_set_empty(entry.tags@);
            }
            if entry.tags.len() > 0 {
                proof {
                    lemma_index_push(rest, entry);
                    assert forall|k: int| 0 <= k < rest.push(entry).len() implies (
                    #[trigger] rest.push(entry)[k]).tags@.len() > 0 by {
                        if k < rest.len() {
                            assert(rest.push(entry)[k] == rest[k]);
                        }
                    }
                    assert(held.remove(tag@).remove(tag@) =~= held.remove(tag@));
                    assert(without_tag(index_of(rest.push(entry)), tag@) =~= without_tag(
                        index_of(current),
                        tag@,
                    ));
                }
                entries.push(entry);
            } else {
                proof {
                    assert(without_tag(index_of(rest), tag@) =~= without_tag(
                        index_of(current),
                        tag@,
                    ));
                }
            }
            remaining -= 1;
            proof {
                assert forall|k: int| remaining <= k < entries@.len() implies !tag_set(
                    (#[trigger] entries@[k]).tags@,
                ).contains(tag@) by {
                    if k < rest.len() {
                        assert(entries@[k] == current[k + 1]);
                    }
                }
            }
        }
        proof {
            let after = entries@;
            assert forall|id: Seq<u8>| index_of(after).contains_key(id) implies index_of(after)[id]
                .remove(tag@) == index_of(after)[id] && index_of(after)[id] != Set::<
                Seq<char>,
            >::empty() by {
                let a = place_of(after, id);
                lemma_index_at(after, a);
                lemma_tag_set_empty(after[a].tags@);
                assert(!tag_set(after[a].tags@).contains(tag@));
                assert(tag_set(after[a].tags@).remove(tag@) =~= tag_set(after[a].tags@));
            }
            assert(without_tag(index_of(after), tag@) =~= index_of(after));
        }
        self.entries = entries;
    }
}

} // verus!
