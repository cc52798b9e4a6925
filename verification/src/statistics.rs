//! Figures about the messages shown: how often each member was used, how
//! long its calls took and how large its messages were.

use crate::filtered_message_model::FilteredMessageModel;
use crate::message::{
    interface_display, member_display, response_nanos, Message, };
use crate::message_list::{partner_of, MessageList};
use crate::message_type::MessageType;
use crate::projection::lemma_visible_before;
use crate::stream::MessageListView;
use crate::timestamp::Timestamp;
use vstd::prelude::*;

verus! {

/// What messages are grouped by: their kind, and the interface and the
/// member that are shown for them.
#[derive(Debug, PartialEq, Eq)]
pub struct GroupKey {
    pub message_type: MessageType,
    pub interface: String,
    pub member: String,
}

/// What one message adds to the figures.
#[derive(Debug, PartialEq, Eq)]
pub struct Sample {
    pub key: GroupKey,
    /// The length of the message in bytes.
    pub len: u32,
    /// For a call with a method return, the time between the two.
    pub duration: Option<Timestamp>,
}

/// The figures wanted.
#[derive(Debug, Clone, Copy, PartialEq, Eq, Structural)]
pub enum Statistic {
    /// How often each member occurs; replies do not count.
    Frequencies,
    /// How long the calls of each member took; only calls with a method
    /// return count.
    Durations,
    /// How large the messages of each member are; every message counts.
    Sizes,
}

/// The figures of one group.
#[derive(Debug, PartialEq, Eq)]
pub struct Group {
    pub key: GroupKey,
    /// How many messages the group has.
    pub count: usize,
    /// The length of its shortest message.
    pub smallest: u32,
    /// The length of its longest message.
    pub largest: u32,
    /// The lengths of its messages together.
    pub total_len: u128,
    /// The durations of its messages together; `None` where their seconds
    /// do not fit in 64 bits.
    pub total_time: Option<Timestamp>,
}

/// What a [`GroupKey`] stands for.
pub struct GroupKeyView {
    pub message_type: MessageType,
    pub interface: Seq<char>,
    pub member: Seq<char>,
}

/// What a [`Sample`] stands for; the duration in nanoseconds.
pub struct SampleView {
    pub key: GroupKeyView,
    pub len: u32,
    pub duration: Option<int>,
}

/// The figures of a group as numbers.
pub struct Tally {
    pub count: int,
    pub smallest: int,
    pub largest: int,
    pub total_len: int,
    pub total_nanos: int,
}

impl View for GroupKey {
    type V = GroupKeyView;

    open spec fn view(&self) -> GroupKeyView {
        GroupKeyView {
            message_type: self.message_type,
            interface: self.interface@,
            member: self.member@,
        }
    }
}

impl View for Sample {
    type V = SampleView;

    open spec fn view(&self) -> SampleView {
        SampleView {
            key: self.key@,
            len: self.len,
            duration: match self.duration {
                Some(duration) => Some(duration.total_nanos()),
                None => None,
            },
        }
    }
}

/// What samples stand for.
pub open spec fn sample_views(samples: Seq<Sample>) -> Seq<SampleView> {
    samples.map_values(|sample: Sample| sample@)
}

/// The time that does not fit a `Timestamp` any more, in nanoseconds.
pub open spec fn time_limit() -> int {
    (u64::MAX as int + 1) * 1_000_000_000
}

/// Whether a sample counts for the figures wanted.
pub open spec fn counts_for(sample: SampleView, statistic: Statistic) -> bool {
    match statistic {
        Statistic::Frequencies => !(sample.key.message_type is MethodReturn
            || sample.key.message_type is Error),
        Statistic::Durations => sample.duration is Some,
        Statistic::Sizes => true,
    }
}

/// The figures of no messages.
pub open spec fn no_tally() -> Tally {
    Tally { count: 0, smallest: 0, largest: 0, total_len: 0, total_nanos: 0 }
}

/// The figures with one more sample.
pub open spec fn tally_with(tally: Tally, sample: SampleView) -> Tally {
    Tally {
        count: tally.count + 1,
        smallest: if tally.count == 0 || sample.len < tally.smallest {
            sample.len as int
        } else {
            tally.smallest
        },
        largest: if tally.count == 0 || sample.len > tally.largest {
            sample.len as int
        } else {
            tally.largest
        },
        total_len: tally.total_len + sample.len,
        total_nanos: tally.total_nanos + match sample.duration {
            Some(nanos) => nanos,
            None => 0,
        },
    }
}

/// The figures of the samples that count and have the key.
pub open spec fn tally(samples: Seq<SampleView>, statistic: Statistic, key: GroupKeyView) -> Tally
    decreases samples.len(),
{
    if samples.len() == 0 {
        no_tally()
    } else if counts_for(samples.last(), statistic) && samples.last().key == key {
        tally_with(tally(samples.drop_last(), statistic, key), samples.last())
    } else {
        tally(samples.drop_last(), statistic, key)
    }
}

/// The keys of the samples that count, each once, in the order of first
/// appearance.
pub open spec fn group_keys(samples: Seq<SampleView>, statistic: Statistic) -> Seq<GroupKeyView>
    decreases samples.len(),
{
    if samples.len() == 0 {
        Seq::empty()
    } else {
        let rest = group_keys(samples.drop_last(), statistic);
        if counts_for(samples.last(), statistic) && !rest.contains(samples.last().key) {
            rest.push(samples.last().key)
        } else {
            rest
        }
    }
}

/// What one more sample does to the figures of a key and to the keys.
pub proof fn lemma_one_more_sample(
    samples: Seq<SampleView>,
    statistic: Statistic,
    key: GroupKeyView,
)
    requires
        samples.len() > 0,
    ensures
        tally(samples, statistic, key) == if counts_for(samples.last(), statistic)
            && samples.last().key == key {
            tally_with(tally(samples.drop_last(), statistic, key), samples.last())
        } else {
            tally(samples.drop_last(), statistic, key)
        },
        group_keys(samples, statistic) == if counts_for(samples.last(), statistic) && !group_keys(
            samples.drop_last(),
            statistic,
        ).contains(samples.last().key) {
            group_keys(samples.drop_last(), statistic).push(samples.last().key)
        } else {
            group_keys(samples.drop_last(), statistic)
        },
{
}

impl Group {
    /// The group has the figures of the tally.
    pub open spec fn is_tally(&self, tally: Tally) -> bool {
        &&& self.count == tally.count
        &&& self.smallest == tally.smallest
        &&& self.largest == tally.largest
        &&& self.total_len == tally.total_len
        &&& self.total_time is Some <==> tally.total_nanos < time_limit()
        &&& self.total_time matches Some(time) ==> time.total_nanos() == tally.total_nanos
    }

    /// The length of a message of the group on average, rounded down; zero
    /// for a group without messages.
    pub fn mean_len(&self) -> (mean: u128)
        ensures
            mean == if self.count == 0 {
                0
            } else {
                self.total_len as int / self.count as int
            },
    {
        if self.count == 0 {
            0
        } else {
            self.total_len / (self.count as u128)
        }
    }

    /// The duration of a call of the group on average, rounded down to the
    /// nanosecond; `None` for a group without messages or without a total.
    pub fn mean_time(&self) -> (mean: Option<Timestamp>)
        ensures
            mean is Some <==> self.total_time is Some && 0 < self.count <= u32::MAX,
            mean matches Some(time) ==> time.total_nanos() == self.total_time.unwrap().total_nanos()
                / self.count as int,
    {
        match self.total_time {
            Some(total) => if self.count > 0 && self.count <= u32::MAX as usize {
                total.checked_div(self.count as u32)
            } else {
                None
            },
            None => None,
        }
    }
}

impl GroupKey {
    /// Whether both keys are the same.
    pub fn same_as(&self, other: &GroupKey) -> (r: bool)
        ensures
            r == (self@ == other@),
    {
        self.message_type == other.message_type && self.interface == other.interface && self.member
            == other.member
    }
}

impl Clone for GroupKey {
    fn clone(&self) -> (copy: Self)
        ensures
            copy@ == self@,
    {
        GroupKey {
            message_type: self.message_type,
            interface: self.interface.clone(),
            member: self.member.clone(),
        }
    }
}

/// Whether a sample counts for the figures wanted.
fn sample_counts(sample: &Sample, statistic: Statistic) -> (r: bool)
    ensures
        r == counts_for(sample@, statistic),
{
    match statistic {
        Statistic::Frequencies => !sample.key.message_type.is_method_return(),
        Statistic::Durations => sample.duration.is_some(),
        Statistic::Sizes => true,
    }
}

/// The figures of the samples that count, group by group, in the order in
/// which the groups first appear.
pub fn summarize(samples: &Vec<Sample>, statistic: Statistic) -> (groups: Vec<Group>)
    ensures
        groups@.len() == group_keys(sample_views(samples@), statistic).len(),
        forall|j: int|
            0 <= j < groups@.len() ==> (#[trigger] groups@[j]).key@ == group_keys(
                sample_views(samples@),
                statistic,
            )[j] && groups@[j].is_tally(
                tally(sample_views(samples@), statistic, groups@[j].key@),
            ),
{
    let ghost all = sample_views(samples@);
    let mut groups: Vec<Group> = Vec::new();
    let mut i: usize = 0;
    assert(all.subrange(0, 0) =~= Seq::empty());
    while i < samples.len()
        invariant
            i <= samples.len(),
            all == sample_views(samples@),
            groups@.len() == group_keys(all.subrange(0, i as int), statistic).len(),
            forall|j: int|
                0 <= j < groups@.len() ==> (#[trigger] groups@[j]).key@ == group_keys(
                    all.subrange(0, i as int),
                    statistic,
                )[j] && groups@[j].is_tally(
                    tally(all.subrange(0, i as int), statistic, groups@[j].key@),
                ) && 1 <= groups@[j].count <= i && groups@[j].total_len <= groups@[j].count
                    * u32::MAX,
            forall|a: int, b: int|
                0 <= a < b < groups@.len() ==> (#[trigger] groups@[a]).key@ != (
                #[trigger] groups@[b]).key@,
            forall|key: GroupKeyView|
                !group_keys(all.subrange(0, i as int), statistic).contains(key) ==> #[trigger] tally(
                    all.subrange(0, i as int),
                    statistic,
                    key,
                ) == no_tally(),
        decreases samples.len() - i,
    {
        let sample = &samples[i];
        let ghost before = all.subrange(0, i as int);
        let ghost after = all.subrange(0, i as int + 1);
        let ghost keys = group_keys(before, statistic);
        let ghost old_groups = groups@;
        proof {
            assert(after.drop_last() =~= before);
            assert(after.last() == sample@);
            lemma_one_more_sample(after, statistic, sample@.key);
            match sample.duration {
                Some(duration) => {
                    use_type_invariant(duration);
                    duration.lemma_total_nanos_range();
                },
                None => {},
            }
            assert forall|key: GroupKeyView| #[trigger]
                tally(after, statistic, key) == if counts_for(sample@, statistic) && sample@.key
                    == key {
                    tally_with(tally(before, statistic, key), sample@)
                } else {
                    tally(before, statistic, key)
                } by {
                lemma_one_more_sample(after, statistic, key);
            }
        }
        if sample_counts(sample, statistic) {
            let mut at: usize = 0;
            let mut found = false;
            while at < groups.len() && !found
                invariant
                    at <= groups.len(),
                    groups@ == old_groups,
                    found ==> at < groups.len() && groups@[at as int].key@ == sample@.key,
                    !found ==> forall|j: int|
                        0 <= j < at ==> (#[trigger] groups@[j]).key@ != sample@.key,
                decreases groups.len() - at + if found { 0int } else { 1int },
            {
                if groups[at].key.same_as(&sample.key) {
                    found = true;
                } else {
                    at += 1;
                }
            }
            if found {
                proof {
                    assert(keys[at as int] == sample@.key);
                    assert(keys.contains(sample@.key));
                }
                let ghost old_tally = tally(before, statistic, sample@.key);
                let count = groups[at].count + 1;
                let smallest = if sample.len < groups[at].smallest {
                    sample.len
                } else {
                    groups[at].smallest
                };
                let largest = if sample.len > groups[at].largest {
                    sample.len
                } else {
                    groups[at].largest
                };
                assert(groups[at as int].count * u32::MAX + u32::MAX <= u128::MAX) by (nonlinear_arith)
                    requires
                        groups[at as int].count <= usize::MAX,
                ;
                let total_len = groups[at].total_len + sample.len as u128;
                let old_total = groups[at].total_time;
                proof {
                    match old_total {
                        Some(total) => {
                            use_type_invariant(total);
                            total.lemma_total_nanos_range();
                        },
                        None => {},
                    }
                }
                let total_time = match (old_total, sample.duration) {
                    (Some(total), Some(duration)) => total.checked_add(duration),
                    (Some(total), None) => Some(total),
                    (None, _) => None,
                };
                assert(count * u32::MAX == groups[at as int].count * u32::MAX + u32::MAX) by (nonlinear_arith)
                    requires
                        count == groups[at as int].count + 1,
                ;
                groups[at].count = count;
                groups[at].smallest = smallest;
                groups[at].largest = largest;
                groups[at].total_len = total_len;
                groups[at].total_time = total_time;
                proof {
                    assert forall|j: int| 0 <= j < groups@.len() implies (#[trigger] groups@[j]).key@
                        == group_keys(after, statistic)[j] && groups@[j].is_tally(
                        tally(after, statistic, groups@[j].key@),
                    ) && 1 <= groups@[j].count <= i + 1 && groups@[j].total_len <= groups@[j].count
                        * u32::MAX by {
                        if j != at as int {
                            assert(groups@[j] == old_groups[j]);
                            if j < at {
                                assert(old_groups[j].key@ != old_groups[at as int].key@);
                            } else {
                                assert(old_groups[at as int].key@ != old_groups[j].key@);
                            }
                        }
                    }
                    assert forall|a: int, b: int| 0 <= a < b < groups@.len() implies (
                    #[trigger] groups@[a]).key@ != (#[trigger] groups@[b]).key@ by {
                        assert(old_groups[a].key@ != old_groups[b].key@);
                    }
                }
            } else {
                proof {
                    if keys.contains(sample@.key) {
                        let j = choose|j: int| 0 <= j < keys.len() && keys[j] == sample@.key;
                        assert(old_groups[j].key@ == sample@.key);
                    }
                    assert(tally(before, statistic, sample@.key) == no_tally());
                }
                groups.push(
                    Group {
                        key: sample.key.clone(),
                        count: 1,
                        smallest: sample.len,
                        largest: sample.len,
                        total_len: sample.len as u128,
                        total_time: match sample.duration {
                            Some(duration) => Some(duration),
                            None => Timestamp::new(0, 0),
                        },
                    },
                );
                proof {
                    assert forall|j: int| 0 <= j < groups@.len() implies (#[trigger] groups@[j]).key@
                        == group_keys(after, statistic)[j] && groups@[j].is_tally(
                        tally(after, statistic, groups@[j].key@),
                    ) && 1 <= groups@[j].count <= i + 1 && groups@[j].total_len <= groups@[j].count
                        * u32::MAX by {
                        if j < old_groups.len() {
                            assert(groups@[j] == old_groups[j]);
                            assert(old_groups[j].key@ != sample@.key);
                        } else {
                            assert(groups@[j].count * u32::MAX == u32::MAX) by (nonlinear_arith)
                                requires
                                    groups@[j].count == 1,
                            ;
                        }
                    }
                    assert forall|a: int, b: int| 0 <= a < b < groups@.len() implies (
                    #[trigger] groups@[a]).key@ != (#[trigger] groups@[b]).key@ by {
                        if b < old_groups.len() {
                            assert(old_groups[a].key@ != old_groups[b].key@);
                        } else {
                            assert(old_groups[a].key@ != sample@.key);
                        }
                    }
                }
            }
            proof {
                let new_keys = group_keys(after, statistic);
                assert forall|key: GroupKeyView| !new_keys.contains(key) implies #[trigger] tally(
                    after,
                    statistic,
                    key,
                ) == no_tally() by {
                    if keys.contains(key) {
                        let j = choose|j: int| 0 <= j < keys.len() && keys[j] == key;
                        assert(new_keys[j] == key);
                    }
                    if key == sample@.key {
                        if keys.contains(key) {
                        } else {
                            assert(new_keys[new_keys.len() - 1] == key);
                        }
                    }
                    assert(tally(before, statistic, key) == no_tally());
                }
            }
        } else {
            proof {
                assert(group_keys(after, statistic) == keys);
                assert forall|j: int| 0 <= j < groups@.len() implies (#[trigger] groups@[j]).key@
                    == group_keys(after, statistic)[j] && groups@[j].is_tally(
                    tally(after, statistic, groups@[j].key@),
                ) && 1 <= groups@[j].count <= i + 1 && groups@[j].total_len <= groups@[j].count
                    * u32::MAX by {
                    assert(tally(after, statistic, groups@[j].key@) == tally(
                        before,
                        statistic,
                        groups@[j].key@,
                    ));
                }
                assert forall|key: GroupKeyView| !keys.contains(key) implies #[trigger] tally(
                    after,
                    statistic,
                    key,
                ) == no_tally() by {
                    assert(tally(before, statistic, key) == no_tally());
                }
            }
        }
        i += 1;
    }
    assert(all.subrange(0, i as int) =~= all);
    groups
}

/// What the message at `position` of a stream adds to the figures: its
/// kind with the interface and the member shown for it, its length, cut at
/// the greatest length that fits in 32 bits, and, for a call with a method
/// return as partner, the time between the two.
pub open spec fn sample_of(list: MessageListView, position: int) -> SampleView {
    let message = list.messages[position];
    let other = partner_of(list, position);
    SampleView {
        key: GroupKeyView {
            message_type: message.header().message_type,
            interface: interface_display(message, other),
            member: member_display(message, other),
        },
        len: if message.event.data.len() > u32::MAX {
            u32::MAX
        } else {
            message.event.data.len() as u32
        },
        duration: if message.header().message_type is MethodCall && other is Some
            && other.unwrap().header().message_type is MethodReturn {
            response_nanos(message, other)
        } else {
            None
        },
    }
}

/// What a message of a stream adds to the figures.
pub fn sample(list: &MessageList, message: &Message) -> (sample: Sample)
    requires
        message@.receive_index is Some,
        message@.index() < list@.messages.len(),
        list@.messages[message@.index()] == message@,
    ensures
        sample@ == sample_of(list@, message@.index()),
{
    let other = list.associated_message(message);
    let len = message.len();
    let duration = match other {
        Some(reply) => if message.message_type().is_method_call() && reply.message_type()
            == MessageType::MethodReturn {
            message.response_time(other)
        } else {
            None
        },
        None => None,
    };
    Sample {
        key: GroupKey {
            message_type: message.message_type(),
            interface: message.interface_display(other),
            member: message.member_display(other),
        },
        len: if len > u32::MAX as usize {
            u32::MAX
        } else {
            len as u32
        },
        duration,
    }
}

/// What the messages shown add to the figures, one sample for each, in
/// their order.
pub fn samples(model: &FilteredMessageModel) -> (samples: Vec<Sample>)
    requires
        model.wf(),
    ensures
        model@.list is None ==> samples@.len() == 0,
        model@.list matches Some(list) ==> samples@.len() == model@.visible.len() && forall|k: int|
            0 <= k < samples@.len() ==> (#[trigger] samples@[k])@ == sample_of(
                list,
                model@.visible[k] as int,
            ),
{
    let mut samples: Vec<Sample> = Vec::new();
    let list = match model.message_list() {
        Some(list) => list,
        None => {
            return samples;
        },
    };
    proof {
        lemma_visible_before(list@, model@.filters, list@.messages.len() as int);
    }
    let count = model.n_items();
    let mut place: usize = 0;
    while place < count
        invariant
            place <= count,
            count == model@.visible.len(),
            model.wf(),
            model@.list == Some(list@),
            list.wf(),
            samples@.len() == place,
            forall|k: int|
                0 <= k < model@.visible.len() ==> (#[trigger] model@.visible[k])
                    < list@.messages.len(),
            forall|k: int|
                0 <= k < samples@.len() ==> (#[trigger] samples@[k])@ == sample_of(
                    list@,
                    model@.visible[k] as int,
                ),
        decreases count - place,
    {
        match model.item(place) {
            Some(message) => {
                assert(message@ == list@.messages[model@.visible[place as int] as int]);
                samples.push(sample(list, message));
            },
            None => {
                // every place below the count holds a message
                assert(false);
            },
        }
        place += 1;
    }
    samples
}

} // verus!
