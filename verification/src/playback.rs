//! What is done with the messages of a bag: replay, export, summary.

use base64::engine::general_purpose::STANDARD;
use base64::Engine;
use vstd::prelude::*;
use vstd::string::*;

use crate::bag::{
    bag_reading, channel_type, channel_verdict, find_value, holds_recorded, is_topic_channel,
    message_views, profile_of, profile_stuck, read_messages, read_profile, value_of,
    written_sample_is_read_back, BagWriter, Ending, ProfileMetadata, ProfileView, ReadingEnd,
};
use crate::catalog::{catalog_sound, contract_text};
use crate::container::{
    bag_records, BagMessage, ChannelView, MessageView, PROFILE, TOPIC_ID_KEY,
};
use crate::error::{because, plainly, Error, Report};
use crate::text::{decimal, label, labelled, number, opt_view, same, views};
use crate::types::{recorded, restored_payload_is_recorded, TopicType};

verus! {

/// Why the payload of a message could not be recovered.
pub open spec fn payload_failure(known: TopicType, data: Seq<u8>) -> Seq<char> {
    match known.topic.payload_size {
        Some(size) => "invalid fixed-layout MCAP wrapper ("@ + decimal(data.len())
            + " bytes, expected "@ + decimal((size + 14) as nat) + ")"@,
        None => known.topic.name@ + ": "@ + known.decoding(data)->Err_0.text(),
    }
}

/// The type of a message, its zenoh payload, and the payload decoded; or why they cannot
/// be had.
pub open spec fn recovered(message: MessageView) -> Result<(TopicType, Seq<u8>, Seq<char>), Report> {
    match channel_verdict(message.channel) {
        Err(report) => Err(report),
        Ok(known) => match known.restored(message.data) {
            None => Err(
                because(
                    "MCAP payload on "@ + message.channel.topic + " does not match "@
                        + known.topic.name@,
                    payload_failure(known, message.data),
                ),
            ),
            Some(payload) => match known.decoding(payload) {
                Err(failure) => Err(plainly(known.topic.name@ + ": "@ + failure.text())),
                Ok(text) => Ok((known, payload, text)),
            },
        },
    }
}

/// A message of a bag, converted back.
#[derive(Debug)]
pub struct Recovered {
    pub known: TopicType,
    pub payload: Vec<u8>,
    pub decoded: String,
}

/// Convert a message of a bag back.
pub fn recover(message: &BagMessage) -> (r: Result<Recovered, Error>)
    ensures
        match r {
            Ok(back) => back.known.wf() && recovered(message@) == Ok::<
                (TopicType, Seq<u8>, Seq<char>),
                Report,
            >((back.known, back.payload@, back.decoded@)),
            Err(error) => recovered(message@) == Err::<(TopicType, Seq<u8>, Seq<char>), Report>(
                error@,
            ),
        },
{
    let known = match channel_type(&message.channel) {
        Ok(known) => known,
        Err(error) => return Err(error),
    };
    let data = message.data.as_slice();
    assert(data.len() == data@.len());
    let payload = match known.mcap_to_zenoh_payload(data) {
        Ok(payload) => payload,
        Err(error) => return Err(
            Error::BagPayload {
                channel: message.channel.topic.clone(),
                topic: known.topic.name.to_owned(),
                cause: error.message(),
            },
        ),
    };
    match known.decode(payload) {
        Ok(decoded) => {
            let mut copy: Vec<u8> = Vec::new();
            copy.extend_from_slice(payload);
            assert(copy@ =~= payload@);
            Ok(Recovered { known, payload: copy, decoded })
        },
        Err(error) => Err(error),
    }
}

/// Whether a message passes a filter by its channel's topic.
pub open spec fn passes(filter: Option<Seq<char>>, message: MessageView) -> bool {
    filter matches Some(topic) ==> message.channel.topic == topic
}

/// Whether a message passes a filter by its channel's topic.
pub fn is_selected(filter: &Option<String>, message: &BagMessage) -> (r: bool)
    ensures
        r == passes(opt_view(*filter), message@),
        filter matches Some(topic) ==> r == (message.channel.topic@ == topic@),
        filter is None ==> r,
{
    match filter {
        Some(topic) => same(topic.as_str(), message.channel.topic.as_str()),
        None => true,
    }
}

/// A recorded sample is replayed as it was: what is recovered from the message that was
/// written for it is its type, its payload, and the payload decoded.
pub proof fn written_sample_is_replayed(
    before: BagWriter,
    after: BagWriter,
    key: Seq<char>,
    known: TopicType,
    log_time_ns: u64,
    payload: Seq<u8>,
)
    requires
        known.wf(),
        holds_recorded(before, after, key, known, log_time_ns, payload),
        before.channels().dom().contains(key) ==> is_topic_channel(
            before.channels()[key].0,
            known.topic.id,
            key,
        ),
    ensures
        catalog_sound() ==> recovered(after.messages().last()) == Ok::<
            (TopicType, Seq<u8>, Seq<char>),
            Report,
        >((known, payload, known.decoding(payload)->Ok_0)),
{
    written_sample_is_read_back(before, after, key, known, log_time_ns, payload);
}

/// What is put on zenoh of a message.
#[derive(Debug)]
pub struct Publication {
    pub key: String,
    pub payload: Vec<u8>,
    pub encoding: String,
}

/// Whether a publication replays a message that was converted back.
pub open spec fn replays(
    publication: Publication,
    message: MessageView,
    known: TopicType,
    payload: Seq<u8>,
) -> bool {
    &&& publication.key@ == message.channel.topic
    &&& publication.payload@ == payload
    &&& publication.encoding@ == contract_text(known.topic)
}

/// What to put on zenoh of a message: its payload on its channel's topic, under the
/// topic's value contract.
pub fn publication(message: &BagMessage) -> (r: Result<Publication, Error>)
    ensures
        match recovered(message@) {
            Ok((known, payload, decoded)) => r is Ok && r->Ok_0.key@ == message@.channel.topic
                && r->Ok_0.payload@ == payload && r->Ok_0.encoding@ == contract_text(known.topic)
                && replays(r->Ok_0, message@, known, payload),
            Err(report) => r is Err && r->Err_0@ == report,
        },
{
    match recover(message) {
        Ok(back) => Ok(
            Publication {
                key: message.channel.topic.clone(),
                payload: back.payload,
                encoding: back.known.zenoh_encoding(),
            },
        ),
        Err(error) => Err(error),
    }
}

/// A replay: when the last message was logged, and how many were published.
#[derive(Clone, Copy, Debug)]
pub struct Playback {
    pub previous_ns: Option<u64>,
    pub played: u64,
}

/// The time between two messages; none if the second was logged before the first.
pub open spec fn gap(previous: u64, next: u64) -> u64 {
    if previous <= next {
        (next - previous) as u64
    } else {
        0
    }
}

impl Playback {
    /// How long the replay waits before a message.
    pub open spec fn pause(self, log_time: u64) -> Option<u64> {
        match self.previous_ns {
            Some(previous) => Some(gap(previous, log_time)),
            None => None,
        }
    }

    /// The replay when it has come to a message.
    pub open spec fn moved_to(self, log_time: u64) -> Playback {
        Playback { previous_ns: Some(log_time), played: self.played }
    }

    /// How long the replay waits before all of some messages.
    pub open spec fn paused(self, times: Seq<u64>) -> nat
        decreases times.len(),
    {
        if times.len() == 0 {
            0
        } else {
            self.moved_to(times[0]).paused(times.drop_first()) + match self.pause(times[0]) {
                Some(wait) => wait as nat,
                None => 0,
            }
        }
    }

    /// A replay that has not begun.
    pub fn new() -> (r: Playback)
        ensures
            r.previous_ns is None,
            r.played == 0,
    {
        Playback { previous_ns: None, played: 0 }
    }

    /// How long to wait before a message, before the rate is taken into account. There is
    /// no waiting before the first.
    pub fn wait_ns(&mut self, log_time: u64) -> (r: Option<u64>)
        ensures
            r == match old(self).previous_ns {
                Some(previous) => Some(gap(previous, log_time)),
                None => None,
            },
            final(self).previous_ns == Some(log_time),
            final(self).played == old(self).played,
            r == old(self).pause(log_time),
            *final(self) == old(self).moved_to(log_time),
    {
        let wait: Option<u64> = match self.previous_ns {
            Some(previous) => Some(log_time.saturating_sub(previous)),
            None => None,
        };
        self.previous_ns = Some(log_time);
        wait
    }

    /// The replay after some messages were published.
    pub open spec fn published(self, messages: nat) -> Playback
        decreases messages,
    {
        if messages == 0 {
            self
        } else {
            self.published((messages - 1) as nat).counted()
        }
    }

    /// The replay with one more message published.
    pub open spec fn counted(self) -> Playback {
        Playback { previous_ns: self.previous_ns, played: (self.played + 1) as u64 }
    }

    /// A message was published.
    pub fn count(&mut self)
        requires
            old(self).played < u64::MAX,
        ensures
            *final(self) == old(self).counted(),
            final(self).played == old(self).played + 1,
            final(self).previous_ns == old(self).previous_ns,
    {
        self.played = self.played + 1;
    }
}

/// The time that a replay of messages logged at `times` waits, at its natural rate.
pub open spec fn waiting(times: Seq<u64>) -> nat
    decreases times.len(),
{
    if times.len() < 2 {
        0
    } else {
        waiting(times.drop_last()) + gap(times[times.len() - 2], times.last()) as nat
    }
}

/// A replay of messages in the order of their times takes as long as they took.
pub proof fn replay_takes_as_long_as_the_recording(times: Seq<u64>)
    requires
        times.len() > 0,
        forall|i: int, j: int| 0 <= i <= j < times.len() ==> times[i] <= times[j],
    ensures
        waiting(times) == times.last() - times[0],
    decreases times.len(),
{
    if times.len() >= 2 {
        let before = times.drop_last();
        assert forall|i: int, j: int| 0 <= i <= j < before.len() implies before[i] <= before[j] by {
            assert(before[i] == times[i]);
            assert(before[j] == times[j]);
        }
        replay_takes_as_long_as_the_recording(before);
        assert(before.last() == times[times.len() - 2]);
    }
}

/// The Base64 digit of a value below sixty-four, in the standard alphabet.
pub open spec fn base64_digit(value: int) -> char {
    if value < 26 {
        (65 + value) as char
    } else if value < 52 {
        (71 + value) as char
    } else if value < 62 {
        (value - 4) as char
    } else if value == 62 {
        '+'
    } else {
        '/'
    }
}

/// The standard Base64 text of bytes, padded: four digits of six bits for three bytes.
pub open spec fn base64_of(bytes: Seq<u8>) -> Seq<char>
    decreases bytes.len(),
{
    if bytes.len() == 0 {
        seq![]
    } else {
        let first = bytes[0] as int;
        let second = if bytes.len() > 1 {
            bytes[1] as int
        } else {
            0
        };
        let third = if bytes.len() > 2 {
            bytes[2] as int
        } else {
            0
        };
        seq![
            base64_digit(first / 4),
            base64_digit(first % 4 * 16 + second / 16),
            if bytes.len() > 1 {
                base64_digit(second % 16 * 4 + third / 64)
            } else {
                '='
            },
            if bytes.len() > 2 {
                base64_digit(third % 64)
            } else {
                '='
            },
        ] + base64_of(if bytes.len() > 2 {
            bytes.skip(3)
        } else {
            seq![]
        })
    }
}

/// `base64::Engine::encode` of the `STANDARD` engine: the standard alphabet, with
/// padding.
#[verifier::external_body]
pub(crate) fn base64_text(bytes: &[u8]) -> (r: String)
    ensures
        r@ == base64_of(bytes@),
{
    STANDARD.encode(bytes)
}

/// A message of a bag as it is exported.
#[derive(Debug)]
pub struct ExportFrame {
    pub log_time_ns: u64,
    pub topic: String,
    pub wire_type: Option<&'static str>,
    pub encoding: &'static str,
    pub value_contract: String,
    pub payload_base64: String,
    pub decoded: Option<String>,
}

/// Whether a frame exports a message that was converted back.
pub open spec fn exports(
    frame: ExportFrame,
    message: MessageView,
    known: TopicType,
    payload: Seq<u8>,
    decoded: Seq<char>,
) -> bool {
    &&& frame.log_time_ns == message.log_time
    &&& frame.topic@ == message.channel.topic
    &&& frame.wire_type == Some(known.topic.wire_type)
    &&& frame.encoding == known.topic.encoding
    &&& frame.value_contract@ == contract_text(known.topic)
    &&& frame.payload_base64@ == base64_of(payload)
    &&& opt_view(frame.decoded) == Some(decoded)
}

/// Export a message of a bag.
pub fn export_frame(message: &BagMessage) -> (r: Result<ExportFrame, Error>)
    ensures
        match recovered(message@) {
            Ok((known, payload, decoded)) => r is Ok && exports(
                r->Ok_0,
                message@,
                known,
                payload,
                decoded,
            ),
            Err(report) => r is Err && r->Err_0@ == report,
        },
{
    match recover(message) {
        Ok(back) => Ok(
            ExportFrame {
                log_time_ns: message.log_time,
                topic: message.channel.topic.clone(),
                wire_type: back.known.wire_type(),
                encoding: back.known.topic.encoding,
                value_contract: back.known.zenoh_encoding(),
                payload_base64: base64_text(back.payload.as_slice()),
                decoded: Some(back.decoded),
            },
        ),
        Err(error) => Err(error),
    }
}

/// What a bag holds of a channel.
#[derive(Debug)]
pub struct ChannelSummary {
    pub id: u16,
    pub topic: String,
    pub schema: Option<String>,
    pub message_encoding: String,
    pub topic_id: Option<String>,
    pub messages: u64,
}

/// What a bag holds.
#[derive(Debug)]
pub struct BagSummary {
    /// The ids of the schemas, each once.
    pub schemas: Vec<u16>,
    /// The channels with messages, in the order of their ids.
    pub channels: Vec<ChannelSummary>,
    pub messages: u64,
    /// The least log time, or the greatest number if there are no messages.
    pub start_time: u64,
    /// The greatest log time.
    pub end_time: u64,
}

/// The number of messages on a channel.
pub open spec fn count_on(messages: Seq<MessageView>, id: u16) -> nat
    decreases messages.len(),
{
    if messages.len() == 0 {
        0
    } else {
        count_on(messages.drop_last(), id) + if messages.last().channel.id == id {
            1nat
        } else {
            0
        }
    }
}

/// The channel with an id, as the first message on it has it.
pub open spec fn first_on(messages: Seq<MessageView>, id: u16) -> ChannelView
    decreases messages.len(),
{
    if count_on(messages.drop_last(), id) > 0 && messages.len() > 0 {
        first_on(messages.drop_last(), id)
    } else {
        messages.last().channel
    }
}

/// The least of the log times.
pub open spec fn least_time(messages: Seq<MessageView>) -> u64
    decreases messages.len(),
{
    if messages.len() == 0 {
        u64::MAX
    } else if messages.last().log_time < least_time(messages.drop_last()) {
        messages.last().log_time
    } else {
        least_time(messages.drop_last())
    }
}

/// The greatest of the log times.
pub open spec fn greatest_time(messages: Seq<MessageView>) -> u64
    decreases messages.len(),
{
    if messages.len() == 0 {
        0
    } else if messages.last().log_time > greatest_time(messages.drop_last()) {
        messages.last().log_time
    } else {
        greatest_time(messages.drop_last())
    }
}

/// Whether a summary tells of a channel what its first message and their number tell.
pub open spec fn describes(summary: ChannelSummary, messages: Seq<MessageView>) -> bool {
    let channel = first_on(messages, summary.id);
    &&& summary.messages == count_on(messages, summary.id)
    &&& summary.messages > 0
    &&& summary.topic@ == channel.topic
    &&& opt_view(summary.schema) == match channel.schema {
        Some(schema) => Some(schema.name),
        None => None,
    }
    &&& summary.message_encoding@ == channel.message_encoding
    &&& opt_view(summary.topic_id) == value_of(channel.metadata, TOPIC_ID_KEY@)
}

/// Whether a message's channel has a schema with an id.
pub open spec fn uses_schema(message: MessageView, id: u16) -> bool {
    message.channel.schema matches Some(schema) && schema.id == id
}

/// Whether every message's channel has a schema.
pub open spec fn all_have_schemas(messages: Seq<MessageView>) -> bool {
    forall|i: int| 0 <= i < messages.len() ==> (#[trigger] messages[i]).channel.schema is Some
}

/// Whether the channels of a summary are those of the messages.
pub open spec fn lists_channels(channels: Seq<ChannelSummary>, messages: Seq<MessageView>) -> bool {
    &&& forall|i: int, j: int|
        0 <= i < j < channels.len() ==> (#[trigger] channels[i]).id < (#[trigger] channels[j]).id
    &&& forall|i: int| 0 <= i < channels.len() ==> describes(#[trigger] channels[i], messages)
    &&& forall|id: u16| #[trigger]
        count_on(messages, id) > 0 ==> exists|i: int|
            0 <= i < channels.len() && (#[trigger] channels[i]).id == id
}

/// Whether a list holds the ids of the messages' schemas, each once.
pub open spec fn lists_schemas(schemas: Seq<u16>, messages: Seq<MessageView>) -> bool {
    &&& schemas.no_duplicates()
    &&& forall|id: u16| #[trigger]
        schemas.contains(id) <==> exists|i: int|
            0 <= i < messages.len() && uses_schema(#[trigger] messages[i], id)
}

/// Whether a summary is that of the messages.
pub open spec fn summarizes(summary: BagSummary, messages: Seq<MessageView>) -> bool {
    &&& lists_schemas(summary.schemas@, messages)
    &&& lists_channels(summary.channels@, messages)
    &&& summary.messages == messages.len()
    &&& summary.start_time == least_time(messages)
    &&& summary.end_time == greatest_time(messages)
}

/// Whether every message's channel has a schema.
pub fn have_schemas(messages: &Vec<BagMessage>) -> (r: bool)
    ensures
        r == all_have_schemas(message_views(messages@)),
{
    let ghost views = message_views(messages@);
    let mut i: usize = 0;
    while i < messages.len()
        invariant
            i <= messages@.len(),
            views == message_views(messages@),
            forall|j: int| 0 <= j < i ==> (#[trigger] views[j]).channel.schema is Some,
        decreases messages.len() - i,
    {
        if messages[i].channel.schema.is_none() {
            assert(views[i as int].channel.schema is None);
            return false;
        }
        i = i + 1;
    }
    true
}

proof fn lemma_count_bound(messages: Seq<MessageView>, id: u16)
    ensures
        count_on(messages, id) <= messages.len(),
    decreases messages.len(),
{
    if messages.len() > 0 {
        lemma_count_bound(messages.drop_last(), id);
    }
}

fn add_schema(schemas: &mut Vec<u16>, id: u16)
    requires
        old(schemas)@.no_duplicates(),
    ensures
        final(schemas)@.no_duplicates(),
        forall|other: u16| #[trigger]
            final(schemas)@.contains(other) <==> old(schemas)@.contains(other) || other == id,
{
    let ghost was = schemas@;
    let mut i: usize = 0;
    while i < schemas.len()
        invariant
            i <= schemas@.len(),
            schemas@ == was,
            was.no_duplicates(),
            forall|j: int| 0 <= j < i ==> was[j] != id,
        decreases schemas.len() - i,
    {
        if schemas[i] == id {
            assert(was.contains(was[i as int]));
            return;
        }
        i = i + 1;
    }
    schemas.push(id);
    proof {
        assert forall|other: u16| #[trigger] schemas@.contains(other) <==> was.contains(other)
            || other == id by {
            if was.contains(other) {
                let j = was.index_of(other);
                assert(schemas@[j] == other);
            }
            if other == id {
                assert(schemas@[was.len() as int] == id);
            }
            if schemas@.contains(other) {
                let j = schemas@.index_of(other);
                if j < was.len() {
                    assert(was[j] == other);
                }
            }
        }
    }
}

fn add_message(
    channels: &mut Vec<ChannelSummary>,
    message: &BagMessage,
    Ghost(before): Ghost<Seq<MessageView>>,
)
    requires
        lists_channels(old(channels)@, before),
        before.len() < u64::MAX,
    ensures
        lists_channels(final(channels)@, before.push(message@)),
{
    let ghost was = channels@;
    let ghost after = before.push(message@);
    let id: u16 = message.channel.id;
    proof {
        assert(after.drop_last() =~= before);
        lemma_count_bound(before, id);
    }
    let mut at: usize = 0;
    while at < channels.len() && channels[at].id < id
        invariant
            at <= channels@.len(),
            channels@ == was,
            lists_channels(was, before),
            forall|j: int| 0 <= j < at ==> (#[trigger] was[j]).id < id,
        decreases channels.len() - at,
    {
        at = at + 1;
    }
    if at < channels.len() && channels[at].id == id {
        let mut summary = channels.remove(at);
        assert(summary == was[at as int]);
        assert(describes(summary, before));
        summary.messages = summary.messages + 1;
        channels.insert(at, summary);
        assert(channels@ =~= was.update(at as int, summary));
    } else {
        proof {
            if count_on(before, id) > 0 {
                let i = choose|i: int| 0 <= i < was.len() && (#[trigger] was[i]).id == id;
                assert(i >= at);
                if i > at {
                    assert(was[at as int].id < was[i].id);
                }
            }
        }
        let summary = ChannelSummary {
            id,
            topic: message.channel.topic.clone(),
            schema: match &message.channel.schema {
                Some(schema) => Some(schema.name.clone()),
                None => None,
            },
            message_encoding: message.channel.message_encoding.clone(),
            topic_id: find_value(&message.channel.metadata, TOPIC_ID_KEY),
            messages: 1,
        };
        channels.insert(at, summary);
        assert(channels@ =~= was.insert(at as int, summary));
        assert(describes(channels@[at as int], after));
        assert forall|i: int, j: int| 0 <= i < j < channels@.len() implies (
        #[trigger] channels@[i]).id < (#[trigger] channels@[j]).id by {
            if i == at {
                let k = j - 1;
                assert(was[k].id >= was[at as int].id);
                assert(channels@[j] == was[k]);
            } else if j > at {
                assert(channels@[j] == was[j - 1]);
                if i > at {
                    assert(channels@[i] == was[i - 1]);
                }
            }
        }
    }
    proof {
        let now = channels@;
        assert forall|i: int| 0 <= i < now.len() implies describes(#[trigger] now[i], after) by {
            if now[i].id != id {
                let k = if now.len() > was.len() && i > at {
                    i - 1
                } else {
                    i
                };
                assert(now[i] == was[k]);
                assert(describes(was[k], before));
            }
        }
        assert forall|other: u16| #[trigger] count_on(after, other) > 0 implies exists|i: int|
            0 <= i < now.len() && (#[trigger] now[i]).id == other by {
            if other == id {
                assert(now[at as int].id == id);
            } else {
                assert(count_on(before, other) > 0);
                let k = choose|i: int| 0 <= i < was.len() && (#[trigger] was[i]).id == other;
                if now.len() > was.len() && k >= at {
                    assert(now[k + 1] == was[k]);
                } else {
                    assert(now[k].id == other);
                }
            }
        }
    }
}

/// Summarize the messages of a bag.
pub fn summarize(messages: &Vec<BagMessage>) -> (r: BagSummary)
    requires
        all_have_schemas(message_views(messages@)),
    ensures
        summarizes(r, message_views(messages@)),
{
    let ghost views = message_views(messages@);
    let mut schemas: Vec<u16> = Vec::new();
    let mut channels: Vec<ChannelSummary> = Vec::new();
    let mut start_time: u64 = u64::MAX;
    let mut end_time: u64 = 0;
    let mut i: usize = 0;
    assert(views.take(0) =~= Seq::<MessageView>::empty());
    while i < messages.len()
        invariant
            i <= messages@.len(),
            views == message_views(messages@),
            all_have_schemas(views),
            lists_schemas(schemas@, views.take(i as int)),
            lists_channels(channels@, views.take(i as int)),
            start_time == least_time(views.take(i as int)),
            end_time == greatest_time(views.take(i as int)),
        decreases messages.len() - i,
    {
        let message = &messages[i];
        let ghost before = views.take(i as int);
        let ghost after = views.take(i + 1);
        proof {
            assert(views[i as int] == message@);
            assert(after =~= before.push(message@));
            assert(after.drop_last() =~= before);
        }
        let ghost listed = schemas@;
        match &message.channel.schema {
            Some(schema) => {
                add_schema(&mut schemas, schema.id);
                proof {
                    assert forall|id: u16| #[trigger] schemas@.contains(id) <==> exists|k: int|
                        0 <= k < after.len() && uses_schema(#[trigger] after[k], id) by {
                        if listed.contains(id) {
                            let k = choose|k: int|
                                0 <= k < before.len() && uses_schema(#[trigger] before[k], id);
                            assert(after[k] == before[k]);
                        }
                        if id == schema.id {
                            assert(uses_schema(after[i as int], id));
                        }
                        if exists|k: int| 0 <= k < after.len() && uses_schema(#[trigger] after[k], id) {
                            let k = choose|k: int|
                                0 <= k < after.len() && uses_schema(#[trigger] after[k], id);
                            if k < i {
                                assert(uses_schema(before[k], id));
                            }
                        }
                    }
                }
            },
            None => {},
        }
        add_message(&mut channels, message, Ghost(before));
        if message.log_time < start_time {
            start_time = message.log_time;
        }
        if message.log_time > end_time {
            end_time = message.log_time;
        }
        i = i + 1;
    }
    assert(views.take(i as int) =~= views);
    BagSummary { schemas, channels, messages: messages.len() as u64, start_time, end_time }
}

/// What is told of a bag.
#[derive(Debug)]
pub struct BagInfo {
    pub profile: ProfileMetadata,
    pub summary: BagSummary,
}

/// Whether what came of inspecting a file that has an answer tells of it.
pub open spec fn inspects(r: Option<Result<BagInfo, Error>>, file: Seq<u8>) -> bool {
    match r {
        None => profile_stuck(file) || bag_reading(file).1 is Stuck || !all_have_schemas(
            bag_reading(file).0,
        ),
        Some(Ok(info)) => {
            &&& !profile_stuck(file)
            &&& profile_of(bag_records(file)) == Ok::<ProfileView, Report>(info.profile@)
            &&& bag_reading(file).1 is Complete
            &&& all_have_schemas(bag_reading(file).0)
            &&& summarizes(info.summary, bag_reading(file).0)
        },
        Some(Err(error)) => {
            ||| profile_of(bag_records(file)) == Err::<ProfileView, Report>(error@)
            ||| profile_of(bag_records(file)) is Ok && (bag_reading(file).1 matches Ending::Failed(
                cause,
            ) && error@ == because("failed to read bag message"@, cause))
        },
    }
}

/// Inspect a bag: its profile has to be valid, and all its messages readable. There is no
/// answer for one with a channel that has no schema, or with something that a reader
/// cannot be handed.
pub fn inspect(contents: &[u8]) -> (r: Option<Result<BagInfo, Error>>)
    ensures
        if profile_stuck(contents@) {
            r is None
        } else {
            match profile_of(bag_records(contents@)) {
                Err(report) => r is Some && r->Some_0 is Err && r->Some_0->Err_0@ == report,
                Ok(profile) => {
                    let (messages, end) = bag_reading(contents@);
                    if end is Stuck || !all_have_schemas(messages) {
                        r is None
                    } else {
                        match end {
                            Ending::Failed(cause) => r is Some && r->Some_0 is Err
                                && r->Some_0->Err_0@ == because(
                                "failed to read bag message"@,
                                cause,
                            ),
                            _ => r is Some && r->Some_0 is Ok && r->Some_0->Ok_0.profile@ == profile
                                && summarizes(r->Some_0->Ok_0.summary, messages),
                        }
                    }
                },
            }
        },
        inspects(r, contents@),
{
    let profile = match read_profile(contents) {
        Some(Ok(profile)) => profile,
        Some(Err(error)) => return Some(Err(error)),
        None => return None,
    };
    let reading = match read_messages(contents) {
        Ok(reading) => reading,
        Err(error) => return Some(Err(error)),
    };
    if matches!(reading.end, ReadingEnd::Stuck) || !have_schemas(&reading.messages) {
        return None;
    }
    match reading.ended() {
        Ok(_) => {},
        Err(error) => return Some(Err(error)),
    }
    let summary = summarize(&reading.messages);
    Some(Ok(BagInfo { profile, summary }))
}

/// How long a bag lasts, by its summary.
pub open spec fn lasts(summary: BagSummary) -> Option<u64> {
    if summary.messages > 0 {
        Some(gap(summary.start_time, summary.end_time))
    } else {
        None
    }
}

/// How long a bag lasts, from its least log time to its greatest, if it has messages.
pub fn duration_ns(summary: &BagSummary) -> (r: Option<u64>)
    ensures
        r == lasts(*summary),
        r == if summary.messages > 0 {
            Some(gap(summary.start_time, summary.end_time))
        } else {
            None
        },
{
    if summary.messages > 0 {
        Some(summary.end_time.saturating_sub(summary.start_time))
    } else {
        None
    }
}

/// The lines that tell what a bag is: its file, its profile, and how much it holds.
pub open spec fn head_text(
    path: Seq<char>,
    profile: ProfileView,
    schemas: nat,
    channels: nat,
    messages: nat,
) -> Seq<Seq<char>> {
    seq![
        labelled("file"@, path),
        "format: mcap"@,
        labelled("profile"@, PROFILE@),
        labelled("library"@, profile.library),
        labelled("source"@, profile.source),
        labelled("session"@, profile.session_id),
        labelled("time basis"@, profile.time_basis),
        labelled("schema set"@, profile.schema_set_hash),
        labelled("schemas"@, decimal(schemas)),
        labelled("channels"@, decimal(channels)),
        labelled("messages"@, decimal(messages)),
    ]
}

/// The lines that tell what a bag is.
pub fn head_lines(path: &str, profile: &ProfileMetadata, summary: &BagSummary) -> (r: Vec<String>)
    ensures
        views(r@) == head_text(
            path@,
            profile@,
            summary.schemas@.len(),
            summary.channels@.len(),
            summary.messages as nat,
        ),
{
    let mut r: Vec<String> = Vec::new();
    r.push(label("file", path));
    r.push("format: mcap".to_owned());
    r.push(label("profile", PROFILE));
    r.push(label("library", profile.library.as_str()));
    r.push(label("source", profile.source.as_str()));
    r.push(label("session", profile.session_id.as_str()));
    r.push(label("time basis", profile.time_basis.as_str()));
    r.push(label("schema set", profile.schema_set_hash.as_str()));
    r.push(label("schemas", number(summary.schemas.len() as u64).as_str()));
    r.push(label("channels", number(summary.channels.len() as u64).as_str()));
    r.push(label("messages", number(summary.messages).as_str()));
    assert(views(r@) =~= head_text(
        path@,
        profile@,
        summary.schemas@.len(),
        summary.channels@.len(),
        summary.messages as nat,
    ));
    r
}

/// The line that tells of a channel.
pub open spec fn channel_text(channel: ChannelSummary) -> Seq<char> {
    "  "@ + channel.topic@ + " ["@ + (match channel.schema {
        Some(name) => name@,
        None => "unknown"@,
    }) + "] messages="@ + decimal(channel.messages as nat) + " encoding="@
        + channel.message_encoding@ + " topic_id="@ + (match channel.topic_id {
        Some(id) => id@,
        None => "missing"@,
    })
}

fn channel_line(channel: &ChannelSummary) -> (r: String)
    ensures
        r@ == channel_text(*channel),
{
    let mut line = "  ".to_owned();
    line.append(channel.topic.as_str());
    line.append(" [");
    match &channel.schema {
        Some(name) => line.append(name.as_str()),
        None => line.append("unknown"),
    }
    line.append("] messages=");
    line.append(number(channel.messages).as_str());
    line.append(" encoding=");
    line.append(channel.message_encoding.as_str());
    line.append(" topic_id=");
    match &channel.topic_id {
        Some(id) => line.append(id.as_str()),
        None => line.append("missing"),
    }
    line
}

/// The lines that tell of a bag's channels: none if it has none, else an empty line, a
/// heading, and a line for each.
pub open spec fn channels_text(channels: Seq<ChannelSummary>) -> Seq<Seq<char>> {
    if channels.len() == 0 {
        seq![]
    } else {
        seq![""@, "channels:"@] + channels.map_values(|c: ChannelSummary| channel_text(c))
    }
}

/// The lines that tell of a bag's channels.
pub fn channel_lines(summary: &BagSummary) -> (r: Vec<String>)
    ensures
        views(r@) == channels_text(summary.channels@),
{
    let mut r: Vec<String> = Vec::new();
    if summary.channels.len() == 0 {
        assert(views(r@) =~= seq![]);
        return r;
    }
    let ghost lines = summary.channels@.map_values(|c: ChannelSummary| channel_text(c));
    r.push("".to_owned());
    r.push("channels:".to_owned());
    let mut i: usize = 0;
    assert(views(r@) =~= seq![""@, "channels:"@] + lines.take(0));
    while i < summary.channels.len()
        invariant
            i <= summary.channels@.len(),
            lines == summary.channels@.map_values(|c: ChannelSummary| channel_text(c)),
            views(r@) == seq![""@, "channels:"@] + lines.take(i as int),
        decreases summary.channels.len() - i,
    {
        let ghost told = views(r@);
        r.push(channel_line(&summary.channels[i]));
        assert(views(r@) =~= told.push(lines[i as int]));
        assert(lines.take(i + 1) =~= lines.take(i as int).push(lines[i as int]));
        assert(views(r@) =~= seq![""@, "channels:"@] + lines.take(i + 1));
        i = i + 1;
    }
    assert(lines.take(i as int) =~= lines);
    r
}

/// No message of a bag was logged before the bag's start, none after its end, and each
/// of the two is the time of a message.
pub proof fn times_span_the_bag(messages: Seq<MessageView>, index: int)
    requires
        0 <= index < messages.len(),
    ensures
        least_time(messages) <= messages[index].log_time <= greatest_time(messages),
        exists|i: int| 0 <= i < messages.len() && (#[trigger] messages[i]).log_time == least_time(
            messages,
        ),
        exists|i: int| 0 <= i < messages.len() && (#[trigger] messages[i]).log_time == greatest_time(
            messages,
        ),
    decreases messages.len(),
{
    let before = messages.drop_last();
    assert(messages.last() == messages[messages.len() - 1]);
    if before.len() > 0 {
        let k = if index < before.len() {
            index
        } else {
            0
        };
        times_span_the_bag(before, k);
        let a = choose|i: int| 0 <= i < before.len() && (#[trigger] before[i]).log_time == least_time(before);
        let b = choose|i: int| 0 <= i < before.len() && (#[trigger] before[i]).log_time == greatest_time(before);
        assert(messages[a] == before[a]);
        assert(messages[b] == before[b]);
        assert(messages[k] == before[k]);
    }
}

/// The number of messages on all channels of a summary.
pub open spec fn total(channels: Seq<ChannelSummary>) -> nat
    decreases channels.len(),
{
    if channels.len() == 0 {
        0
    } else {
        total(channels.drop_last()) + channels.last().messages as nat
    }
}

spec fn counts(ids: Seq<u16>, messages: Seq<MessageView>) -> nat
    decreases ids.len(),
{
    if ids.len() == 0 {
        0
    } else {
        counts(ids.drop_last(), messages) + count_on(messages, ids.last())
    }
}

proof fn lemma_counts_step(ids: Seq<u16>, messages: Seq<MessageView>)
    requires
        messages.len() > 0,
        forall|i: int, j: int| 0 <= i < j < ids.len() ==> ids[i] != ids[j],
    ensures
        counts(ids, messages) == counts(ids, messages.drop_last()) + if ids.contains(
            messages.last().channel.id,
        ) {
            1nat
        } else {
            0
        },
    decreases ids.len(),
{
    if ids.len() > 0 {
        let before = ids.drop_last();
        let id = messages.last().channel.id;
        lemma_counts_step(before, messages);
        assert(ids.contains(id) <==> before.contains(id) || ids.last() == id) by {
            if before.contains(id) {
                assert(ids[before.index_of(id)] == id);
            }
            if ids.contains(id) {
                let i = ids.index_of(id);
                if i < before.len() {
                    assert(before[i] == id);
                }
            }
        }
        if before.contains(id) {
            assert(before[before.index_of(id)] != ids.last());
        }
    }
}

proof fn lemma_counts_all(ids: Seq<u16>, messages: Seq<MessageView>)
    requires
        forall|i: int, j: int| 0 <= i < j < ids.len() ==> ids[i] != ids[j],
        forall|id: u16| #[trigger] count_on(messages, id) > 0 ==> ids.contains(id),
    ensures
        counts(ids, messages) == messages.len(),
    decreases messages.len(), ids.len(),
{
    if messages.len() == 0 {
        if ids.len() > 0 {
            lemma_counts_all(ids.drop_last(), messages);
        }
    } else {
        let id = messages.last().channel.id;
        assert(count_on(messages, id) > 0);
        lemma_counts_step(ids, messages);
        assert forall|other: u16| #[trigger] count_on(messages.drop_last(), other)
            > 0 implies ids.contains(other) by {
            assert(count_on(messages, other) > 0);
        }
        lemma_counts_all(ids, messages.drop_last());
    }
}

proof fn lemma_total_counts(channels: Seq<ChannelSummary>, messages: Seq<MessageView>)
    requires
        forall|i: int|
            0 <= i < channels.len() ==> (#[trigger] channels[i]).messages == count_on(
                messages,
                channels[i].id,
            ),
    ensures
        total(channels) == counts(channels.map_values(|c: ChannelSummary| c.id), messages),
    decreases channels.len(),
{
    let ids = channels.map_values(|c: ChannelSummary| c.id);
    if channels.len() > 0 {
        let before = channels.drop_last();
        assert forall|i: int| 0 <= i < before.len() implies (#[trigger] before[i]).messages
            == count_on(messages, before[i].id) by {
            assert(before[i] == channels[i]);
        }
        lemma_total_counts(before, messages);
        assert(ids.drop_last() =~= before.map_values(|c: ChannelSummary| c.id));
        assert(channels.last() == channels[channels.len() - 1]);
    }
}

/// The channels of a summary have all the messages of the bag between them.
pub proof fn channel_counts_add_up(channels: Seq<ChannelSummary>, messages: Seq<MessageView>)
    requires
        lists_channels(channels, messages),
    ensures
        total(channels) == messages.len(),
{
    let ids = channels.map_values(|c: ChannelSummary| c.id);
    assert forall|i: int| 0 <= i < channels.len() implies (#[trigger] channels[i]).messages
        == count_on(messages, channels[i].id) by {
        assert(describes(channels[i], messages));
    }
    lemma_total_counts(channels, messages);
    assert forall|i: int, j: int| 0 <= i < j < ids.len() implies ids[i] != ids[j] by {
        assert(channels[i].id < channels[j].id);
    }
    assert forall|id: u16| #[trigger] count_on(messages, id) > 0 implies ids.contains(id) by {
        let i = choose|i: int| 0 <= i < channels.len() && (#[trigger] channels[i]).id == id;
        assert(ids[i] == id);
    }
    lemma_counts_all(ids, messages);
}

/// The messages of a bag that are replayed or exported.
pub open spec fn selected(
    filter: Option<Seq<char>>,
    messages: Seq<MessageView>,
) -> Seq<MessageView> {
    messages.filter(|message: MessageView| passes(filter, message))
}

/// With a topic to filter by, exactly the messages whose channel has that very topic are
/// replayed or exported, in their order; without one all are.
pub proof fn filter_selects_exactly_its_topic(
    filter: Option<Seq<char>>,
    messages: Seq<MessageView>,
    message: MessageView,
)
    ensures
        filter matches Some(topic) ==> (passes(filter, message) <==> message.channel.topic
            == topic),
        filter is None ==> passes(filter, message),
        filter matches Some(topic) ==> selected(filter, messages) == messages.filter(
            |m: MessageView| m.channel.topic == topic,
        ),
        filter is None ==> selected(filter, messages) == messages,
    decreases messages.len(),
{
    reveal(Seq::filter);
    if messages.len() > 0 {
        filter_selects_exactly_its_topic(filter, messages.drop_last(), messages.last());
        assert(messages.drop_last().push(messages.last()) =~= messages);
    } else {
        assert(selected(filter, messages) =~= messages);
    }
}

/// A replay waits before a message for the time that passed since the one just before it
/// was logged, and not at all if it was logged earlier than that one, or is the first.
pub proof fn replay_waits_since_the_message_before(playback: Playback, log_time: u64, next: u64)
    ensures
        playback.previous_ns is None ==> playback.pause(log_time) is None,
        playback.moved_to(log_time).pause(next) matches Some(wait) && (log_time <= next ==> log_time
            + wait == next) && (next < log_time ==> wait == 0),
        playback.moved_to(log_time).played == playback.played,
{
}

/// A replay that begins with messages in the order of their times waits for as long as
/// passed between the first and the last.
pub proof fn replay_keeps_the_recorded_time(playback: Playback, times: Seq<u64>)
    requires
        times.len() > 0,
        forall|i: int, j: int| 0 <= i <= j < times.len() ==> times[i] <= times[j],
        playback.previous_ns matches Some(previous) ==> previous <= times[0],
    ensures
        playback.paused(times) == times.last() - match playback.previous_ns {
            Some(previous) => previous as int,
            None => times[0] as int,
        },
    decreases times.len(),
{
    let rest = times.drop_first();
    if rest.len() > 0 {
        assert forall|i: int, j: int| 0 <= i <= j < rest.len() implies rest[i] <= rest[j] by {
            assert(rest[i] == times[i + 1]);
            assert(rest[j] == times[j + 1]);
        }
        assert(times[0] <= times[1]);
        replay_keeps_the_recorded_time(playback.moved_to(times[0]), rest);
        assert(rest.last() == times.last());
    } else {
        assert(playback.moved_to(times[0]).paused(rest) == 0);
    }
}

/// What is put on zenoh of a message is the sample that was recorded: on the channel's
/// topic, under the value contract of the type that the channel carries, and with the
/// payload of which the message holds the recorded form.
pub proof fn replayed_sample_is_the_recorded_one(
    publication: Publication,
    message: MessageView,
    known: TopicType,
    payload: Seq<u8>,
    decoded: Seq<char>,
)
    requires
        known.wf(),
        recovered(message) == Ok::<(TopicType, Seq<u8>, Seq<char>), Report>(
            (known, payload, decoded),
        ),
        replays(publication, message, known, payload),
    ensures
        publication.key@ == message.channel.topic,
        publication.encoding@ == contract_text(known.topic),
        recorded(known.topic, publication.payload@) == message.data,
        channel_verdict(message.channel) == Ok::<TopicType, Report>(known),
        known.decoding(publication.payload@) == Ok::<Seq<char>, crate::error::DecodeFailure>(
            decoded,
        ),
{
    restored_payload_is_recorded(known, message.data);
}

/// A message is refused as its channel is; one on an accepted channel, if no payload can be
/// had from it or that does not decode.
pub proof fn message_is_refused_with_its_channel(message: MessageView)
    ensures
        channel_verdict(message.channel) matches Err(report) ==> recovered(message) == Err::<
            (TopicType, Seq<u8>, Seq<char>),
            Report,
        >(report),
        channel_verdict(message.channel) matches Ok(known) ==> {
            &&& known.restored(message.data) is None ==> recovered(message) is Err && recovered(
                message,
            )->Err_0.text == "MCAP payload on "@ + message.channel.topic + " does not match "@
                + known.topic.name@ && recovered(message)->Err_0.cause == Some(
                match known.topic.payload_size {
                    Some(size) => "invalid fixed-layout MCAP wrapper ("@ + decimal(
                        message.data.len(),
                    ) + " bytes, expected "@ + decimal((size + 14) as nat) + ")"@,
                    None => known.topic.name@ + ": "@ + known.decoding(message.data)->Err_0.text(),
                },
            )
            &&& known.restored(message.data) matches Some(payload) ==> (recovered(message) is Ok
                <==> known.decoding(payload) is Ok)
        },
{
}

/// What is exported of a message tells when it was logged, on which topic, of which type
/// and encoding it is, under which contract it is replayed, and what it decodes to.
pub proof fn export_tells_of_the_message(
    frame: ExportFrame,
    message: MessageView,
    known: TopicType,
    payload: Seq<u8>,
    decoded: Seq<char>,
)
    requires
        exports(frame, message, known, payload, decoded),
    ensures
        frame.log_time_ns == message.log_time,
        frame.topic@ == message.channel.topic,
        frame.wire_type == Some(known.topic.wire_type),
        frame.encoding == known.topic.encoding,
        frame.value_contract@ == contract_text(known.topic),
        frame.payload_base64@ == base64_of(payload),
        frame.decoded matches Some(text) && text@ == decoded,
{
}

/// The number of messages on a channel is that of those with its id, and the channel is
/// told of as the first of them has it.
pub proof fn channels_are_counted_by_their_ids(messages: Seq<MessageView>, id: u16)
    ensures
        ({
            let on = messages.filter(|message: MessageView| message.channel.id == id);
            &&& count_on(messages, id) == on.len()
            &&& on.len() > 0 ==> first_on(messages, id) == on[0].channel
        }),
    decreases messages.len(),
{
    reveal(Seq::filter);
    let pred = |message: MessageView| message.channel.id == id;
    if messages.len() > 0 {
        let before = messages.drop_last();
        channels_are_counted_by_their_ids(before, id);
        if pred(messages.last()) {
            assert(messages.filter(pred) =~= before.filter(pred).push(messages.last()));
        }
    } else {
        assert(messages.filter(pred) =~= seq![]);
    }
}

/// A bag with messages lasts from the first time at which one was logged to the last: no
/// two of them are further apart, and two are as far. One without has no duration.
pub proof fn bag_lasts_from_its_first_time_to_its_last(
    summary: BagSummary,
    messages: Seq<MessageView>,
)
    requires
        summarizes(summary, messages),
    ensures
        messages.len() == 0 <==> lasts(summary) is None,
        lasts(summary) matches Some(duration) ==> {
            &&& forall|i: int, j: int|
                0 <= i < messages.len() && 0 <= j < messages.len() ==> (
                #[trigger] messages[j]).log_time - (#[trigger] messages[i]).log_time <= duration
            &&& exists|i: int, j: int|
                0 <= i < messages.len() && 0 <= j < messages.len() && (
                #[trigger] messages[j]).log_time - (#[trigger] messages[i]).log_time == duration
        },
{
    if messages.len() > 0 {
        times_span_the_bag(messages, 0);
        let a = choose|i: int|
            0 <= i < messages.len() && (#[trigger] messages[i]).log_time == least_time(messages);
        let b = choose|i: int|
            0 <= i < messages.len() && (#[trigger] messages[i]).log_time == greatest_time(messages);
        times_span_the_bag(messages, b);
        assert(messages[b].log_time - messages[a].log_time == lasts(summary)->Some_0);
        assert forall|i: int, j: int|
            0 <= i < messages.len() && 0 <= j < messages.len() implies (
        #[trigger] messages[j]).log_time - (#[trigger] messages[i]).log_time
            <= lasts(summary)->Some_0 by {
            times_span_the_bag(messages, i);
            times_span_the_bag(messages, j);
        }
    }
}

/// A summary has every channel on which there is a message, once and in the order of the
/// ids, with its topic, encoding and topic id and the number of its messages; and the ids
/// of the schemas in use, each once.
pub proof fn summary_tells_of_every_channel(
    summary: BagSummary,
    messages: Seq<MessageView>,
    index: int,
)
    requires
        summarizes(summary, messages),
        0 <= index < messages.len(),
    ensures
        summary.messages == messages.len(),
        exists|i: int| {
            let on = messages.filter(
                |message: MessageView| message.channel.id == messages[index].channel.id,
            );
            &&& 0 <= i < summary.channels@.len()
            &&& (#[trigger] summary.channels@[i]).id == messages[index].channel.id
            &&& summary.channels@[i].messages == on.len()
            &&& summary.channels@[i].topic@ == on[0].channel.topic
            &&& summary.channels@[i].message_encoding@ == on[0].channel.message_encoding
            &&& opt_view(summary.channels@[i].topic_id) == value_of(
                on[0].channel.metadata,
                "synapse.topic_id"@,
            )
            &&& summary.channels@[i].schema is Some <==> on[0].channel.schema is Some
            &&& summary.channels@[i].schema matches Some(name) ==> name@
                == on[0].channel.schema->Some_0.name
        },
        forall|i: int, j: int|
            0 <= i < j < summary.channels@.len() ==> (#[trigger] summary.channels@[i]).id < (
            #[trigger] summary.channels@[j]).id,
        messages[index].channel.schema matches Some(schema) ==> summary.schemas@.contains(
            schema.id,
        ),
        summary.schemas@.no_duplicates(),
        forall|k: int|
            0 <= k < summary.schemas@.len() ==> exists|i: int|
                0 <= i < messages.len() && (#[trigger] messages[i]).channel.schema is Some
                    && messages[i].channel.schema->Some_0.id == #[trigger] summary.schemas@[k],
{
    let id = messages[index].channel.id;
    let pred = |message: MessageView| message.channel.id == id;
    let on = messages.filter(pred);
    channels_are_counted_by_their_ids(messages, id);
    assert(on.len() > 0) by {
        messages.lemma_filter_contains(pred, index);
        assert(on.contains(messages[index]));
    }
    assert(count_on(messages, id) > 0);
    let i = choose|i: int|
        0 <= i < summary.channels@.len() && (#[trigger] summary.channels@[i]).id == id;
    assert(describes(summary.channels@[i], messages));
    if let Some(schema) = messages[index].channel.schema {
        assert(uses_schema(messages[index], schema.id));
    }
    assert forall|k: int| 0 <= k < summary.schemas@.len() implies exists|i: int|
        0 <= i < messages.len() && (#[trigger] messages[i]).channel.schema is Some
            && messages[i].channel.schema->Some_0.id == #[trigger] summary.schemas@[k] by {
        let wanted = summary.schemas@[k];
        assert(summary.schemas@.contains(wanted));
        let i = choose|i: int| 0 <= i < messages.len() && uses_schema(#[trigger] messages[i], wanted);
        assert(messages[i].channel.schema is Some);
    }
}

/// The head of what is told of a bag has a line for its file and one for each value of its
/// profile and each of its counts, under a label and in this order.
pub proof fn head_tells_the_profile_and_the_counts(
    path: Seq<char>,
    profile: ProfileView,
    schemas: nat,
    channels: nat,
    messages: nat,
)
    ensures
        ({
            let lines = head_text(path, profile, schemas, channels, messages);
            &&& lines.len() == 11
            &&& lines[0] == "file"@ + ": "@ + path
            &&& lines[2] == "profile"@ + ": "@ + "synapse/1"@
            &&& lines[3] == "library"@ + ": "@ + profile.library
            &&& lines[4] == "source"@ + ": "@ + profile.source
            &&& lines[5] == "session"@ + ": "@ + profile.session_id
            &&& lines[6] == "time basis"@ + ": "@ + profile.time_basis
            &&& lines[7] == "schema set"@ + ": "@ + profile.schema_set_hash
            &&& lines[8] == "schemas"@ + ": "@ + decimal(schemas)
            &&& lines[9] == "channels"@ + ": "@ + decimal(channels)
            &&& lines[10] == "messages"@ + ": "@ + decimal(messages)
        }),
{
}

/// Behind an empty line and a heading, there is a line for each channel, in the order of
/// the channels: its topic, schema, number of messages, encoding and topic id.
pub proof fn each_channel_has_its_line(channels: Seq<ChannelSummary>, index: int)
    requires
        0 <= index < channels.len(),
    ensures
        channels_text(channels).len() == channels.len() + 2,
        channels_text(channels)[index + 2] == "  "@ + channels[index].topic@ + " ["@
            + match channels[index].schema {
            Some(name) => name@,
            None => "unknown"@,
        } + "] messages="@ + decimal(channels[index].messages as nat) + " encoding="@
            + channels[index].message_encoding@ + " topic_id="@ + match channels[index].topic_id {
            Some(id) => id@,
            None => "missing"@,
        },
{
}

/// What is told of a bag is its own: the profile of its records, and the summary of all its
/// messages. There is nothing to tell of one whose profile is refused, or of which a message
/// cannot be read; the reason is told instead.
pub proof fn inspection_tells_of_the_file(r: Option<Result<BagInfo, Error>>, file: Seq<u8>)
    requires
        inspects(r, file),
    ensures
        r matches Some(Ok(info)) ==> {
            &&& profile_of(bag_records(file)) == Ok::<ProfileView, Report>(info.profile@)
            &&& info.summary.messages == bag_reading(file).0.len()
            &&& bag_reading(file).1 is Complete
            &&& summarizes(info.summary, bag_reading(file).0)
        },
        !profile_stuck(file) && profile_of(bag_records(file)) is Err && r is Some
            ==> r->Some_0 is Err && r->Some_0->Err_0@ == profile_of(bag_records(file))->Err_0,
        r is Some && profile_of(bag_records(file)) is Ok && bag_reading(file).1 is Failed
            ==> r->Some_0 is Err && r->Some_0->Err_0@.text == "failed to read bag message"@
            && r->Some_0->Err_0@.cause == Some(bag_reading(file).1->Failed_0),
        !profile_stuck(file) && bag_reading(file).1 is Complete && all_have_schemas(
            bag_reading(file).0,
        ) ==> r is Some,
{
}

/// A replay counts each message that was published, once.
pub proof fn replay_counts_its_messages(playback: Playback, messages: nat)
    requires
        playback.played + messages <= u64::MAX,
    ensures
        playback.published(messages).played == playback.played + messages,
        playback.published(messages).previous_ns == playback.previous_ns,
    decreases messages,
{
    if messages > 0 {
        replay_counts_its_messages(playback, (messages - 1) as nat);
    }
}

} // verus!
