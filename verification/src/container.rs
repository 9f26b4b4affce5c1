//! The MCAP container: its records, its channels and messages, and the log that writes
//! them.

use std::io::Cursor;

use synapse_fbs::mcap::container::read::LinearReader;
use synapse_fbs::mcap::container::records::Record;
use synapse_fbs::mcap::container::{McapError, Message, MessageStream};
use synapse_fbs::mcap::{TimeBasis, TopicChannel, Writer};
use synapse_fbs::topic_catalog;
use vstd::prelude::*;
use vstd::utf8::*;

use crate::catalog::{catalog, embedded_schema, TOPIC_COUNT};
use crate::framing::{cut_at, has_magic, messages_readable, place_after, records_readable};
use crate::text::{decimal, is_hex_128};

verus! {

/// The profile that a Synapse bag follows.
pub const PROFILE: &'static str = "synapse/1";

/// The encoding of schemas and messages.
pub const FLATBUFFER: &'static str = "flatbuffer";

/// The name of the metadata record that a Synapse bag has to have.
pub const METADATA_NAME: &'static str = "synapse";

/// The metadata keys of a Synapse bag, and of its channels.
pub const SCHEMA_SET_HASH_KEY: &'static str = "synapse.schema_set_hash";
pub const SESSION_ID_KEY: &'static str = "synapse.session_id";
pub const SOURCE_KEY: &'static str = "synapse.source";
pub const TIME_BASIS_KEY: &'static str = "synapse.time_basis";
pub const TOPIC_ID_KEY: &'static str = "synapse.topic_id";

/// The time bases of a Synapse bag.
pub const MONOTONIC_BOOT: &'static str = "monotonic_boot";
pub const UNIX_EPOCH: &'static str = "unix_epoch";
pub const CORRELATED: &'static str = "correlated";

/// The fingerprint of all schemas of the pinned release.
pub const SCHEMA_SET_HASH: &'static str = "2fd857effb6c7558d6869f4307a5354c";

/// The most bytes of a text that is handed to a log. The container has 32 bits for a
/// text's length.
pub const TEXT_LIMIT: usize = 0xffff_ffff;

/// The most bytes of a source that is handed to a log. The container has 32 bits for the
/// length of all metadata, in which the source stands with four keys, three other values
/// and the lengths of these eight.
pub const SOURCE_LIMIT: usize = 0xffff_ffff - 183;

/// The most channels that a log is asked to have. The container has 16 bits for a
/// channel's id.
pub const CHANNEL_LIMIT: usize = 65534;

/// A schema that a channel refers to.
#[derive(Debug)]
pub struct ChannelSchema {
    pub id: u16,
    pub name: String,
    pub encoding: String,
    pub data: Vec<u8>,
}

/// The contents of a [`ChannelSchema`].
pub struct SchemaView {
    pub id: u16,
    pub name: Seq<char>,
    pub encoding: Seq<char>,
    pub data: Seq<u8>,
}

impl View for ChannelSchema {
    type V = SchemaView;

    open spec fn view(&self) -> SchemaView {
        SchemaView { id: self.id, name: self.name@, encoding: self.encoding@, data: self.data@ }
    }
}

/// The contents of a list of keys and values.
pub open spec fn entries_view(entries: Seq<(String, String)>) -> Seq<(Seq<char>, Seq<char>)> {
    entries.map_values(|entry: (String, String)| (entry.0@, entry.1@))
}

/// A channel of an MCAP file. Its metadata is ordered by the keys.
#[derive(Debug)]
pub struct Channel {
    pub id: u16,
    pub topic: String,
    pub schema: Option<ChannelSchema>,
    pub message_encoding: String,
    pub metadata: Vec<(String, String)>,
}

/// The contents of a [`Channel`].
pub struct ChannelView {
    pub id: u16,
    pub topic: Seq<char>,
    pub schema: Option<SchemaView>,
    pub message_encoding: Seq<char>,
    pub metadata: Seq<(Seq<char>, Seq<char>)>,
}

impl View for Channel {
    type V = ChannelView;

    open spec fn view(&self) -> ChannelView {
        ChannelView {
            id: self.id,
            topic: self.topic@,
            schema: match self.schema {
                Some(schema) => Some(schema@),
                None => None,
            },
            message_encoding: self.message_encoding@,
            metadata: entries_view(self.metadata@),
        }
    }
}

/// A message of an MCAP file.
#[derive(Debug)]
pub struct BagMessage {
    pub channel: Channel,
    pub sequence: u32,
    pub log_time: u64,
    pub publish_time: u64,
    pub data: Vec<u8>,
}

/// The contents of a [`BagMessage`].
pub struct MessageView {
    pub channel: ChannelView,
    pub sequence: u32,
    pub log_time: u64,
    pub publish_time: u64,
    pub data: Seq<u8>,
}

impl View for BagMessage {
    type V = MessageView;

    open spec fn view(&self) -> MessageView {
        MessageView {
            channel: self.channel@,
            sequence: self.sequence,
            log_time: self.log_time,
            publish_time: self.publish_time,
            data: self.data@,
        }
    }
}

/// A record of an MCAP file, as far as the profile of the file goes by it.
#[derive(Debug)]
pub enum BagRecord {
    Header { profile: String, library: String },
    Metadata { name: String, entries: Vec<(String, String)> },
    Message,
    Chunk,
    Other,
}

/// The contents of a [`BagRecord`].
pub enum RecordView {
    Header { profile: Seq<char>, library: Seq<char> },
    Metadata { name: Seq<char>, entries: Seq<(Seq<char>, Seq<char>)> },
    Message,
    Chunk,
    Other,
}

impl View for BagRecord {
    type V = RecordView;

    open spec fn view(&self) -> RecordView {
        match self {
            BagRecord::Header { profile, library } => RecordView::Header {
                profile: profile@,
                library: library@,
            },
            BagRecord::Metadata { name, entries } => RecordView::Metadata {
                name: name@,
                entries: entries_view(entries@),
            },
            BagRecord::Message => RecordView::Message,
            BagRecord::Chunk => RecordView::Chunk,
            BagRecord::Other => RecordView::Other,
        }
    }
}

/// The contents of a record, or the wording of why it cannot be read.
pub open spec fn record_item(item: Result<BagRecord, String>) -> Result<RecordView, Seq<char>> {
    match item {
        Ok(record) => Ok(record@),
        Err(cause) => Err(cause@),
    }
}

/// The contents of a message, or the wording of why it cannot be read.
pub open spec fn message_item(item: Result<BagMessage, String>) -> Result<MessageView, Seq<char>> {
    match item {
        Ok(message) => Ok(message@),
        Err(cause) => Err(cause@),
    }
}

/// `mcap::McapError`, the reason why something cannot be read or written.
#[verifier::external_type_specification]
#[verifier::external_body]
pub struct ExMcapError(McapError);

/// `mcap::Message`, as a [`MessageStream`] hands it out.
#[verifier::external_type_specification]
#[verifier::external_body]
pub struct ExMessage<'a>(Message<'a>);

/// `mcap::records::Record`, as a [`LinearReader`] hands it out.
#[verifier::external_type_specification]
#[verifier::external_body]
pub struct ExRecord<'a>(Record<'a>);

/// `mcap::read::LinearReader`, the records of a file that are still to be read.
#[verifier::external_type_specification]
#[verifier::external_body]
pub struct ExLinearReader<'a>(LinearReader<'a>);

/// `mcap::MessageStream`, the messages of a file that are still to be read.
#[verifier::external_type_specification]
#[verifier::external_body]
pub struct ExMessageStream<'a>(MessageStream<'a>);

/// `synapse_fbs::mcap::TopicChannel`, a channel of a log with the sequence number of its
/// next message.
#[verifier::external_type_specification]
#[verifier::external_body]
pub struct ExTopicChannel(TopicChannel);

/// The file that a reader reads.
pub uninterp spec fn record_source(reader: LinearReader) -> Seq<u8>;

/// The place in the file of the record that a reader hands out next.
pub uninterp spec fn record_place(reader: LinearReader) -> int;

/// The file that a stream reads.
pub uninterp spec fn message_source(stream: MessageStream) -> Seq<u8>;

/// The records of a file, up to the first that cannot be read. Chunks are single records.
pub uninterp spec fn bag_records(file: Seq<u8>) -> Seq<Result<RecordView, Seq<char>>>;

/// The records that a reader has still to hand out, up to the first that cannot be read.
pub uninterp spec fn unread_records(reader: LinearReader) -> Seq<Result<RecordView, Seq<char>>>;

/// The messages of a file, up to the first that cannot be read.
pub uninterp spec fn bag_messages(file: Seq<u8>) -> Seq<Result<MessageView, Seq<char>>>;

/// The messages that a stream has still to hand out, up to the first that cannot be read.
pub uninterp spec fn unread_messages(stream: MessageStream) -> Seq<Result<MessageView, Seq<char>>>;

/// `mcap::read::LinearReader::new`: a reader of the file's records.
///
/// It never fails. What the file holds is a name.
#[verifier::external_body]
pub(crate) fn open_records<'a>(file: &'a [u8]) -> (r: Result<LinearReader<'a>, String>)
    ensures
        r is Ok,
        record_source(r->Ok_0) == file@,
        record_place(r->Ok_0) == 8,
        unread_records(r->Ok_0) == bag_records(file@),
{
    LinearReader::new(file).map_err(|error| error.to_string())
}

/// `LinearReader::next`: the next record.
///
/// The records come one by one in the order of the file, and none is left at the end of
/// it. Nothing is said of what follows a record that cannot be read. Behind the magic
/// bytes the reader cannot be handed an attachment that is cut short.
#[verifier::external_body]
pub(crate) fn next_record(reader: &mut LinearReader<'_>) -> (r: Option<Result<BagRecord, String>>)
    requires
        has_magic(record_source(*old(reader))) ==> !cut_at(
            record_source(*old(reader)),
            record_place(*old(reader)),
        ),
    ensures
        r is None <==> unread_records(*old(reader)).len() == 0,
        r is Some ==> record_item(r->Some_0) == unread_records(*old(reader))[0],
        r is Some && r->Some_0 is Ok ==> unread_records(*final(reader)) == unread_records(
            *old(reader),
        ).drop_first(),
        r is Some && r->Some_0 is Ok ==> record_source(*final(reader)) == record_source(
            *old(reader),
        ),
        r is Some && r->Some_0 is Ok ==> record_place(*final(reader)) == place_after(
            record_source(*old(reader)),
            record_place(*old(reader)),
        ),
{
    match reader.next()? {
        Ok(Record::Header(h)) => Some(Ok(BagRecord::Header { profile: h.profile, library: h.library })),
        Ok(Record::Metadata(m)) => Some(
            Ok(BagRecord::Metadata { name: m.name, entries: m.metadata.into_iter().collect() }),
        ),
        Ok(Record::Message { .. }) => Some(Ok(BagRecord::Message)),
        Ok(Record::Chunk { .. }) => Some(Ok(BagRecord::Chunk)),
        Ok(_) => Some(Ok(BagRecord::Other)),
        Err(error) => Some(Err(error.to_string())),
    }
}

/// `mcap::MessageStream::new`: a stream of the file's messages.
///
/// It never fails. What the file holds is a name.
#[verifier::external_body]
pub(crate) fn open_messages<'a>(file: &'a [u8]) -> (r: Result<MessageStream<'a>, String>)
    ensures
        r is Ok,
        message_source(r->Ok_0) == file@,
        unread_messages(r->Ok_0) == bag_messages(file@),
{
    MessageStream::new(file).map_err(|error| error.to_string())
}

/// `MessageStream::next`: the next message.
///
/// The messages come one by one in the order of the file, and none is left at the end of
/// it. Nothing is said of what follows a message that cannot be read.
#[verifier::external_body]
pub(crate) fn next_message(stream: &mut MessageStream<'_>) -> (r: Option<
    Result<BagMessage, String>,
>)
    requires
        messages_readable(message_source(*old(stream))),
    ensures
        r is None <==> unread_messages(*old(stream)).len() == 0,
        r is Some ==> message_item(r->Some_0) == unread_messages(*old(stream))[0],
        r is Some && r->Some_0 is Ok ==> unread_messages(*final(stream)) == unread_messages(
            *old(stream),
        ).drop_first(),
        r is Some && r->Some_0 is Ok ==> message_source(*final(stream)) == message_source(
            *old(stream),
        ),
{
    stream.next().map(|item| item.map_err(|e| e.to_string()).map(|m| BagMessage {
        channel: Channel {
            id: m.channel.id, topic: m.channel.topic.clone(),
            schema: m.channel.schema.as_ref().map(|s| ChannelSchema {
                id: s.id, name: s.name.clone(), encoding: s.encoding.clone(), data: s.data.to_vec(),
            }),
            message_encoding: m.channel.message_encoding.clone(),
            metadata: m.channel.metadata.clone().into_iter().collect(),
        },
        sequence: m.sequence, log_time: m.log_time, publish_time: m.publish_time,
        data: m.data.into_owned(),
    }))
}

/// What the times of a bag are counted from.
#[derive(Clone, Copy, Debug, PartialEq, Eq, Structural)]
pub enum Basis {
    MonotonicBoot,
    UnixEpoch,
    Correlated,
}

impl Basis {
    /// The word for the basis in the profile metadata.
    pub open spec fn word(self) -> Seq<char> {
        match self {
            Basis::MonotonicBoot => MONOTONIC_BOOT@,
            Basis::UnixEpoch => UNIX_EPOCH@,
            Basis::Correlated => CORRELATED@,
        }
    }
}

/// `synapse_fbs::mcap::Writer` on bytes in memory: an MCAP file that is being written.
#[verifier::external_body]
pub struct BagLog {
    writer: Writer<Cursor<Vec<u8>>>,
}

/// The first two records of the file that a log writes.
pub uninterp spec fn opening(log: BagLog) -> Seq<RecordView>;

/// The channels of a log, by their ids.
pub uninterp spec fn registered(log: BagLog) -> Map<u16, ChannelView>;

/// The messages that are read from the file that a log writes.
pub uninterp spec fn logged(log: BagLog) -> Seq<MessageView>;

/// The id of a channel.
pub uninterp spec fn channel_id(channel: TopicChannel) -> u16;

/// The sequence number of a channel's next message.
pub uninterp spec fn next_sequence(channel: TopicChannel) -> u32;

/// The header and the profile metadata of a Synapse bag.
pub open spec fn opening_records(
    library: Seq<char>,
    session_id: Seq<char>,
    source: Seq<char>,
    basis: Basis,
) -> Seq<RecordView> {
    seq![
        RecordView::Header { profile: PROFILE@, library },
        RecordView::Metadata {
            name: METADATA_NAME@,
            entries: seq![
                (SCHEMA_SET_HASH_KEY@, SCHEMA_SET_HASH@),
                (SESSION_ID_KEY@, session_id),
                (SOURCE_KEY@, source),
                (TIME_BASIS_KEY@, basis.word()),
            ],
        },
    ]
}

/// The channel on which a log writes the messages of the catalog topic with an id.
pub open spec fn topic_channel(id: u16, topic_id: u16, key: Seq<char>, schema_id: u16) -> ChannelView {
    let topic = catalog()[topic_id - 1];
    ChannelView {
        id,
        topic: key,
        schema: Some(
            SchemaView {
                id: schema_id,
                name: topic.mcap_schema_name@,
                encoding: FLATBUFFER@,
                data: embedded_schema(topic.schema_file@)->Some_0.bfbs@,
            },
        ),
        message_encoding: FLATBUFFER@,
        metadata: seq![(TOPIC_ID_KEY@, decimal(topic_id as nat))],
    }
}

/// Why no log is started, if one of the arguments stands against it.
pub open spec fn refusal(library: Seq<char>, session_id: Seq<char>, source: Seq<char>) -> Option<
    Seq<char>,
> {
    if library.len() == 0 {
        Some("MCAP library identifier is empty"@)
    } else if source.len() == 0 {
        Some("Synapse MCAP source is empty"@)
    } else if !is_hex_128(session_id) {
        Some("Synapse MCAP session id must be 32 lowercase hexadecimal characters"@)
    } else {
        None
    }
}

/// `synapse_fbs::mcap::Writer::new`: a log with the profile's header and metadata.
///
/// It fails exactly if the library or the source is empty, or if the session id has not 128
/// bits: bytes in memory take whatever is written. Else the log starts with these two
/// records, which hold the arguments and the fingerprint of all schemas, and has no
/// channels or messages.
#[verifier::external_body]
pub(crate) fn start_log(library: &str, session_id: &str, source: &str, basis: Basis) -> (r: Result<
    BagLog,
    String,
>)
    requires
        encode_utf8(library@).len() <= TEXT_LIMIT,
        encode_utf8(source@).len() <= SOURCE_LIMIT,
    ensures
        r is Ok <==> refusal(library@, session_id@, source@) is None,
        r is Err ==> Some(r->Err_0@) == refusal(library@, session_id@, source@),
        r is Ok ==> opening(r->Ok_0) == opening_records(library@, session_id@, source@, basis),
        r is Ok ==> registered(r->Ok_0) == (Map::<u16, ChannelView>::empty()),
        r is Ok ==> logged(r->Ok_0) == Seq::<MessageView>::empty(),
{
    let time_basis = match basis {
        Basis::MonotonicBoot => TimeBasis::MonotonicBoot,
        Basis::UnixEpoch => TimeBasis::UnixEpoch,
        Basis::Correlated => TimeBasis::Correlated,
    };
    match Writer::new(Cursor::new(Vec::new()), library, session_id, source, time_basis) {
        Ok(writer) => Ok(BagLog { writer }),
        Err(error) => Err(error.to_string()),
    }
}

/// Whether `after` are the channels `before` with one for a topic under `id`. A channel
/// that was there under the id is the same.
pub open spec fn adds_channel(
    before: Map<u16, ChannelView>,
    after: Map<u16, ChannelView>,
    id: u16,
    topic_id: u16,
    key: Seq<char>,
) -> bool {
    &&& exists|schema_id: u16|
        after == before.insert(id, #[trigger] topic_channel(id, topic_id, key, schema_id))
    &&& before.dom().contains(id) ==> after == before
}

/// `synapse_fbs::mcap::Writer::add_topic`: a channel for the messages of a topic.
///
/// The channel is new, or the one that was added with the same contents before. Its
/// messages are numbered from zero. Every catalog topic has its schema, and below the
/// limit there is an id left, so there is no failure: bytes in memory take whatever is
/// written.
#[verifier::external_body]
pub(crate) fn add_topic(log: &mut BagLog, topic_id: u16, key: &str) -> (r: Result<
    TopicChannel,
    String,
>)
    requires
        1 <= topic_id <= TOPIC_COUNT,
        encode_utf8(key@).len() <= TEXT_LIMIT,
        registered(*old(log)).dom().len() < CHANNEL_LIMIT,
    ensures
        r is Ok,
        opening(*final(log)) == opening(*old(log)),
        adds_channel(
            registered(*old(log)),
            registered(*final(log)),
            channel_id(r->Ok_0),
            topic_id,
            key@,
        ),
        next_sequence(r->Ok_0) == 0,
        logged(*final(log)) == logged(*old(log)),
{
    let topic = topic_catalog::topic_by_id(topic_id).unwrap();
    log.writer.add_topic(topic, key).map_err(|error| error.to_string())
}

/// `synapse_fbs::mcap::Writer::write`: a message on a channel.
///
/// The message gets the channel's next sequence number, which is then counted up and
/// starts again from zero after the last. It fails exactly if the log does not have the
/// channel: bytes in memory take whatever is written.
#[verifier::external_body]
pub(crate) fn write_message(
    log: &mut BagLog,
    channel: &mut TopicChannel,
    log_time: u64,
    publish_time: u64,
    data: &[u8],
) -> (r: Result<(), String>)
    ensures
        r is Ok <==> registered(*old(log)).dom().contains(channel_id(*old(channel))),
        opening(*final(log)) == opening(*old(log)),
        registered(*final(log)) == registered(*old(log)),
        channel_id(*final(channel)) == channel_id(*old(channel)),
        next_sequence(*final(channel)) == if next_sequence(*old(channel)) == u32::MAX {
            0
        } else {
            next_sequence(*old(channel)) + 1
        },
        r is Ok ==> logged(*final(log)) == logged(*old(log)).push(
            MessageView {
                channel: registered(*old(log))[channel_id(*old(channel))],
                sequence: next_sequence(*old(channel)),
                log_time,
                publish_time,
                data: data@,
            },
        ),
{
    log.writer.write(channel, log_time, publish_time, data).map_err(|error| error.to_string())
}

/// `synapse_fbs::mcap::Writer::finish`: the bytes of the file.
///
/// It does not fail: bytes in memory take whatever is written. The file has neither chunks
/// nor attachments. Its readers give back what was written: the two opening records first,
/// and the messages in their order.
#[verifier::external_body]
pub(crate) fn finish_log(log: BagLog) -> (r: Result<Vec<u8>, String>)
    ensures
        r is Ok,
        records_readable(r->Ok_0@) && messages_readable(r->Ok_0@),
        bag_records(r->Ok_0@).len() >= 2,
        bag_records(r->Ok_0@).take(2) == opening(log).map_values(
            |record: RecordView| Ok::<RecordView, Seq<char>>(record),
        ),
        bag_messages(r->Ok_0@) == logged(log).map_values(
            |message: MessageView| Ok::<MessageView, Seq<char>>(message),
        ),
{
    match log.writer.finish() {
        Ok(output) => Ok(output.into_inner()),
        Err(error) => Err(error.to_string()),
    }
}

} // verus!
