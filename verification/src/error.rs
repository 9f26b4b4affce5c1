//! What can go wrong, and how each failure is worded.

use vstd::prelude::*;
use vstd::string::*;

use crate::text::{decimal, number, opt_view};

verus! {

/// Why a payload could not be decoded as a topic.
#[derive(Clone, Copy, Debug, PartialEq, Eq, Structural)]
pub enum DecodeFailure {
    /// The catalog has no decoder for the topic.
    UnknownTopic,
    /// A fixed-layout payload has not the size of its struct.
    PayloadSize { expected: usize, actual: usize },
    /// A root-table payload is no valid FlatBuffer.
    InvalidFlatbuffer,
}

impl DecodeFailure {
    /// The wording of the failure.
    pub open spec fn text(self) -> Seq<char> {
        match self {
            DecodeFailure::UnknownTopic => "topic has no generated decoder"@,
            DecodeFailure::PayloadSize { expected, actual } => "payload is "@ + decimal(
                actual as nat,
            ) + " bytes, catalog expects "@ + decimal(expected as nat),
            DecodeFailure::InvalidFlatbuffer => "payload failed FlatBuffers verification"@,
        }
    }

    /// The wording of the failure.
    pub fn message(&self) -> (r: String)
        ensures
            r@ == self.text(),
    {
        match self {
            DecodeFailure::UnknownTopic => "topic has no generated decoder".to_owned(),
            DecodeFailure::PayloadSize { expected, actual } => {
                let mut m = "payload is ".to_owned();
                m.append(number(*actual as u64).as_str());
                m.append(" bytes, catalog expects ");
                m.append(number(*expected as u64).as_str());
                m
            },
            DecodeFailure::InvalidFlatbuffer => "payload failed FlatBuffers verification".to_owned(),
        }
    }
}

/// A failure of the toolkit. Where another failure led to it, `cause` words that one.
#[allow(inconsistent_fields)]
#[derive(Debug)]
pub enum Error {
    /// No catalog topic goes by the name.
    UnknownTopic { name: String },
    /// A value encoding is not the contract of any catalog topic.
    Contract { reason: String },
    /// A payload does not decode as its topic.
    Decode { topic: String, failure: DecodeFailure },
    /// A publication timestamp does not fit in nanoseconds.
    TimestampOverflow { topic: String },
    /// A fixed-layout payload does not fit in a wrapper table.
    WrapTooLarge,
    /// The size of a wrapped payload does not fit in memory.
    UnwrapOverflow,
    /// The bytes are no wrapper of a payload of the expected size.
    InvalidWrapper { actual: usize, expected: usize },
    /// The MCAP file cannot be opened for its records.
    OpenRecords { cause: String },
    /// The first MCAP record cannot be read.
    ReadHeader { cause: String },
    /// The MCAP file does not begin with a header.
    HeaderMissing,
    /// The MCAP file follows another profile.
    UnsupportedProfile { profile: String },
    /// The MCAP header names no library.
    EmptyLibrary,
    /// A record before the profile metadata cannot be read.
    ReadMetadata { cause: String },
    /// The profile metadata lacks a required key.
    MissingMetadata { key: String },
    /// The schema-set hash is not 32 lowercase hexadecimal digits.
    InvalidSchemaSetHash,
    /// The session id is not 32 lowercase hexadecimal digits.
    InvalidSessionId,
    /// The time basis is none of the profile's three.
    InvalidTimeBasis { basis: String },
    /// A message or chunk stands before the profile metadata.
    MetadataAfterMessage,
    /// The file ends without profile metadata.
    MetadataRecordMissing,
    /// The MCAP file cannot be opened for its messages.
    OpenMessages { cause: String },
    /// A message cannot be read.
    ReadMessage { cause: String },
    /// A channel has no schema.
    NoSchema { topic: String },
    /// A channel's schema names no catalog type.
    UnknownMcapType { name: String },
    /// A channel does not carry its catalog topic's exact schema contract.
    IncompatibleChannel { topic: String },
    /// A recorded payload does not match its channel's topic.
    BagPayload { channel: String, topic: String, cause: String },
    /// The MCAP file cannot be started.
    StartBag { cause: String },
    /// A channel cannot be added to the MCAP file.
    AddChannel { key: String, cause: String },
    /// A sample cannot be written to the MCAP file.
    WriteSample { key: String, cause: String },
    /// The MCAP file cannot be finished.
    FinishBag { cause: String },
    /// The system clock stands before 1970.
    ClockBeforeEpoch,
    /// A sample's value encoding is no valid contract.
    NoValueContract { key: String, cause: String },
    /// A sample carries another type than the one asked for.
    UnexpectedType { key: String, actual: String, expected: String },
    /// A topic changed its type while it was observed.
    TypeChanged { key: String, previous: String, current: String },
    /// Neither a file nor a text gives the payload to publish.
    NoPayload,
    /// Both a file and a text give a payload to publish.
    TwoPayloads,
    /// The payload to publish is not of the required type.
    PublishPayload { ty: String, cause: String },
}

/// What is told of a failure: its wording, and that of the failure behind it.
pub struct Report {
    pub text: Seq<char>,
    pub cause: Option<Seq<char>>,
}

/// A report without a failure behind it.
pub open spec fn plainly(text: Seq<char>) -> Report {
    Report { text, cause: None }
}

/// A report with the failure behind it.
pub open spec fn because(text: Seq<char>, cause: Seq<char>) -> Report {
    Report { text, cause: Some(cause) }
}

impl View for Error {
    type V = Report;

    open spec fn view(&self) -> Report {
        Report { text: self.text(), cause: self.cause_text() }
    }
}

impl Error {
    /// The wording of the failure behind this one.
    pub open spec fn cause_text(self) -> Option<Seq<char>> {
        match self {
            Error::OpenRecords { cause } => Some(cause@),
            Error::ReadHeader { cause } => Some(cause@),
            Error::ReadMetadata { cause } => Some(cause@),
            Error::OpenMessages { cause } => Some(cause@),
            Error::ReadMessage { cause } => Some(cause@),
            Error::BagPayload { channel, topic, cause } => Some(cause@),
            Error::StartBag { cause } => Some(cause@),
            Error::AddChannel { key, cause } => Some(cause@),
            Error::WriteSample { key, cause } => Some(cause@),
            Error::FinishBag { cause } => Some(cause@),
            Error::NoValueContract { key, cause } => Some(cause@),
            Error::PublishPayload { ty, cause } => Some(cause@),
            _ => None,
        }
    }

    /// The wording of the failure behind this one.
    pub fn cause(&self) -> (r: Option<String>)
        ensures
            opt_view(r) == self.cause_text(),
    {
        match self {
            Error::OpenRecords { cause } => Some(cause.clone()),
            Error::ReadHeader { cause } => Some(cause.clone()),
            Error::ReadMetadata { cause } => Some(cause.clone()),
            Error::OpenMessages { cause } => Some(cause.clone()),
            Error::ReadMessage { cause } => Some(cause.clone()),
            Error::BagPayload { channel: _, topic: _, cause } => Some(cause.clone()),
            Error::StartBag { cause } => Some(cause.clone()),
            Error::AddChannel { key: _, cause } => Some(cause.clone()),
            Error::WriteSample { key: _, cause } => Some(cause.clone()),
            Error::FinishBag { cause } => Some(cause.clone()),
            Error::NoValueContract { key: _, cause } => Some(cause.clone()),
            Error::PublishPayload { ty: _, cause } => Some(cause.clone()),
            _ => None,
        }
    }

    /// The wording of the failure.
    pub open spec fn text(self) -> Seq<char> {
        match self {
            Error::UnknownTopic { name } => "unknown Synapse topic '"@ + name@ + "'"@,
            Error::Contract { reason } => reason@,
            Error::Decode { topic, failure } => topic@ + ": "@ + failure.text(),
            Error::TimestampOverflow { topic } => topic@ + " timestamp_us overflows nanoseconds"@,
            Error::WrapTooLarge => "fixed payload is too large to wrap"@,
            Error::UnwrapOverflow => "fixed MCAP payload size overflow"@,
            Error::InvalidWrapper { actual, expected } => "invalid fixed-layout MCAP wrapper ("@
                + decimal(actual as nat) + " bytes, expected "@ + decimal(expected as nat) + ")"@,
            Error::OpenRecords { cause } => "failed to open MCAP"@,
            Error::ReadHeader { cause } => "failed to read MCAP header"@,
            Error::HeaderMissing => "MCAP file does not begin with a header"@,
            Error::UnsupportedProfile { profile } => "unsupported MCAP profile '"@ + profile@
                + "'; expected synapse/1"@,
            Error::EmptyLibrary => "Synapse MCAP library identifier is empty"@,
            Error::ReadMetadata { cause } => "failed to read MCAP profile metadata"@,
            Error::MissingMetadata { key } => "Synapse MCAP metadata is missing "@ + key@,
            Error::InvalidSchemaSetHash => "invalid Synapse MCAP schema-set hash"@,
            Error::InvalidSessionId => "invalid Synapse MCAP session id"@,
            Error::InvalidTimeBasis { basis } => "invalid Synapse MCAP time basis '"@ + basis@
                + "'"@,
            Error::MetadataAfterMessage =>
                "Synapse MCAP metadata must precede the first message"@,
            Error::MetadataRecordMissing => "Synapse MCAP metadata record is missing"@,
            Error::OpenMessages { cause } => "failed to open bag"@,
            Error::ReadMessage { cause } => "failed to read bag message"@,
            Error::NoSchema { topic } => "MCAP channel "@ + topic@
                + " has no required Synapse schema"@,
            Error::UnknownMcapType { name } => "unknown MCAP Synapse type "@ + name@,
            Error::IncompatibleChannel { topic } => "MCAP channel "@ + topic@
                + " has an incompatible Synapse schema contract"@,
            Error::BagPayload { channel, topic, cause } => "MCAP payload on "@ + channel@
                + " does not match "@ + topic@,
            Error::StartBag { cause } => "failed to start Synapse MCAP file"@,
            Error::AddChannel { key, cause } => "failed to add Synapse MCAP channel "@ + key@,
            Error::WriteSample { key, cause } => "failed to write Synapse MCAP sample on "@ + key@,
            Error::FinishBag { cause } => "failed to finish Synapse MCAP file"@,
            Error::ClockBeforeEpoch => "system time is before Unix epoch"@,
            Error::NoValueContract { key, cause } => "topic "@ + key@
                + " has no valid Synapse value contract"@,
            Error::UnexpectedType { key, actual, expected } => "topic "@ + key@ + " advertises "@
                + actual@ + ", expected "@ + expected@,
            Error::TypeChanged { key, previous, current } => "topic "@ + key@
                + " changed value type from "@ + previous@ + " to "@ + current@,
            Error::NoPayload => "topic pub requires --file or --text"@,
            Error::TwoPayloads => "use only one of --file or --text"@,
            Error::PublishPayload { ty, cause } => "payload does not match required type "@ + ty@,
        }
    }

    /// The wording of the failure.
    pub fn message(&self) -> (r: String)
        ensures
            r@ == self.text(),
    {
        match self {
            Error::UnknownTopic { name } => around("unknown Synapse topic '", name, "'"),
            Error::Contract { reason } => reason.clone(),
            Error::Decode { topic, failure } => {
                let mut m = topic.clone();
                m.append(": ");
                m.append(failure.message().as_str());
                m
            },
            Error::TimestampOverflow { topic } => {
                let mut m = topic.clone();
                m.append(" timestamp_us overflows nanoseconds");
                m
            },
            Error::WrapTooLarge => "fixed payload is too large to wrap".to_owned(),
            Error::UnwrapOverflow => "fixed MCAP payload size overflow".to_owned(),
            Error::InvalidWrapper { actual, expected } => {
                let mut m = "invalid fixed-layout MCAP wrapper (".to_owned();
                m.append(number(*actual as u64).as_str());
                m.append(" bytes, expected ");
                m.append(number(*expected as u64).as_str());
                m.append(")");
                m
            },
            Error::OpenRecords { cause: _ } => "failed to open MCAP".to_owned(),
            Error::ReadHeader { cause: _ } => "failed to read MCAP header".to_owned(),
            Error::HeaderMissing => "MCAP file does not begin with a header".to_owned(),
            Error::UnsupportedProfile { profile } => around(
                "unsupported MCAP profile '",
                profile,
                "'; expected synapse/1",
            ),
            Error::EmptyLibrary => "Synapse MCAP library identifier is empty".to_owned(),
            Error::ReadMetadata { cause: _ } => "failed to read MCAP profile metadata".to_owned(),
            Error::MissingMetadata { key } => {
                let mut m = "Synapse MCAP metadata is missing ".to_owned();
                m.append(key.as_str());
                m
            },
            Error::InvalidSchemaSetHash => "invalid Synapse MCAP schema-set hash".to_owned(),
            Error::InvalidSessionId => "invalid Synapse MCAP session id".to_owned(),
            Error::InvalidTimeBasis { basis } => around(
                "invalid Synapse MCAP time basis '",
                basis,
                "'",
            ),
            Error::MetadataAfterMessage =>
                "Synapse MCAP metadata must precede the first message".to_owned(),
            Error::MetadataRecordMissing => "Synapse MCAP metadata record is missing".to_owned(),
            Error::OpenMessages { cause: _ } => "failed to open bag".to_owned(),
            Error::ReadMessage { cause: _ } => "failed to read bag message".to_owned(),
            Error::NoSchema { topic } => around(
                "MCAP channel ",
                topic,
                " has no required Synapse schema",
            ),
            Error::UnknownMcapType { name } => {
                let mut m = "unknown MCAP Synapse type ".to_owned();
                m.append(name.as_str());
                m
            },
            Error::IncompatibleChannel { topic } => around(
                "MCAP channel ",
                topic,
                " has an incompatible Synapse schema contract",
            ),
            Error::BagPayload { channel, topic, cause: _ } => {
                let mut m = around("MCAP payload on ", channel, " does not match ");
                m.append(topic.as_str());
                m
            },
            Error::StartBag { cause: _ } => "failed to start Synapse MCAP file".to_owned(),
            Error::AddChannel { key, cause: _ } => {
                let mut m = "failed to add Synapse MCAP channel ".to_owned();
                m.append(key.as_str());
                m
            },
            Error::WriteSample { key, cause: _ } => {
                let mut m = "failed to write Synapse MCAP sample on ".to_owned();
                m.append(key.as_str());
                m
            },
            Error::FinishBag { cause: _ } => "failed to finish Synapse MCAP file".to_owned(),
            Error::ClockBeforeEpoch => "system time is before Unix epoch".to_owned(),
            Error::NoValueContract { key, cause: _ } => around(
                "topic ",
                key,
                " has no valid Synapse value contract",
            ),
            Error::UnexpectedType { key, actual, expected } => {
                let mut m = around("topic ", key, " advertises ");
                m.append(actual.as_str());
                m.append(", expected ");
                m.append(expected.as_str());
                m
            },
            Error::TypeChanged { key, previous, current } => {
                let mut m = around("topic ", key, " changed value type from ");
                m.append(previous.as_str());
                m.append(" to ");
                m.append(current.as_str());
                m
            },
            Error::NoPayload => "topic pub requires --file or --text".to_owned(),
            Error::TwoPayloads => "use only one of --file or --text".to_owned(),
            Error::PublishPayload { ty, cause: _ } => {
                let mut m = "payload does not match required type ".to_owned();
                m.append(ty.as_str());
                m
            },
        }
    }
}

fn around(start: &str, middle: &String, end: &str) -> (r: String)
    ensures
        r@ == start@ + middle@ + end@,
{
    let mut m = start.to_owned();
    m.append(middle.as_str());
    m.append(end);
    m
}

/// A payload of the wrong size is reported with both sizes, and the other two failures by
/// what they are; a failure of a topic is reported under the topic's name.
pub proof fn decode_failures_are_told_apart(expected: usize, actual: usize, topic: String)
    ensures
        (DecodeFailure::PayloadSize { expected, actual }).text() == "payload is "@ + decimal(
            actual as nat,
        ) + " bytes, catalog expects "@ + decimal(expected as nat),
        DecodeFailure::InvalidFlatbuffer.text() == "payload failed FlatBuffers verification"@,
        DecodeFailure::UnknownTopic.text() == "topic has no generated decoder"@,
        forall|failure: DecodeFailure|
            (#[trigger] (Error::Decode { topic, failure }).text()) == topic@ + ": "@
                + failure.text(),
        (Error::InvalidWrapper { actual, expected }).text()
            == "invalid fixed-layout MCAP wrapper ("@ + decimal(actual as nat)
            + " bytes, expected "@ + decimal(expected as nat) + ")"@,
{
}

/// A failure with another behind it tells that one as its cause, and words itself without
/// it; a failure that stands alone has no cause.
pub proof fn cause_is_the_failure_behind(cause: String, name: String)
    ensures
        (Error::ReadHeader { cause })@ == (Report {
            text: "failed to read MCAP header"@,
            cause: Some(cause@),
        }),
        (Error::ReadMetadata { cause })@ == (Report {
            text: "failed to read MCAP profile metadata"@,
            cause: Some(cause@),
        }),
        (Error::ReadMessage { cause })@ == (Report {
            text: "failed to read bag message"@,
            cause: Some(cause@),
        }),
        (Error::StartBag { cause })@ == (Report {
            text: "failed to start Synapse MCAP file"@,
            cause: Some(cause@),
        }),
        (Error::NoValueContract { key: name, cause })@ == (Report {
            text: "topic "@ + name@ + " has no valid Synapse value contract"@,
            cause: Some(cause@),
        }),
        (Error::PublishPayload { ty: name, cause })@ == (Report {
            text: "payload does not match required type "@ + name@,
            cause: Some(cause@),
        }),
        (Error::UnknownTopic { name })@ == (Report {
            text: "unknown Synapse topic '"@ + name@ + "'"@,
            cause: None,
        }),
        (Error::TimestampOverflow { topic: name })@ == (Report {
            text: name@ + " timestamp_us overflows nanoseconds"@,
            cause: None,
        }),
        (Error::ClockBeforeEpoch)@ == (Report {
            text: "system time is before Unix epoch"@,
            cause: None,
        }),
{
}

} // verus!
