//! Synapse bags: MCAP files that follow the `synapse/1` profile.

use std::time::Duration;

use synapse_fbs::mcap::TopicChannel;
use vstd::prelude::*;
use vstd::slice::*;
use vstd::string::*;
use vstd::utf8::*;

use crate::catalog::{catalog, catalog_sound, TOPIC_COUNT};
use crate::container::{
    add_topic, adds_channel, bag_messages, bag_records, channel_id, entries_view, finish_log,
    logged, message_source, next_message, next_record, next_sequence, open_messages,
    open_records, opening, opening_records, record_item, record_place, record_source, refusal,
    registered, start_log, topic_channel, unread_messages, unread_records, write_message, BagLog,
    BagMessage, BagRecord, Basis, Channel, ChannelView, MessageView, RecordView, CHANNEL_LIMIT,
    CORRELATED, FLATBUFFER, METADATA_NAME, MONOTONIC_BOOT, PROFILE, SCHEMA_SET_HASH,
    SCHEMA_SET_HASH_KEY, SESSION_ID_KEY, SOURCE_KEY, SOURCE_LIMIT, TEXT_LIMIT, TIME_BASIS_KEY,
    TOPIC_ID_KEY, UNIX_EPOCH,
};
use crate::error::{because, plainly, Error, Report};
use crate::framing::{
    cut_at, find_stuck, has_magic, is_cut_at, messages_readable, next_place, place_after,
    records_readable, records_sound_from, sound_part, sound_part_is_readable, starts_with_magic,
    stuck_place,
};
use crate::ordered::OrderedMap;
use crate::payload::{lays_out, le_bytes, same_bytes};
use crate::text::{chars_of, decimal, is_hex_128, number, opt_view, same};
use crate::types::{
    every_name_finds_its_topic, known_as, opt_type_of, recorded, recorded_payload_is_restored,
    timestamp_is_the_number_in_the_sample, timestamp_us, type_of, typed, TopicType,
};

verus! {

/// Required file-level metadata of the `synapse/1` profile.
#[derive(Debug)]
pub struct ProfileMetadata {
    pub library: String,
    pub schema_set_hash: String,
    pub session_id: String,
    pub source: String,
    pub time_basis: String,
}

/// The contents of a [`ProfileMetadata`].
pub struct ProfileView {
    pub library: Seq<char>,
    pub schema_set_hash: Seq<char>,
    pub session_id: Seq<char>,
    pub source: Seq<char>,
    pub time_basis: Seq<char>,
}

impl View for ProfileMetadata {
    type V = ProfileView;

    open spec fn view(&self) -> ProfileView {
        ProfileView {
            library: self.library@,
            schema_set_hash: self.schema_set_hash@,
            session_id: self.session_id@,
            source: self.source@,
            time_basis: self.time_basis@,
        }
    }
}

/// The value of a key: that of the first entry with it.
pub open spec fn value_of(entries: Seq<(Seq<char>, Seq<char>)>, key: Seq<char>) -> Option<Seq<char>>
    decreases entries.len(),
{
    if entries.len() == 0 {
        None
    } else if entries[0].0 == key {
        Some(entries[0].1)
    } else {
        value_of(entries.drop_first(), key)
    }
}

/// Whether the metadata lacks a key: it is missing, or has no value.
pub open spec fn lacks(entries: Seq<(Seq<char>, Seq<char>)>, key: Seq<char>) -> bool {
    match value_of(entries, key) {
        Some(value) => value.len() == 0,
        None => true,
    }
}

/// How missing metadata is reported.
pub open spec fn missing(key: Seq<char>) -> Report {
    plainly("Synapse MCAP metadata is missing "@ + key)
}

/// The profile that the metadata of a file describes, or what is wrong with it.
pub open spec fn described_profile(
    library: Seq<char>,
    entries: Seq<(Seq<char>, Seq<char>)>,
) -> Result<ProfileView, Report> {
    if lacks(entries, SCHEMA_SET_HASH_KEY@) {
        Err(missing(SCHEMA_SET_HASH_KEY@))
    } else if lacks(entries, SESSION_ID_KEY@) {
        Err(missing(SESSION_ID_KEY@))
    } else if lacks(entries, SOURCE_KEY@) {
        Err(missing(SOURCE_KEY@))
    } else if lacks(entries, TIME_BASIS_KEY@) {
        Err(missing(TIME_BASIS_KEY@))
    } else {
        let profile = ProfileView {
            library,
            schema_set_hash: value_of(entries, SCHEMA_SET_HASH_KEY@)->Some_0,
            session_id: value_of(entries, SESSION_ID_KEY@)->Some_0,
            source: value_of(entries, SOURCE_KEY@)->Some_0,
            time_basis: value_of(entries, TIME_BASIS_KEY@)->Some_0,
        };
        if !is_hex_128(profile.schema_set_hash) {
            Err(plainly("invalid Synapse MCAP schema-set hash"@))
        } else if !is_hex_128(profile.session_id) {
            Err(plainly("invalid Synapse MCAP session id"@))
        } else if profile.time_basis != MONOTONIC_BOOT@ && profile.time_basis != UNIX_EPOCH@
            && profile.time_basis != CORRELATED@ {
            Err(plainly("invalid Synapse MCAP time basis '"@ + profile.time_basis + "'"@))
        } else {
            Ok(profile)
        }
    }
}

/// The profile of a file whose records, from behind its header, are given: that of the
/// first metadata record named `synapse`, which has to stand before any message.
pub open spec fn profile_behind(
    library: Seq<char>,
    items: Seq<Result<RecordView, Seq<char>>>,
) -> Result<ProfileView, Report>
    decreases items.len(),
{
    if items.len() == 0 {
        Err(plainly("Synapse MCAP metadata record is missing"@))
    } else {
        match items[0] {
            Err(cause) => Err(because("failed to read MCAP profile metadata"@, cause)),
            Ok(RecordView::Metadata { name, entries }) => if name == METADATA_NAME@ {
                described_profile(library, entries)
            } else {
                profile_behind(library, items.drop_first())
            },
            Ok(RecordView::Message) | Ok(RecordView::Chunk) => Err(
                plainly("Synapse MCAP metadata must precede the first message"@),
            ),
            Ok(_) => profile_behind(library, items.drop_first()),
        }
    }
}

/// The profile of a file whose records are given.
pub open spec fn profile_of(items: Seq<Result<RecordView, Seq<char>>>) -> Result<
    ProfileView,
    Report,
> {
    if items.len() == 0 {
        Err(plainly("MCAP file does not begin with a header"@))
    } else {
        match items[0] {
            Err(cause) => Err(because("failed to read MCAP header"@, cause)),
            Ok(RecordView::Header { profile, library }) => if profile != PROFILE@ {
                Err(plainly("unsupported MCAP profile '"@ + profile + "'; expected synapse/1"@))
            } else if library.len() == 0 {
                Err(plainly("Synapse MCAP library identifier is empty"@))
            } else {
                profile_behind(library, items.drop_first())
            },
            Ok(_) => Err(plainly("MCAP file does not begin with a header"@)),
        }
    }
}

/// The library that a search for the profile knows behind a record, if it goes on behind
/// it. A search that has not seen the header knows none.
pub open spec fn continues(
    library: Option<Seq<char>>,
    item: Result<RecordView, Seq<char>>,
) -> Option<Seq<char>> {
    match library {
        None => match item {
            Ok(RecordView::Header { profile, library }) => if profile == PROFILE@ && library.len()
                > 0 {
                Some(library)
            } else {
                None
            },
            _ => None,
        },
        Some(library) => match item {
            Ok(RecordView::Metadata { name, entries }) => if name == METADATA_NAME@ {
                None
            } else {
                Some(library)
            },
            Ok(RecordView::Message) | Ok(RecordView::Chunk) | Err(_) => None,
            Ok(_) => Some(library),
        },
    }
}

/// Whether a search for the profile comes to an attachment that is cut short. It stands at
/// a place of the file, from which on the records are given.
pub open spec fn search_stuck(
    file: Seq<u8>,
    at: int,
    library: Option<Seq<char>>,
    items: Seq<Result<RecordView, Seq<char>>>,
) -> bool
    decreases items.len(),
{
    if has_magic(file) && cut_at(file, at) {
        true
    } else if items.len() == 0 {
        false
    } else {
        match continues(library, items[0]) {
            Some(library) => search_stuck(
                file,
                place_after(file, at),
                Some(library),
                items.drop_first(),
            ),
            None => false,
        }
    }
}

/// Whether an attachment that is cut short stands before what decides on the profile of a
/// file.
pub open spec fn profile_stuck(file: Seq<u8>) -> bool {
    search_stuck(file, 8, None, bag_records(file))
}

proof fn lemma_search_not_stuck(
    file: Seq<u8>,
    at: int,
    library: Option<Seq<char>>,
    items: Seq<Result<RecordView, Seq<char>>>,
)
    requires
        has_magic(file) ==> records_sound_from(file, at),
    ensures
        !search_stuck(file, at, library, items),
    decreases items.len(),
{
    if items.len() > 0 {
        if let Some(library) = continues(library, items[0]) {
            lemma_search_not_stuck(
                file,
                place_after(file, at),
                Some(library),
                items.drop_first(),
            );
        }
    }
}

/// What came of looking for a profile, as far as its contents go.
pub open spec fn profile_result(r: Result<ProfileMetadata, Error>) -> Result<ProfileView, Report> {
    match r {
        Ok(profile) => Ok(profile@),
        Err(error) => Err(error@),
    }
}

/// The value of a key: that of the first entry with it.
pub(crate) fn find_value(entries: &Vec<(String, String)>, key: &str) -> (r: Option<String>)
    ensures
        opt_view(r) == value_of(entries_view(entries@), key@),
{
    let ghost all = entries_view(entries@);
    let mut i: usize = 0;
    assert(all.skip(0) =~= all);
    while i < entries.len()
        invariant
            i <= entries@.len(),
            all == entries_view(entries@),
            value_of(all, key@) == value_of(all.skip(i as int), key@),
        decreases entries.len() - i,
    {
        assert(all.skip(i as int).drop_first() =~= all.skip(i + 1));
        if same(entries[i].0.as_str(), key) {
            return Some(entries[i].1.clone());
        }
        i = i + 1;
    }
    None
}

fn required(entries: &Vec<(String, String)>, key: &str) -> (r: Result<String, Error>)
    ensures
        r is Ok <==> !lacks(entries_view(entries@), key@),
        r matches Ok(value) ==> Some(value@) == value_of(entries_view(entries@), key@),
        r matches Err(error) ==> error@ == missing(key@),
{
    match find_value(entries, key) {
        Some(value) => if chars_of(value.as_str()).len() > 0 {
            Ok(value)
        } else {
            Err(Error::MissingMetadata { key: key.to_owned() })
        },
        None => Err(Error::MissingMetadata { key: key.to_owned() }),
    }
}

/// Whether a value is 128 bits in lowercase hexadecimal.
pub fn is_lowercase_hex_128(value: &str) -> (r: bool)
    ensures
        r == is_hex_128(value@),
{
    let chars = chars_of(value);
    if chars.len() != 32 {
        return false;
    }
    let mut i: usize = 0;
    while i < chars.len()
        invariant
            i <= chars@.len(),
            chars@ == value@,
            chars@.len() == 32,
            forall|j: int|
                0 <= j < i ==> ('0' <= #[trigger] value@[j] <= '9' || 'a' <= value@[j] <= 'f'),
        decreases chars.len() - i,
    {
        let c = chars[i];
        if !(('0' <= c && c <= '9') || ('a' <= c && c <= 'f')) {
            assert(value@[i as int] == c);
            return false;
        }
        i = i + 1;
    }
    true
}

fn describe_profile(library: String, entries: &Vec<(String, String)>) -> (r: Result<
    ProfileMetadata,
    Error,
>)
    ensures
        profile_result(r) == described_profile(library@, entries_view(entries@)),
{
    let schema_set_hash = match required(entries, SCHEMA_SET_HASH_KEY) {
        Ok(value) => value,
        Err(error) => return Err(error),
    };
    let session_id = match required(entries, SESSION_ID_KEY) {
        Ok(value) => value,
        Err(error) => return Err(error),
    };
    let source = match required(entries, SOURCE_KEY) {
        Ok(value) => value,
        Err(error) => return Err(error),
    };
    let time_basis = match required(entries, TIME_BASIS_KEY) {
        Ok(value) => value,
        Err(error) => return Err(error),
    };
    if !is_lowercase_hex_128(schema_set_hash.as_str()) {
        return Err(Error::InvalidSchemaSetHash);
    }
    if !is_lowercase_hex_128(session_id.as_str()) {
        return Err(Error::InvalidSessionId);
    }
    if !same(time_basis.as_str(), MONOTONIC_BOOT) && !same(time_basis.as_str(), UNIX_EPOCH)
        && !same(time_basis.as_str(), CORRELATED) {
        return Err(Error::InvalidTimeBasis { basis: time_basis });
    }
    Ok(ProfileMetadata { library, schema_set_hash, session_id, source, time_basis })
}

/// The search for a file's profile, record by record. Once the header was seen, it knows
/// the library.
#[derive(Debug)]
pub struct ProfileSearch {
    pub library: Option<String>,
}

impl ProfileSearch {
    /// What the search comes to if the records that follow are given.
    pub open spec fn outcome(self, items: Seq<Result<RecordView, Seq<char>>>) -> Result<
        ProfileView,
        Report,
    > {
        match self.library {
            Some(library) => profile_behind(library@, items),
            None => profile_of(items),
        }
    }

    /// A search that has seen no record.
    pub fn new() -> (r: ProfileSearch)
        ensures
            r.library is None,
    {
        ProfileSearch { library: None }
    }

    /// Look at the next record, or at the end of the file. The search goes on if there is
    /// no answer yet.
    pub fn look(&mut self, item: Option<&Result<BagRecord, String>>) -> (r: Option<
        Result<ProfileMetadata, Error>,
    >)
        ensures
            item is None ==> r is Some && profile_result(r->Some_0) == old(self).outcome(
                Seq::<Result<RecordView, Seq<char>>>::empty(),
            ),
            item is Some && r is Some ==> forall|items: Seq<Result<RecordView, Seq<char>>>|
                items.len() > 0 && items[0] == record_item(*item->Some_0) ==> profile_result(
                    r->Some_0,
                ) == #[trigger] old(self).outcome(items),
            r is None ==> item is Some && item->Some_0 is Ok && forall|
                items: Seq<Result<RecordView, Seq<char>>>,
            |
                items.len() > 0 && items[0] == record_item(*item->Some_0) ==> #[trigger] old(
                    self,
                ).outcome(items) == final(self).outcome(items.drop_first()),
            item is Some ==> (r is None <==> continues(
                opt_view(old(self).library),
                record_item(*item->Some_0),
            ) is Some),
            r is None ==> opt_view(final(self).library) == continues(
                opt_view(old(self).library),
                record_item(*item->Some_0),
            ),
    {
        let item = match item {
            Some(item) => item,
            None => return Some(
                if self.library.is_some() {
                    Err(Error::MetadataRecordMissing)
                } else {
                    Err(Error::HeaderMissing)
                },
            ),
        };
        match &self.library {
            None => match item {
                Err(cause) => Some(Err(Error::ReadHeader { cause: cause.clone() })),
                Ok(BagRecord::Header { profile, library }) => {
                    if !same(profile.as_str(), PROFILE) {
                        return Some(Err(Error::UnsupportedProfile { profile: profile.clone() }));
                    }
                    if chars_of(library.as_str()).len() == 0 {
                        return Some(Err(Error::EmptyLibrary));
                    }
                    self.library = Some(library.clone());
                    None
                },
                Ok(_) => Some(Err(Error::HeaderMissing)),
            },
            Some(library) => match item {
                Err(cause) => Some(Err(Error::ReadMetadata { cause: cause.clone() })),
                Ok(BagRecord::Metadata { name, entries }) => {
                    if same(name.as_str(), METADATA_NAME) {
                        return Some(describe_profile(library.clone(), entries));
                    }
                    None
                },
                Ok(BagRecord::Message) | Ok(BagRecord::Chunk) => Some(
                    Err(Error::MetadataAfterMessage),
                ),
                Ok(_) => None,
            },
        }
    }
}

/// Validate and return the required metadata of a file whose records are given, up to the
/// first that could not be read.
pub fn profile_from_records(records: &Vec<Result<BagRecord, String>>) -> (r: Result<
    ProfileMetadata,
    Error,
>)
    ensures
        profile_result(r) == profile_of(
            records@.map_values(|item: Result<BagRecord, String>| record_item(item)),
        ),
{
    let ghost items = records@.map_values(|item: Result<BagRecord, String>| record_item(item));
    let mut search = ProfileSearch::new();
    let mut i: usize = 0;
    assert(items.skip(0) =~= items);
    while i < records.len()
        invariant
            i <= records@.len(),
            items == records@.map_values(|item: Result<BagRecord, String>| record_item(item)),
            profile_of(items) == search.outcome(items.skip(i as int)),
        decreases records.len() - i,
    {
        let ghost rest = items.skip(i as int);
        assert(rest[0] == record_item(records@[i as int]));
        assert(rest.drop_first() =~= items.skip(i + 1));
        match search.look(Some(&records[i])) {
            Some(answer) => return answer,
            None => {},
        }
        i = i + 1;
    }
    assert(items.skip(i as int) =~= Seq::<Result<RecordView, Seq<char>>>::empty());
    match search.look(None) {
        Some(answer) => answer,
        None => Err(Error::MetadataRecordMissing),
    }
}

/// Validate and return the required file metadata for `synapse/1`.
pub fn profile_metadata(contents: &[u8]) -> (r: Result<ProfileMetadata, Error>)
    requires
        !profile_stuck(contents@),
    ensures
        profile_result(r) == profile_of(bag_records(contents@)),
{
    let mut records = match open_records(contents) {
        Ok(records) => records,
        Err(cause) => return Err(Error::OpenRecords { cause }),
    };
    let mut search = ProfileSearch::new();
    loop
        invariant
            record_source(records) == contents@,
            !search_stuck(
                contents@,
                record_place(records),
                opt_view(search.library),
                unread_records(records),
            ),
            profile_of(bag_records(contents@)) == search.outcome(unread_records(records)),
        decreases unread_records(records).len(),
    {
        let ghost items = unread_records(records);
        let item = next_record(&mut records);
        let ended = item.is_none();
        proof {
            if ended {
                assert(items =~= Seq::<Result<RecordView, Seq<char>>>::empty());
            }
        }
        match search.look(item.as_ref()) {
            Some(answer) => return answer,
            None => {},
        }
    }
}

/// Whether an attachment that is cut short stands before what decides on the profile.
fn is_profile_stuck(contents: &[u8]) -> (r: bool)
    ensures
        r == profile_stuck(contents@),
{
    let magic = starts_with_magic(contents);
    let mut records = match open_records(contents) {
        Ok(records) => records,
        Err(_) => return false,
    };
    let mut search = ProfileSearch::new();
    let mut at: usize = 8;
    loop
        invariant
            magic == has_magic(contents@),
            record_source(records) == contents@,
            record_place(records) == at,
            profile_stuck(contents@) == search_stuck(
                contents@,
                at as int,
                opt_view(search.library),
                unread_records(records),
            ),
        decreases unread_records(records).len(),
    {
        if magic && is_cut_at(contents, at) {
            return true;
        }
        let item = next_record(&mut records);
        match search.look(item.as_ref()) {
            Some(_) => return false,
            None => {},
        }
        at = next_place(contents, at);
    }
}

/// Read the required file metadata for `synapse/1`, unless an attachment that is cut short
/// stands before what decides on it.
pub fn read_profile(contents: &[u8]) -> (r: Option<Result<ProfileMetadata, Error>>)
    ensures
        r is None <==> profile_stuck(contents@),
        r matches Some(answer) ==> profile_result(answer) == profile_of(bag_records(contents@)),
{
    if is_profile_stuck(contents) {
        None
    } else {
        Some(profile_metadata(contents))
    }
}

/// How the reading of a bag's messages ended.
pub enum Ending {
    /// There were no more.
    Complete,
    /// One could not be read.
    Failed(Seq<char>),
    /// Behind them stands what a reader cannot be handed.
    Stuck,
}

/// How a reader reports that a file ends within a record.
pub const END_WITHIN_RECORD: &'static str = "MCAP file ended in the middle of a record";

/// The messages of a file up to the first that cannot be read, and why that one cannot.
pub open spec fn readable_part(items: Seq<Result<MessageView, Seq<char>>>) -> (
    Seq<MessageView>,
    Option<Seq<char>>,
)
    decreases items.len(),
{
    if items.len() == 0 {
        (seq![], None)
    } else {
        match items[0] {
            Ok(message) => {
                let rest = readable_part(items.drop_first());
                (seq![message] + rest.0, rest.1)
            },
            Err(cause) => (seq![], Some(cause)),
        }
    }
}

/// How the reading of a file ended whose sound part could be read up to a failure. The
/// sound part ends where a reader of the whole file would come to what it cannot be handed.
pub open spec fn ending(file: Seq<u8>, failure: Option<Seq<char>>) -> Ending {
    match failure {
        None => Ending::Complete,
        Some(cause) => if stuck_place(file) is Some && cause == END_WITHIN_RECORD@ {
            Ending::Stuck
        } else {
            Ending::Failed(cause)
        },
    }
}

/// The messages of a file, as far as they can be read, and how that ends.
pub open spec fn bag_reading(file: Seq<u8>) -> (Seq<MessageView>, Ending) {
    let part = readable_part(bag_messages(sound_part(file)));
    (part.0, ending(file, part.1))
}

/// The contents of a list of messages.
pub open spec fn message_views(messages: Seq<BagMessage>) -> Seq<MessageView> {
    messages.map_values(|message: BagMessage| message@)
}

/// How the reading of a bag's messages ended.
#[derive(Debug)]
pub enum ReadingEnd {
    /// There were no more.
    Complete,
    /// One could not be read.
    Failed(String),
    /// Behind them stands what a reader cannot be handed.
    Stuck,
}

impl View for ReadingEnd {
    type V = Ending;

    open spec fn view(&self) -> Ending {
        match *self {
            ReadingEnd::Complete => Ending::Complete,
            ReadingEnd::Failed(cause) => Ending::Failed(cause@),
            ReadingEnd::Stuck => Ending::Stuck,
        }
    }
}

/// The messages of a bag, as far as they can be read, and how that ended.
#[derive(Debug)]
pub struct BagReading {
    pub messages: Vec<BagMessage>,
    pub end: ReadingEnd,
}

impl View for BagReading {
    type V = (Seq<MessageView>, Ending);

    open spec fn view(&self) -> (Seq<MessageView>, Ending) {
        (message_views(self.messages@), self.end@)
    }
}

impl BagReading {
    /// Whether the bag was read to its end, or why not.
    pub fn ended(&self) -> (r: Result<(), Error>)
        requires
            !(self.end is Stuck),
        ensures
            match self.end@ {
                Ending::Failed(cause) => r is Err && r->Err_0@ == because(
                    "failed to read bag message"@,
                    cause,
                ),
                _ => r is Ok,
            },
    {
        match &self.end {
            ReadingEnd::Failed(cause) => Err(Error::ReadMessage { cause: cause.clone() }),
            _ => Ok(()),
        }
    }
}

fn read_part(contents: &[u8]) -> (r: Result<(Vec<BagMessage>, Option<String>), Error>)
    requires
        messages_readable(contents@),
    ensures
        r is Ok,
        (message_views(r->Ok_0.0@), opt_view(r->Ok_0.1)) == readable_part(bag_messages(contents@)),
{
    let mut stream = match open_messages(contents) {
        Ok(stream) => stream,
        Err(cause) => return Err(Error::OpenMessages { cause }),
    };
    let ghost part = readable_part(bag_messages(contents@));
    let mut messages: Vec<BagMessage> = Vec::new();
    assert(message_views(messages@) + part.0 =~= part.0);
    loop
        invariant
            messages_readable(message_source(stream)),
            part == readable_part(bag_messages(contents@)),
            part.0 == message_views(messages@) + readable_part(unread_messages(stream)).0,
            part.1 == readable_part(unread_messages(stream)).1,
        decreases unread_messages(stream).len(),
    {
        let ghost items = unread_messages(stream);
        let ghost seen = message_views(messages@);
        match next_message(&mut stream) {
            Some(Ok(message)) => {
                let ghost rest = readable_part(items.drop_first());
                let ghost view = message@;
                messages.push(message);
                assert(message_views(messages@) =~= seen.push(view));
                assert(seen + (seq![view] + rest.0) =~= seen.push(view) + rest.0);
            },
            Some(Err(cause)) => {
                assert(part.0 =~= seen);
                return Ok((messages, Some(cause)));
            },
            None => {
                assert(part.0 =~= seen);
                return Ok((messages, None));
            },
        }
    }
}

/// Read the messages of a bag, as far as they can be read.
pub fn read_messages(contents: &[u8]) -> (r: Result<BagReading, Error>)
    ensures
        r is Ok,
        r->Ok_0@ == bag_reading(contents@),
{
    proof {
        sound_part_is_readable(contents@);
    }
    let stuck: Option<usize> = find_stuck(contents);
    let part: &[u8] = match stuck {
        Some(at) => slice_subrange(contents, 0, at),
        None => contents,
    };
    assert(part@ =~= sound_part(contents@));
    let (messages, failure) = match read_part(part) {
        Ok(read) => read,
        Err(error) => return Err(error),
    };
    let end = match failure {
        None => ReadingEnd::Complete,
        Some(cause) => if stuck.is_some() && same(cause.as_str(), END_WITHIN_RECORD) {
            ReadingEnd::Stuck
        } else {
            ReadingEnd::Failed(cause)
        },
    };
    Ok(BagReading { messages, end })
}

/// The catalog type of a channel, or why it is not accepted. A channel has to have the
/// exact schema of its topic, the right encodings, and the topic's id in its metadata.
pub open spec fn channel_verdict(channel: ChannelView) -> Result<TopicType, Report> {
    match channel.schema {
        None => Err(
            plainly("MCAP channel "@ + channel.topic + " has no required Synapse schema"@),
        ),
        Some(schema) => match opt_type_of(known_as(schema.name)) {
            None => Err(plainly("unknown MCAP Synapse type "@ + schema.name)),
            Some(known) => if schema.name == known.topic.mcap_schema_name@ && schema.encoding
                == FLATBUFFER@ && schema.data == known.schema.bfbs@ && channel.message_encoding
                == FLATBUFFER@ && value_of(channel.metadata, TOPIC_ID_KEY@) == Some(
                decimal(known.topic.id as nat),
            ) {
                Ok(known)
            } else {
                Err(
                    plainly(
                        "MCAP channel "@ + channel.topic
                            + " has an incompatible Synapse schema contract"@,
                    ),
                )
            },
        },
    }
}

/// Validate a channel against the exact catalog and BFBS embedded in this
/// build, returning the matching topic for payload conversion.
pub fn channel_type(channel: &Channel) -> (r: Result<TopicType, Error>)
    ensures
        match r {
            Ok(known) => known.wf() && channel_verdict(channel@) == Ok::<TopicType, Report>(known),
            Err(error) => channel_verdict(channel@) == Err::<TopicType, Report>(error@),
        },
{
    let schema = match &channel.schema {
        Some(schema) => schema,
        None => return Err(Error::NoSchema { topic: channel.topic.clone() }),
    };
    let known = match TopicType::find(schema.name.as_str()) {
        Some(known) => known,
        None => return Err(Error::UnknownMcapType { name: schema.name.clone() }),
    };
    let names_topic = match find_value(&channel.metadata, TOPIC_ID_KEY) {
        Some(id) => same(id.as_str(), number(known.topic.id as u64).as_str()),
        None => false,
    };
    if !same(schema.name.as_str(), known.topic.mcap_schema_name) || !same(
        schema.encoding.as_str(),
        FLATBUFFER,
    ) || !same_bytes(schema.data.as_slice(), known.mcap_schema().bfbs) || !same(
        channel.message_encoding.as_str(),
        FLATBUFFER,
    ) || !names_topic {
        return Err(Error::IncompatibleChannel { topic: channel.topic.clone() });
    }
    Ok(known)
}

/// What a bag holds of a sample: when it was published, and its rooted payload.
#[derive(Debug)]
pub struct EncodedSample {
    pub publish_time_ns: u64,
    pub data: Vec<u8>,
}

/// What a bag holds of a sample, or why it cannot hold it.
pub open spec fn encoded(known: TopicType, log_time_ns: u64, payload: Seq<u8>) -> Result<
    (int, Seq<u8>),
    Report,
> {
    match known.decoding(payload) {
        Err(failure) => Err(plainly(known.topic.name@ + ": "@ + failure.text())),
        Ok(_) => match timestamp_us(known.topic, payload) {
            Some(us) => if us * 1000 <= u64::MAX {
                Ok((us as int * 1000, recorded(known.topic, payload)))
            } else {
                Err(plainly(known.topic.name@ + " timestamp_us overflows nanoseconds"@))
            },
            None => Ok((log_time_ns as int, recorded(known.topic, payload))),
        },
    }
}

/// Encode a sample for a bag.
pub fn encode_sample(known: TopicType, log_time_ns: u64, payload: &[u8]) -> (r: Result<
    EncodedSample,
    Error,
>)
    requires
        known.wf(),
    ensures
        match r {
            Ok(sample) => encoded(known, log_time_ns, payload@) == Ok::<(int, Seq<u8>), Report>(
                (sample.publish_time_ns as int, sample.data@),
            ),
            Err(error) => encoded(known, log_time_ns, payload@) == Err::<(int, Seq<u8>), Report>(
                error@,
            ),
        },
        known.topic.payload_size matches Some(size) ==> r is Ok ==> payload@.len() == size,
{
    let publish_time_ns: u64 = match known.mcap_publish_time_ns(payload, log_time_ns) {
        Ok(time) => time,
        Err(error) => return Err(error),
    };
    match known.to_mcap_payload(payload) {
        Ok(data) => Ok(EncodedSample { publish_time_ns, data }),
        Err(error) => Err(error),
    }
}

/// A channel of a bag that is being written.
#[derive(Debug)]
struct OpenChannel {
    handle: TopicChannel,
}

impl View for OpenChannel {
    type V = (u16, u32);

    closed spec fn view(&self) -> (u16, u32) {
        (channel_id(self.handle), next_sequence(self.handle))
    }
}

/// Writes Synapse samples through the canonical `synapse_fbs` MCAP writer.
/// Each Zenoh channel is registered against the catalog's rooted schema and
/// fixed-layout wire structs are wrapped before being logged. The bag is kept
/// in memory until it is finished.
pub struct BagWriter {
    log: BagLog,
    channels: OrderedMap<OpenChannel>,
    profile: Ghost<ProfileView>,
}

/// The sequence number after another.
pub open spec fn sequence_after(sequence: u32) -> u32 {
    if sequence == u32::MAX {
        0
    } else {
        (sequence + 1) as u32
    }
}

impl BagWriter {
    /// The profile of the bag.
    pub closed spec fn profile(self) -> ProfileView {
        self.profile@
    }

    /// The messages of the bag so far.
    pub closed spec fn messages(self) -> Seq<MessageView> {
        logged(self.log)
    }

    /// The channel of each key, and the sequence number of its next message.
    pub closed spec fn channels(self) -> Map<Seq<char>, (ChannelView, u32)> {
        self.channels@.map_values(
            |channel: (u16, u32)| (registered(self.log)[channel.0], channel.1),
        )
    }

    /// The number of keys that have a channel.
    pub closed spec fn channel_count(self) -> nat {
        self.channels.key_list().len()
    }

    /// The bag starts with a valid profile, and each key has the channel of its name.
    pub closed spec fn wf(self) -> bool {
        &&& self.channels.wf()
        &&& registered(self.log).dom().finite()
        &&& registered(self.log).dom().len() <= self.channels.key_list().len()
        &&& forall|key: Seq<char>| #[trigger]
            self.channels@.dom().contains(key) ==> registered(self.log).dom().contains(
                self.channels@[key].0,
            ) && registered(self.log)[self.channels@[key].0].topic == key
        &&& self.profile@.library.len() > 0
        &&& self.profile@.source.len() > 0
        &&& is_hex_128(self.profile@.session_id)
        &&& self.profile@.schema_set_hash == SCHEMA_SET_HASH@
        &&& self.profile@.time_basis == UNIX_EPOCH@
        &&& opening(self.log) == opening_records(
            self.profile@.library,
            self.profile@.session_id,
            self.profile@.source,
            Basis::UnixEpoch,
        )
    }

    /// Whether the bag is empty and has the profile of this build with a library and a
    /// source.
    pub open spec fn opens_with(self, library: Seq<char>, source: Seq<char>) -> bool {
        &&& self.profile().library == library
        &&& self.profile().source == source
        &&& self.profile().time_basis == UNIX_EPOCH@
        &&& self.profile().schema_set_hash == SCHEMA_SET_HASH@
        &&& self.messages().len() == 0
        &&& self.channels().dom().len() == 0
    }

    /// Start a bag in the session with an id.
    pub fn start(library: &str, session_id: &str, source: &str) -> (r: Result<BagWriter, Error>)
        requires
            encode_utf8(library@).len() <= TEXT_LIMIT,
            encode_utf8(source@).len() <= SOURCE_LIMIT,
        ensures
            r is Ok <==> refusal(library@, session_id@, source@) is None,
            r matches Ok(bag) ==> {
                &&& bag.wf()
                &&& bag.profile() == ProfileView {
                    library: library@,
                    schema_set_hash: SCHEMA_SET_HASH@,
                    session_id: session_id@,
                    source: source@,
                    time_basis: UNIX_EPOCH@,
                }
                &&& bag.messages() == Seq::<MessageView>::empty()
                &&& bag.channels() == Map::<Seq<char>, (ChannelView, u32)>::empty()
                &&& bag.channel_count() == 0
            },
            r matches Err(error) ==> error is StartBag && error@.text
                == "failed to start Synapse MCAP file"@ && error@.cause == refusal(
                library@,
                session_id@,
                source@,
            ),
            r matches Ok(bag) ==> bag.opens_with(library@, source@) && bag.profile().session_id
                == session_id@,
    {
        let log = match start_log(library, session_id, source, Basis::UnixEpoch) {
            Ok(log) => log,
            Err(cause) => return Err(Error::StartBag { cause }),
        };
        let ghost profile = ProfileView {
            library: library@,
            schema_set_hash: SCHEMA_SET_HASH@,
            session_id: session_id@,
            source: source@,
            time_basis: UNIX_EPOCH@,
        };
        let channels: OrderedMap<OpenChannel> = OrderedMap::new();
        proof {
            channels.lemma_len();
        }
        let bag = BagWriter { log, channels, profile: Ghost(profile) };
        assert(bag.channels() =~= Map::<Seq<char>, (ChannelView, u32)>::empty());
        Ok(bag)
    }

    /// Start a bag in a session of its own.
    pub fn create(library: &str, source: &str) -> (r: Result<BagWriter, Error>)
        requires
            encode_utf8(library@).len() <= TEXT_LIMIT,
            encode_utf8(source@).len() <= SOURCE_LIMIT,
        ensures
            r is Ok <==> library@.len() > 0 && source@.len() > 0,
            r matches Ok(bag) ==> {
                &&& bag.wf()
                &&& is_hex_128(bag.profile().session_id)
                &&& bag.profile() == ProfileView {
                    library: library@,
                    schema_set_hash: SCHEMA_SET_HASH@,
                    session_id: bag.profile().session_id,
                    source: source@,
                    time_basis: UNIX_EPOCH@,
                }
                &&& bag.messages() == Seq::<MessageView>::empty()
                &&& bag.channels() == Map::<Seq<char>, (ChannelView, u32)>::empty()
                &&& bag.channel_count() == 0
            },
            r matches Err(error) ==> error is StartBag && error@.text
                == "failed to start Synapse MCAP file"@ && exists|id: Seq<char>|
                is_hex_128(id) && error@.cause == #[trigger] refusal(library@, id, source@),
            r matches Ok(bag) ==> bag.opens_with(library@, source@),
    {
        let session_id = new_session_id();
        Self::start(library, session_id.as_str(), source)
    }
}

/// Whether `after` is `before` with a message on the channel of `key`, which is registered
/// for the topic if it was not there, and numbered on.
pub open spec fn holds_sample(
    before: BagWriter,
    after: BagWriter,
    key: Seq<char>,
    topic_id: u16,
    log_time_ns: u64,
    publish_time_ns: int,
    data: Seq<u8>,
) -> bool {
    let channel = after.channels()[key].0;
    let sequence = if before.channels().dom().contains(key) {
        before.channels()[key].1
    } else {
        0
    };
    &&& if before.channels().dom().contains(key) {
        channel == before.channels()[key].0
    } else {
        is_topic_channel(channel, topic_id, key)
    }
    &&& after.channels() == before.channels().insert(key, (channel, sequence_after(sequence)))
    &&& exists|publish_time: u64| publish_time == publish_time_ns && after.messages()
        == before.messages().push(
        #[trigger] message_on(channel, sequence, log_time_ns, publish_time, data),
    )
}

/// Whether `after` is `before` with a channel for `key`, which is registered for the topic
/// if it was not there. Its messages are as they were.
pub open spec fn registers(
    before: BagWriter,
    after: BagWriter,
    key: Seq<char>,
    topic_id: u16,
) -> bool {
    &&& after.messages() == before.messages()
    &&& if before.channels().dom().contains(key) {
        after.channels() == before.channels()
    } else {
        &&& after.channels() == before.channels().insert(key, after.channels()[key])
        &&& is_topic_channel(after.channels()[key].0, topic_id, key)
        &&& after.channels()[key].1 == 0
    }
}

/// Whether `after` is `before` with a sample that was recorded at a time.
pub open spec fn holds_recorded(
    before: BagWriter,
    after: BagWriter,
    key: Seq<char>,
    known: TopicType,
    log_time_ns: u64,
    payload: Seq<u8>,
) -> bool {
    &&& known.topic.payload_size matches Some(size) ==> payload.len() == size
    &&& encoded(known, log_time_ns, payload) is Ok
    &&& holds_sample(
        before,
        after,
        key,
        known.topic.id,
        log_time_ns,
        encoded(known, log_time_ns, payload)->Ok_0.0,
        encoded(known, log_time_ns, payload)->Ok_0.1,
    )
}

/// A message on a channel.
pub open spec fn message_on(
    channel: ChannelView,
    sequence: u32,
    log_time: u64,
    publish_time: u64,
    data: Seq<u8>,
) -> MessageView {
    MessageView { channel, sequence, log_time, publish_time, data }
}

/// Whether a channel is one for the messages of the catalog topic with an id.
pub open spec fn is_topic_channel(channel: ChannelView, topic_id: u16, key: Seq<char>) -> bool {
    exists|schema_id: u16| channel == #[trigger] topic_channel(channel.id, topic_id, key, schema_id)
}

impl BagWriter {
    /// The number of keys that have a channel.
    pub fn channel_total(&self) -> (r: usize)
        requires
            self.wf(),
        ensures
            r == self.channel_count(),
    {
        self.channels.len()
    }

    /// Whether a key has a channel.
    pub fn has_channel(&self, key: &str) -> (r: bool)
        requires
            self.wf(),
        ensures
            r == self.channels().dom().contains(key@),
    {
        self.channels.contains_key(key)
    }

    /// Add a sample to the bag. The first sample of a key registers its channel.
    pub fn write_sample(
        &mut self,
        key: &str,
        known_type: TopicType,
        log_time_ns: u64,
        payload: &[u8],
    ) -> (r: Result<(), Error>)
        requires
            old(self).wf(),
            known_type.wf(),
            encode_utf8(key@).len() <= TEXT_LIMIT,
            old(self).channels().dom().contains(key@) || old(self).channel_count() < CHANNEL_LIMIT,
        ensures
            final(self).wf(),
            final(self).profile() == old(self).profile(),
            final(self).channel_count() == if old(self).channels().dom().contains(key@) {
                old(self).channel_count()
            } else {
                old(self).channel_count() + 1
            },
            r is Ok <==> encoded(known_type, log_time_ns, payload@) is Ok,
            r is Ok ==> holds_recorded(
                *old(self),
                *final(self),
                key@,
                known_type,
                log_time_ns,
                payload@,
            ),
            r matches Err(error) ==> encoded(known_type, log_time_ns, payload@) == Err::<
                (int, Seq<u8>),
                Report,
            >(error@) && registers(*old(self), *final(self), key@, known_type.topic.id),
    {
        let ghost was = *self;
        if !self.channels.contains_key(key) {
            proof {
                self.channels.lemma_len();
            }
            match add_topic(&mut self.log, known_type.topic.id, key) {
                Ok(handle) => {
                    self.channels.insert(key.to_owned(), OpenChannel { handle });
                    proof {
                        self.lemma_registered(was, key@, known_type.topic.id, channel_id(handle));
                    }
                },
                Err(cause) => return Err(Error::AddChannel { key: key.to_owned(), cause }),
            }
        }
        let ghost opened = *self;
        let sample = match encode_sample(known_type, log_time_ns, payload) {
            Ok(sample) => sample,
            Err(error) => return Err(error),
        };
        let mut handle = self.channels.get(key).unwrap().handle;
        let written = write_message(
            &mut self.log,
            &mut handle,
            log_time_ns,
            sample.publish_time_ns,
            sample.data.as_slice(),
        );
        self.channels.insert(key.to_owned(), OpenChannel { handle });
        proof {
            opened.channels.lemma_len();
            self.channels.lemma_len();
            assert(self.channels@.dom() =~= opened.channels@.dom());
            let channel = registered(opened.log)[opened.channels@[key@].0];
            assert(self.channels() =~= opened.channels().insert(
                key@,
                (channel, self.channels@[key@].1),
            ));
            assert(self.channels() =~= was.channels().insert(
                key@,
                (channel, self.channels@[key@].1),
            ));
        }
        match written {
            Ok(_) => {
                proof {
                    let channel = registered(opened.log)[opened.channels@[key@].0];
                    assert(self.messages() == was.messages().push(
                        message_on(
                            channel,
                            opened.channels@[key@].1,
                            log_time_ns,
                            sample.publish_time_ns,
                            sample.data@,
                        ),
                    ));
                }
                Ok(())
            },
            Err(cause) => Err(Error::WriteSample { key: key.to_owned(), cause }),
        }
    }

    proof fn lemma_registered(self, was: BagWriter, key: Seq<char>, topic_id: u16, id: u16)
        requires
            was.wf(),
            self.channels.wf(),
            !was.channels@.dom().contains(key),
            self.channels@ == was.channels@.insert(key, (id, 0u32)),
            adds_channel(registered(was.log), registered(self.log), id, topic_id, key),
            opening(self.log) == opening(was.log),
            self.profile == was.profile,
        ensures
            self.wf(),
            self.channel_count() == was.channel_count() + 1,
            is_topic_channel(registered(self.log)[id], topic_id, key),
            self.channels() == was.channels().insert(key, (registered(self.log)[id], 0u32)),
    {
        was.channels.lemma_len();
        self.channels.lemma_len();
        let before = registered(was.log);
        let after = registered(self.log);
        let schema_id = choose|schema_id: u16|
            after == before.insert(id, #[trigger] topic_channel(id, topic_id, key, schema_id));
        assert(after[id] == topic_channel(id, topic_id, key, schema_id));
        assert(after.dom() =~= before.dom().insert(id));
        assert forall|k: Seq<char>| was.channels@.dom().contains(k) implies #[trigger] after[was.channels@[k].0]
            == before[was.channels@[k].0] by {
            if was.channels@[k].0 == id {
                assert(before.dom().contains(id));
            }
        }
        assert(self.channels() =~= was.channels().insert(key, (after[id], 0u32)));
    }

    /// Finish the bag: the bytes of its file. What is read from it is what was written:
    /// its profile, and all its messages in their order.
    pub fn finish(self) -> (r: Result<Vec<u8>, Error>)
        requires
            self.wf(),
        ensures
            r is Ok,
            records_readable(r->Ok_0@),
            messages_readable(r->Ok_0@),
            !profile_stuck(r->Ok_0@),
            profile_of(bag_records(r->Ok_0@)) == Ok::<ProfileView, Report>(self.profile()),
            bag_reading(r->Ok_0@) == (self.messages(), Ending::Complete),
    {
        match finish_log(self.log) {
            Ok(file) => {
                proof {
                    opening_gives_profile(bag_records(file@), self.profile@);
                    lemma_search_not_stuck(file@, 8, None, bag_records(file@));
                    lemma_all_readable(bag_messages(file@), self.messages());
                }
                Ok(file)
            },
            Err(cause) => Err(Error::FinishBag { cause }),
        }
    }
}

proof fn lemma_all_readable(items: Seq<Result<MessageView, Seq<char>>>, messages: Seq<MessageView>)
    requires
        items == messages.map_values(
            |message: MessageView| Ok::<MessageView, Seq<char>>(message),
        ),
    ensures
        readable_part(items) == (messages, None::<Seq<char>>),
    decreases items.len(),
{
    if items.len() > 0 {
        assert(items.drop_first() =~= messages.drop_first().map_values(
            |message: MessageView| Ok::<MessageView, Seq<char>>(message),
        ));
        lemma_all_readable(items.drop_first(), messages.drop_first());
        assert(seq![messages[0]] + messages.drop_first() =~= messages);
    } else {
        assert(messages =~= Seq::<MessageView>::empty());
    }
}

/// A file that opens with the header and metadata of a valid profile has that profile.
pub proof fn opening_gives_profile(items: Seq<Result<RecordView, Seq<char>>>, profile: ProfileView)
    requires
        profile.library.len() > 0,
        profile.source.len() > 0,
        is_hex_128(profile.session_id),
        profile.schema_set_hash == SCHEMA_SET_HASH@,
        profile.time_basis == UNIX_EPOCH@,
        items.len() >= 2,
        items.take(2) == opening_records(
            profile.library,
            profile.session_id,
            profile.source,
            Basis::UnixEpoch,
        ).map_values(|record: RecordView| Ok::<RecordView, Seq<char>>(record)),
    ensures
        profile_of(items) == Ok::<ProfileView, Report>(profile),
{
    let opening = opening_records(
        profile.library,
        profile.session_id,
        profile.source,
        Basis::UnixEpoch,
    );
    assert(items[0] == items.take(2)[0]);
    assert(items[1] == items.take(2)[1]);
    assert(items.drop_first()[0] == items[1]);
    let entries = seq![
        (SCHEMA_SET_HASH_KEY@, SCHEMA_SET_HASH@),
        (SESSION_ID_KEY@, profile.session_id),
        (SOURCE_KEY@, profile.source),
        (TIME_BASIS_KEY@, UNIX_EPOCH@),
    ];
    assert(opening[1] == RecordView::Metadata { name: METADATA_NAME@, entries });
    reveal_strlit("synapse.schema_set_hash");
    reveal_strlit("synapse.session_id");
    reveal_strlit("synapse.source");
    reveal_strlit("synapse.time_basis");
    reveal_strlit("2fd857effb6c7558d6869f4307a5354c");
    reveal_strlit("unix_epoch");
    assert(SCHEMA_SET_HASH_KEY@.len() == 23);
    assert(SESSION_ID_KEY@.len() == 18);
    assert(SOURCE_KEY@.len() == 14);
    assert(TIME_BASIS_KEY@.len() == 18);
    assert(SESSION_ID_KEY@[8] != TIME_BASIS_KEY@[8]);
    reveal_with_fuel(value_of, 5);
    assert(entries.drop_first()[0] == entries[1]);
    assert(entries.drop_first().drop_first()[0] == entries[2]);
    assert(entries.drop_first().drop_first().drop_first()[0] == entries[3]);
    assert(value_of(entries, SCHEMA_SET_HASH_KEY@) == Some(SCHEMA_SET_HASH@));
    assert(value_of(entries, SESSION_ID_KEY@) == Some(profile.session_id));
    assert(value_of(entries, SOURCE_KEY@) == Some(profile.source));
    assert(value_of(entries, TIME_BASIS_KEY@) == Some(UNIX_EPOCH@));
    assert(is_hex_128(SCHEMA_SET_HASH@));
}

/// Whether the record at a place is the profile metadata, and no record before it is a
/// message or a chunk, or could not be read.
pub open spec fn leads(items: Seq<Result<RecordView, Seq<char>>>, at: int) -> bool {
    &&& 0 <= at < items.len()
    &&& items[at] matches Ok(RecordView::Metadata { name, entries }) && name == METADATA_NAME@
    &&& forall|k: int|
        0 <= k < at ==> (#[trigger] items[k]) is Ok && items[k] != Ok::<RecordView, Seq<char>>(
            RecordView::Message,
        ) && items[k] != Ok::<RecordView, Seq<char>>(RecordView::Chunk)
}

/// Whether a profile has all that the `synapse/1` profile requires.
pub open spec fn valid_profile(profile: ProfileView) -> bool {
    &&& is_hex_128(profile.schema_set_hash)
    &&& is_hex_128(profile.session_id)
    &&& profile.source.len() > 0
    &&& profile.time_basis == MONOTONIC_BOOT@ || profile.time_basis == UNIX_EPOCH@
        || profile.time_basis == CORRELATED@
}

proof fn lemma_profile_behind(library: Seq<char>, items: Seq<Result<RecordView, Seq<char>>>)
    requires
        profile_behind(library, items) is Ok,
    ensures
        exists|at: int| leads(items, at),
        profile_behind(library, items)->Ok_0.library == library,
        valid_profile(profile_behind(library, items)->Ok_0),
    decreases items.len(),
{
    let found = items[0] matches Ok(RecordView::Metadata { name, entries }) && name
        == METADATA_NAME@;
    if found {
        assert(leads(items, 0));
    } else {
        let rest = items.drop_first();
        lemma_profile_behind(library, rest);
        let at = choose|at: int| leads(rest, at);
        assert forall|k: int| 0 <= k < at + 1 implies (#[trigger] items[k]) is Ok && items[k] != Ok::<
            RecordView,
            Seq<char>,
        >(RecordView::Message) && items[k] != Ok::<RecordView, Seq<char>>(RecordView::Chunk) by {
            if k > 0 {
                assert(items[k] == rest[k - 1]);
            }
        }
        assert(items[at + 1] == rest[at]);
        assert(leads(items, at + 1));
    }
}

/// What is accepted as a Synapse bag has all that the profile requires, and its metadata
/// stands before every message.
pub proof fn accepted_profile_is_valid(items: Seq<Result<RecordView, Seq<char>>>)
    requires
        profile_of(items) is Ok,
    ensures
        valid_profile(profile_of(items)->Ok_0),
        profile_of(items)->Ok_0.library.len() > 0,
        exists|at: int| leads(items, at),
{
    let rest = items.drop_first();
    let library = items[0]->Ok_0->library;
    lemma_profile_behind(library, rest);
    let at = choose|at: int| leads(rest, at);
    assert forall|k: int| 0 <= k < at + 1 implies (#[trigger] items[k]) is Ok && items[k] != Ok::<
        RecordView,
        Seq<char>,
    >(RecordView::Message) && items[k] != Ok::<RecordView, Seq<char>>(RecordView::Chunk) by {
        if k > 0 {
            assert(items[k] == rest[k - 1]);
        }
    }
    assert(items[at + 1] == rest[at]);
    assert(leads(items, at + 1));
}

proof fn lemma_recorded_sample(
    message: MessageView,
    known: TopicType,
    key: Seq<char>,
    log_time_ns: u64,
    payload: Seq<u8>,
)
    requires
        known.wf(),
        is_topic_channel(message.channel, known.topic.id, key),
        encoded(known, log_time_ns, payload) is Ok,
        message.data == encoded(known, log_time_ns, payload)->Ok_0.1,
        known.topic.payload_size matches Some(size) ==> payload.len() == size,
    ensures
        catalog_sound() ==> channel_verdict(message.channel) == Ok::<TopicType, Report>(known),
        known.restored(message.data) == Some(payload),
        message.channel.topic == key,
{
    recorded_payload_is_restored(known, payload);
    if catalog_sound() {
        let index = known.topic.id - 1;
        let schema_id = choose|schema_id: u16|
            message.channel == #[trigger] topic_channel(
                message.channel.id,
                known.topic.id,
                key,
                schema_id,
            );
        assert(typed(catalog()[index], known.topic.mcap_schema_name@));
        every_name_finds_its_topic(index, known.topic.mcap_schema_name@);
        assert(message.channel.metadata[0] == (TOPIC_ID_KEY@, decimal(known.topic.id as nat)));
    }
}

/// The time that passed, if it fits in 64 bits, else the most that does.
pub fn clamped_ns(nanos: u128) -> (r: u64)
    ensures
        r == if nanos <= u64::MAX {
            nanos as int
        } else {
            u64::MAX as int
        },
{
    if nanos <= u64::MAX as u128 {
        nanos as u64
    } else {
        u64::MAX
    }
}

/// Whether `r` is what a reading of the clock gives: `elapsed` nanoseconds since 1970, at
/// most as many as fit in 64 bits; or none if the clock stands before 1970.
pub open spec fn reads_clock(r: Result<u64, Error>, elapsed: Option<u128>) -> bool {
    match elapsed {
        Some(nanos) => r is Ok && r->Ok_0 == if nanos <= u64::MAX {
            nanos as int
        } else {
            u64::MAX as int
        },
        None => r == Err::<u64, Error>(Error::ClockBeforeEpoch),
    }
}

/// The time since 1970 in nanoseconds, by a reading of the clock.
pub fn unix_ns(elapsed: Option<u128>) -> (r: Result<u64, Error>)
    ensures
        reads_clock(r, elapsed),
{
    match elapsed {
        Some(nanos) => Ok(clamped_ns(nanos)),
        None => Err(Error::ClockBeforeEpoch),
    }
}

/// The time since 1970 in nanoseconds: what [`unix_ns`] makes of the clock's reading. Which
/// reading that is, the clock decides.
pub fn unix_now_ns() -> (r: Result<u64, Error>)
    ensures
        exists|elapsed: Option<Duration>| reads_clock(r, #[trigger] elapsed_ns(elapsed)),
{
    let elapsed = since_epoch();
    let nanos: Option<u128> = match &elapsed {
        Some(elapsed) => Some(elapsed.as_nanos()),
        None => None,
    };
    assert(nanos == elapsed_ns(elapsed));
    unix_ns(nanos)
}

/// `SystemTime::elapsed` of the Unix epoch: how long ago it was, or none if the system
/// clock stands before it.
#[verifier::external_body]
fn since_epoch() -> (r: Option<Duration>) {
    std::time::UNIX_EPOCH.elapsed().ok()
}

/// The nanoseconds that a duration lasts.
pub uninterp spec fn nanoseconds(duration: Duration) -> u128;

/// The nanoseconds of a duration, if there is one.
pub open spec fn elapsed_ns(elapsed: Option<Duration>) -> Option<u128> {
    match elapsed {
        Some(duration) => Some(nanoseconds(duration)),
        None => None,
    }
}

/// `Duration::as_nanos`: the whole duration in nanoseconds.
pub assume_specification[ Duration::as_nanos ](duration: &Duration) -> (r: u128)
    ensures
        r == nanoseconds(*duration),
;

/// What is written to a bag is read from it as it was: the message of a sample is on the
/// sample's key, its channel is accepted as one of the sample's topic, and the sample's
/// payload is recovered from it. A key stays a channel of the topic that it was first
/// written with, so this goes on for as long as the key keeps its topic.
pub proof fn written_sample_is_read_back(
    before: BagWriter,
    after: BagWriter,
    key: Seq<char>,
    known: TopicType,
    log_time_ns: u64,
    payload: Seq<u8>,
)
    requires
        known.wf(),
        holds_recorded(before, after, key, known, log_time_ns, payload),
        before.channels().dom().contains(key) ==> is_topic_channel(
            before.channels()[key].0,
            known.topic.id,
            key,
        ),
    ensures
        after.messages().len() == before.messages().len() + 1,
        after.messages().drop_last() == before.messages(),
        after.messages().last().channel.topic == key,
        after.messages().last().log_time == log_time_ns,
        catalog_sound() ==> channel_verdict(after.messages().last().channel) == Ok::<
            TopicType,
            Report,
        >(known),
        known.restored(after.messages().last().data) == Some(payload),
        is_topic_channel(after.channels()[key].0, known.topic.id, key),
{
    lemma_recorded_sample(after.messages().last(), known, key, log_time_ns, payload);
    assert(after.messages().drop_last() =~= before.messages());
}

/// `uuid::Uuid::new_v4` in the simple format: 32 lowercase hexadecimal digits, which differ
/// from call to call.
#[verifier::external_body]
fn new_session_id() -> (r: String)
    ensures
        is_hex_128(r@),
{
    uuid::Uuid::new_v4().simple().to_string()
}

/// The value of a key is that of the first entry with it; there is none without one.
pub proof fn value_is_that_of_the_first_entry(
    entries: Seq<(Seq<char>, Seq<char>)>,
    key: Seq<char>,
    index: int,
)
    requires
        0 <= index <= entries.len(),
        forall|j: int| 0 <= j < index ==> (#[trigger] entries[j]).0 != key,
        index < entries.len() ==> entries[index].0 == key,
    ensures
        value_of(entries, key) == if index < entries.len() {
            Some(entries[index].1)
        } else {
            None
        },
    decreases entries.len(),
{
    if index > 0 {
        let rest = entries.drop_first();
        assert(entries[0].0 != key);
        assert forall|j: int| 0 <= j < index - 1 implies (#[trigger] rest[j]).0 != key by {
            assert(rest[j] == entries[j + 1]);
        }
        value_is_that_of_the_first_entry(rest, key, index - 1);
    }
}

/// Whether a record decides on a profile: a message, a chunk, the profile's metadata, or
/// one that cannot be read.
pub open spec fn decides(item: Result<RecordView, Seq<char>>) -> bool {
    match item {
        Err(_) | Ok(RecordView::Message) | Ok(RecordView::Chunk) => true,
        Ok(RecordView::Metadata { name, entries }) => name == "synapse"@,
        Ok(_) => false,
    }
}

/// Whether a record is the first behind the header that decides on a profile.
pub open spec fn decisive(items: Seq<Result<RecordView, Seq<char>>>, at: int) -> bool {
    &&& 1 <= at < items.len()
    &&& decides(items[at])
    &&& forall|k: int| 1 <= k < at ==> !decides(#[trigger] items[k])
}

/// Whether the metadata of a file has all that a profile requires: the four values are
/// there and not empty, two of them have 128 bits, and the time basis is one of three.
pub open spec fn requirements_met(entries: Seq<(Seq<char>, Seq<char>)>) -> bool {
    &&& value_of(entries, "synapse.schema_set_hash"@) matches Some(hash) && is_hex_128(hash)
    &&& value_of(entries, "synapse.session_id"@) matches Some(id) && is_hex_128(id)
    &&& value_of(entries, "synapse.source"@) matches Some(source) && source.len() > 0
    &&& value_of(entries, "synapse.time_basis"@) matches Some(basis) && (basis
        == "monotonic_boot"@ || basis == "unix_epoch"@ || basis == "correlated"@)
}

proof fn lemma_bases_are_words()
    ensures
        "monotonic_boot"@.len() > 0,
        "unix_epoch"@.len() > 0,
        "correlated"@.len() > 0,
{
    reveal_strlit("monotonic_boot");
    reveal_strlit("unix_epoch");
    reveal_strlit("correlated");
}

/// The profile that is read from metadata has the values that are stored there under the
/// four keys, whatever they are, and it is accepted exactly if they meet the requirements.
pub proof fn profile_has_the_stored_values(
    library: Seq<char>,
    entries: Seq<(Seq<char>, Seq<char>)>,
)
    ensures
        described_profile(library, entries) is Ok <==> requirements_met(entries),
        described_profile(library, entries) matches Ok(profile) ==> {
            &&& profile.library == library
            &&& Some(profile.schema_set_hash) == value_of(entries, "synapse.schema_set_hash"@)
            &&& Some(profile.session_id) == value_of(entries, "synapse.session_id"@)
            &&& Some(profile.source) == value_of(entries, "synapse.source"@)
            &&& Some(profile.time_basis) == value_of(entries, "synapse.time_basis"@)
        },
        described_profile(library, entries) matches Err(report) ==> report.cause is None,
{
    lemma_bases_are_words();
}

/// What is missing in metadata is reported, the first of the four keys first.
pub proof fn first_missing_key_is_reported(
    library: Seq<char>,
    entries: Seq<(Seq<char>, Seq<char>)>,
    index: int,
)
    requires
        0 <= index < 4,
    ensures
        ({
            let keys = seq![
                "synapse.schema_set_hash"@,
                "synapse.session_id"@,
                "synapse.source"@,
                "synapse.time_basis"@,
            ];
            let there = |key: Seq<char>|
                value_of(entries, key) matches Some(value) && value.len() > 0;
            !there(keys[index]) && (forall|j: int|
                0 <= j < index ==> there(#[trigger] keys[j])) ==> described_profile(
                library,
                entries,
            ) == Err::<ProfileView, Report>(
                Report {
                    text: "Synapse MCAP metadata is missing "@ + keys[index],
                    cause: None,
                },
            )
        }),
{
    let keys = seq![
        "synapse.schema_set_hash"@,
        "synapse.session_id"@,
        "synapse.source"@,
        "synapse.time_basis"@,
    ];
    let there = |key: Seq<char>| value_of(entries, key) matches Some(value) && value.len() > 0;
    if forall|j: int| 0 <= j < index ==> there(#[trigger] keys[j]) {
        if index > 0 {
            assert(there(keys[0]));
        }
        if index > 1 {
            assert(there(keys[1]));
        }
        if index > 2 {
            assert(there(keys[2]));
        }
    }
}

proof fn lemma_decided(library: Seq<char>, items: Seq<Result<RecordView, Seq<char>>>, at: int)
    requires
        0 <= at <= items.len(),
        forall|k: int| 0 <= k < at ==> !decides(#[trigger] items[k]),
    ensures
        profile_behind(library, items) == profile_behind(library, items.skip(at)),
    decreases at,
{
    if at > 0 {
        let rest = items.drop_first();
        assert(!decides(items[0]));
        assert forall|k: int| 0 <= k < at - 1 implies !decides(#[trigger] rest[k]) by {
            assert(rest[k] == items[k + 1]);
        }
        lemma_decided(library, rest, at - 1);
        assert(rest.skip(at - 1) =~= items.skip(at));
    } else {
        assert(items.skip(0) =~= items);
    }
}

/// What a file is taken for, if it begins with the header of a Synapse bag: the first
/// record that decides does so. Its metadata gives the profile, with the header's library;
/// a message or chunk in its place is refused, as is one that cannot be read; and so is a
/// file in which nothing decides.
pub proof fn first_decisive_record_gives_the_profile(
    items: Seq<Result<RecordView, Seq<char>>>,
    library: Seq<char>,
    at: int,
)
    requires
        items.len() > 0,
        items[0] == Ok::<RecordView, Seq<char>>(
            RecordView::Header { profile: "synapse/1"@, library },
        ),
        library.len() > 0,
        decisive(items, at) || at == items.len() && forall|k: int|
            1 <= k < at ==> !decides(#[trigger] items[k]),
    ensures
        at == items.len() ==> profile_of(items) == Err::<ProfileView, Report>(
            Report { text: "Synapse MCAP metadata record is missing"@, cause: None },
        ),
        at < items.len() ==> match items[at] {
            Err(cause) => profile_of(items) == Err::<ProfileView, Report>(
                Report { text: "failed to read MCAP profile metadata"@, cause: Some(cause) },
            ),
            Ok(RecordView::Metadata { name, entries }) => profile_of(items) == described_profile(
                library,
                entries,
            ),
            _ => profile_of(items) == Err::<ProfileView, Report>(
                Report {
                    text: "Synapse MCAP metadata must precede the first message"@,
                    cause: None,
                },
            ),
        },
{
    let rest = items.drop_first();
    assert forall|k: int| 0 <= k < at - 1 implies !decides(#[trigger] rest[k]) by {
        assert(rest[k] == items[k + 1]);
    }
    lemma_decided(library, rest, at - 1);
    if at < items.len() {
        assert(rest.skip(at - 1)[0] == items[at]);
    }
}

/// A file whose first record is no header of a Synapse bag with a library is refused, and
/// told what it begins with.
pub proof fn only_a_synapse_header_is_accepted(items: Seq<Result<RecordView, Seq<char>>>)
    ensures
        profile_of(items) is Ok ==> items.len() > 0 && (items[0] matches Ok(
            RecordView::Header { profile, library },
        ) && profile == "synapse/1"@ && library.len() > 0 && profile_of(items)->Ok_0.library
            == library),
        items.len() == 0 ==> profile_of(items) == Err::<ProfileView, Report>(
            Report { text: "MCAP file does not begin with a header"@, cause: None },
        ),
        items.len() > 0 ==> match items[0] {
            Err(cause) => profile_of(items) == Err::<ProfileView, Report>(
                Report { text: "failed to read MCAP header"@, cause: Some(cause) },
            ),
            Ok(RecordView::Header { profile, library }) => {
                &&& profile != "synapse/1"@ ==> profile_of(items) == Err::<ProfileView, Report>(
                    Report {
                        text: "unsupported MCAP profile '"@ + profile + "'; expected synapse/1"@,
                        cause: None,
                    },
                )
                &&& profile == "synapse/1"@ && library.len() == 0 ==> profile_of(items) == Err::<
                    ProfileView,
                    Report,
                >(
                    Report { text: "Synapse MCAP library identifier is empty"@, cause: None },
                )
            },
            Ok(_) => profile_of(items) == Err::<ProfileView, Report>(
                Report { text: "MCAP file does not begin with a header"@, cause: None },
            ),
        },
{
    if profile_of(items) is Ok {
        let rest = items.drop_first();
        lemma_profile_behind(items[0]->Ok_0->library, rest);
    }
}

/// An accepted profile has the values of the file's own metadata: those stored in the
/// metadata record that decides, under the four keys, and the library of the header.
pub proof fn accepted_profile_has_the_files_values(items: Seq<Result<RecordView, Seq<char>>>)
    requires
        profile_of(items) is Ok,
    ensures
        exists|at: int| #[trigger]
            decisive(items, at) && {
                let profile = profile_of(items)->Ok_0;
                &&& items[at] matches Ok(RecordView::Metadata { name, entries }) && {
                    &&& name == "synapse"@
                    &&& requirements_met(entries)
                    &&& Some(profile.schema_set_hash) == value_of(
                        entries,
                        "synapse.schema_set_hash"@,
                    )
                    &&& Some(profile.session_id) == value_of(entries, "synapse.session_id"@)
                    &&& Some(profile.source) == value_of(entries, "synapse.source"@)
                    &&& Some(profile.time_basis) == value_of(entries, "synapse.time_basis"@)
                }
                &&& items[0] matches Ok(RecordView::Header { profile: p, library }) && library
                    == profile.library
            },
{
    only_a_synapse_header_is_accepted(items);
    let library = items[0]->Ok_0->library;
    let at = lemma_first_decisive(items, 1);
    first_decisive_record_gives_the_profile(items, library, at);
    assert(at < items.len());
    assert(decisive(items, at));
    if let Ok(RecordView::Metadata { name, entries }) = items[at] {
        profile_has_the_stored_values(library, entries);
    }
}

proof fn lemma_first_decisive(items: Seq<Result<RecordView, Seq<char>>>, from: int) -> (at: int)
    requires
        1 <= from <= items.len(),
        forall|k: int| 1 <= k < from ==> !decides(#[trigger] items[k]),
    ensures
        decisive(items, at) || at == items.len() && forall|k: int|
            1 <= k < at ==> !decides(#[trigger] items[k]),
    decreases items.len() - from,
{
    if from == items.len() || decides(items[from]) {
        from
    } else {
        lemma_first_decisive(items, from + 1)
    }
}

/// Whether a channel carries the contract of a topic to the letter: its schema's name,
/// encoding and compiled form, its message encoding, and the topic's id.
pub open spec fn carries_contract(channel: ChannelView, known: TopicType) -> bool {
    &&& channel.schema matches Some(schema) && schema.name == known.topic.mcap_schema_name@
        && schema.encoding == "flatbuffer"@ && schema.data == known.schema.bfbs@
    &&& channel.message_encoding == "flatbuffer"@
    &&& value_of(channel.metadata, "synapse.topic_id"@) == Some(decimal(known.topic.id as nat))
}

/// A channel is accepted exactly if it carries the contract of the topic that its schema's
/// name finds, and it is of that topic then. Any other is refused by its topic's name.
pub proof fn only_exact_channels_are_accepted(channel: ChannelView)
    ensures
        channel_verdict(channel) matches Ok(known) ==> carries_contract(channel, known) && known_as(
            channel.schema->Some_0.name,
        ) == Some(known.topic) && known == type_of(known.topic),
        channel.schema matches Some(schema) ==> (known_as(schema.name) matches Some(topic)
            ==> if carries_contract(channel, type_of(topic)) {
            channel_verdict(channel) == Ok::<TopicType, Report>(type_of(topic))
        } else {
            channel_verdict(channel) == Err::<TopicType, Report>(
                Report {
                    text: "MCAP channel "@ + channel.topic
                        + " has an incompatible Synapse schema contract"@,
                    cause: None,
                },
            )
        }),
        channel.schema matches Some(schema) ==> (known_as(schema.name) is None ==> channel_verdict(
            channel,
        ) == Err::<TopicType, Report>(
            Report { text: "unknown MCAP Synapse type "@ + schema.name, cause: None },
        )),
        channel.schema is None ==> channel_verdict(channel) == Err::<TopicType, Report>(
            Report {
                text: "MCAP channel "@ + channel.topic + " has no required Synapse schema"@,
                cause: None,
            },
        ),
{
}

/// A channel that carries the contract of a catalog topic is accepted as one of it.
pub proof fn exact_channel_is_of_its_topic(channel: ChannelView, index: int)
    requires
        0 <= index < TOPIC_COUNT,
        carries_contract(channel, type_of(catalog()[index])),
    ensures
        catalog_sound() ==> channel_verdict(channel) == Ok::<TopicType, Report>(
            type_of(catalog()[index]),
        ),
{
    if catalog_sound() {
        let name = catalog()[index].mcap_schema_name@;
        assert(typed(catalog()[index], name));
        every_name_finds_its_topic(index, name);
    }
}

/// A sample is recorded under the time that it holds itself, in nanoseconds, if it holds
/// one: a fixed-layout struct at its start, a root table in its first field. A root table
/// without that field is recorded under the time at which it was logged. A time that does
/// not fit is refused, and so is a payload that does not decode.
pub proof fn sample_is_recorded_under_its_own_time(
    known: TopicType,
    log_time_ns: u64,
    payload: Seq<u8>,
    table: nat,
    vtable: int,
    size: nat,
    offset: nat,
    value: nat,
)
    requires
        value <= u64::MAX,
        if known.topic.fixed_layout {
            payload.len() >= 8 && payload.subrange(0, 8) == le_bytes(value, 8)
        } else {
            lays_out(payload, table, vtable, size, 4, offset, value)
        },
    ensures
        ({
            let held = known.topic.fixed_layout || size >= 6 && offset > 0;
            let r = encoded(known, log_time_ns, payload);
            match known.decoding(payload) {
                Err(failure) => r == Err::<(int, Seq<u8>), Report>(
                    Report { text: known.topic.name@ + ": "@ + failure.text(), cause: None },
                ),
                Ok(_) => if !held {
                    r is Ok && r->Ok_0.0 == log_time_ns
                } else if value * 1000 <= u64::MAX {
                    r is Ok && r->Ok_0.0 == value * 1000
                } else {
                    r == Err::<(int, Seq<u8>), Report>(
                        Report {
                            text: known.topic.name@ + " timestamp_us overflows nanoseconds"@,
                            cause: None,
                        },
                    )
                },
            }
        }),
        encoded(known, log_time_ns, payload) is Ok && !known.topic.fixed_layout ==> encoded(
            known,
            log_time_ns,
            payload,
        )->Ok_0.1 == payload,
{
    timestamp_is_the_number_in_the_sample(
        known.topic,
        payload,
        table,
        vtable,
        size,
        offset,
        value,
    );
}

/// The messages of a key are numbered on from zero, and again from zero after the last
/// number; each holds the time at which it was logged and the sample's own. No other key
/// is touched, and no message before.
pub proof fn messages_of_a_key_are_numbered_on(
    before: BagWriter,
    after: BagWriter,
    key: Seq<char>,
    known: TopicType,
    log_time_ns: u64,
    payload: Seq<u8>,
    other: Seq<char>,
)
    requires
        holds_recorded(before, after, key, known, log_time_ns, payload),
    ensures
        after.messages().len() == before.messages().len() + 1,
        after.messages().drop_last() == before.messages(),
        after.messages().last().sequence == if before.channels().dom().contains(key) {
            before.channels()[key].1
        } else {
            0
        },
        after.channels().dom().contains(key),
        after.channels()[key].1 == (after.messages().last().sequence + 1) % 0x1_0000_0000,
        after.messages().last().channel == after.channels()[key].0,
        before.channels().dom().contains(key) ==> after.channels()[key].0
            == before.channels()[key].0,
        after.messages().last().log_time == log_time_ns,
        after.messages().last().publish_time == encoded(known, log_time_ns, payload)->Ok_0.0,
        after.messages().last().data == encoded(known, log_time_ns, payload)->Ok_0.1,
        other != key ==> (after.channels().dom().contains(other)
            <==> before.channels().dom().contains(other)),
        other != key && before.channels().dom().contains(other) ==> after.channels()[other]
            == before.channels()[other],
{
    assert(after.messages().drop_last() =~= before.messages());
}

/// What is read of a file are its messages up to the first that cannot be read, in their
/// order, and why that one cannot.
pub proof fn reading_stops_at_the_first_failure(
    items: Seq<Result<MessageView, Seq<char>>>,
    at: int,
)
    requires
        0 <= at <= items.len(),
        forall|k: int| 0 <= k < at ==> (#[trigger] items[k]) is Ok,
        at < items.len() ==> items[at] is Err,
    ensures
        readable_part(items).0.len() == at,
        forall|k: int|
            0 <= k < at ==> Ok::<MessageView, Seq<char>>(#[trigger] readable_part(items).0[k])
                == items[k],
        readable_part(items).1 == if at < items.len() {
            Some(items[at]->Err_0)
        } else {
            None
        },
    decreases items.len(),
{
    if at > 0 {
        let rest = items.drop_first();
        assert(items[0] is Ok);
        assert forall|k: int| 0 <= k < at - 1 implies (#[trigger] rest[k]) is Ok by {
            assert(rest[k] == items[k + 1]);
        }
        reading_stops_at_the_first_failure(rest, at - 1);
        assert forall|k: int| 0 <= k < at implies Ok::<MessageView, Seq<char>>(
            #[trigger] readable_part(items).0[k],
        ) == items[k] by {
            if k > 0 {
                assert(readable_part(items).0[k] == readable_part(rest).0[k - 1]);
                assert(rest[k - 1] == items[k]);
            }
        }
    }
}

/// A file that can be read to its end gives all its messages up to the first that cannot be
/// read, and ends as that one fails, or completely if none does. It is never stuck.
pub proof fn readable_file_is_read_to_its_end(file: Seq<u8>)
    requires
        messages_readable(file),
    ensures
        bag_reading(file).0 == readable_part(bag_messages(file)).0,
        bag_reading(file).1 == match readable_part(bag_messages(file)).1 {
            None => Ending::Complete,
            Some(cause) => Ending::Failed(cause),
        },
{
}

/// A reading of the clock is taken to the nanosecond as long as it fits in 64 bits, and else
/// for the most that does.
pub proof fn clock_is_read_to_the_nanosecond(r: Result<u64, Error>, elapsed: Option<u128>)
    requires
        reads_clock(r, elapsed),
    ensures
        r is Ok <==> elapsed is Some,
        elapsed matches Some(nanos) ==> r->Ok_0 <= nanos && (r->Ok_0 < nanos ==> r->Ok_0
            == 0xffff_ffff_ffff_ffff),
        elapsed is None ==> r->Err_0 is ClockBeforeEpoch,
{
}

/// A bag is started exactly with a library, a source, and a session id of 128 bits, and
/// what is lacking first of the three is told.
pub proof fn bag_needs_library_source_and_session(
    library: Seq<char>,
    session_id: Seq<char>,
    source: Seq<char>,
)
    ensures
        refusal(library, session_id, source) is None <==> library.len() > 0 && source.len() > 0
            && is_hex_128(session_id),
        library.len() == 0 ==> refusal(library, session_id, source) == Some(
            "MCAP library identifier is empty"@,
        ),
        library.len() > 0 && source.len() == 0 ==> refusal(library, session_id, source) == Some(
            "Synapse MCAP source is empty"@,
        ),
{
}

/// The search for a profile ends before an attachment that is cut short exactly if that
/// comes before what decides: a file without one is searched to its end, one that starts
/// with it is not searched at all.
pub proof fn search_ends_at_a_cut_attachment(file: Seq<u8>)
    ensures
        records_readable(file) ==> !profile_stuck(file),
        has_magic(file) && cut_at(file, 8) ==> profile_stuck(file),
        !has_magic(file) ==> !profile_stuck(file),
{
    if records_readable(file) {
        lemma_search_not_stuck(file, 8, None, bag_records(file));
    }
}

/// A bag that is started holds no message and no channel, and has the library and the
/// source that it was started with, under the time basis of the Unix epoch and the
/// schema-set hash of this build.
pub proof fn started_bag_is_empty_and_named(bag: BagWriter, library: Seq<char>, source: Seq<char>)
    requires
        bag.opens_with(library, source),
    ensures
        bag.messages() == Seq::<MessageView>::empty(),
        bag.profile().library == library,
        bag.profile().source == source,
        bag.profile().time_basis == "unix_epoch"@,
        bag.profile().schema_set_hash == SCHEMA_SET_HASH@,
{
    assert(bag.messages() =~= Seq::<MessageView>::empty());
}

/// The place of a record of a file, counted from the header.
pub open spec fn nth_place(file: Seq<u8>, n: nat) -> int
    decreases n,
{
    if n == 0 {
        8
    } else {
        place_after(file, nth_place(file, (n - 1) as nat))
    }
}

proof fn lemma_stuck_before(
    file: Seq<u8>,
    library: Seq<char>,
    items: Seq<Result<RecordView, Seq<char>>>,
    from: nat,
    at: int,
)
    requires
        1 <= from <= at <= items.len(),
        forall|k: int| from <= k < at ==> !decides(#[trigger] items[k]),
        at < items.len() ==> decides(items[at]),
        has_magic(file),
    ensures
        search_stuck(file, nth_place(file, from), Some(library), items.skip(from as int))
            <==> exists|k: int|
            from <= k <= at && cut_at(file, #[trigger] nth_place(file, k as nat)),
    decreases at - from,
{
    let rest = items.skip(from as int);
    if cut_at(file, nth_place(file, from)) {
        assert(search_stuck(file, nth_place(file, from), Some(library), rest));
        let k = from as int;
        assert(from <= k <= at && cut_at(file, nth_place(file, k as nat)));
    } else if from < at {
        assert(rest[0] == items[from as int]);
        assert(!decides(items[from as int]));
        assert(continues(Some(library), rest[0]) == Some(library));
        assert(rest.drop_first() =~= items.skip((from + 1) as int));
        lemma_stuck_before(file, library, items, from + 1, at);
        assert(nth_place(file, from + 1) == place_after(file, nth_place(file, from)));
        assert(search_stuck(file, nth_place(file, from), Some(library), rest) == search_stuck(
            file,
            nth_place(file, from + 1),
            Some(library),
            items.skip((from + 1) as int),
        ));
        if exists|k: int| from <= k <= at && cut_at(file, #[trigger] nth_place(file, k as nat)) {
            let k = choose|k: int|
                from <= k <= at && cut_at(file, #[trigger] nth_place(file, k as nat));
            assert(k != from);
            assert(from + 1 <= k <= at && cut_at(file, nth_place(file, k as nat)));
        }
    } else {
        assert forall|k: int|
            from <= k <= at implies !cut_at(file, #[trigger] nth_place(file, k as nat)) by {
            assert(k == from);
        }
        if at < items.len() {
            assert(rest[0] == items[at]);
            assert(continues(Some(library), rest[0]) is None);
        }
    }
}

/// The profile of a file that begins with the header of a Synapse bag cannot be looked for
/// exactly if an attachment that is cut short stands at the place of the record that
/// decides on it, or of one before that.
pub proof fn search_stops_only_before_what_decides(
    file: Seq<u8>,
    library: Seq<char>,
    at: int,
)
    requires
        has_magic(file),
        bag_records(file).len() > 0,
        bag_records(file)[0] == Ok::<RecordView, Seq<char>>(
            RecordView::Header { profile: "synapse/1"@, library },
        ),
        library.len() > 0,
        decisive(bag_records(file), at) || at == bag_records(file).len() && forall|k: int|
            1 <= k < at ==> !decides(#[trigger] bag_records(file)[k]),
    ensures
        profile_stuck(file) <==> exists|k: int|
            0 <= k <= at && cut_at(file, #[trigger] nth_place(file, k as nat)),
{
    let items = bag_records(file);
    assert(nth_place(file, 0) == 8);
    if cut_at(file, 8) {
        assert(cut_at(file, nth_place(file, 0int as nat)));
    } else {
        assert(continues(None, items[0]) == Some(library));
        assert(items.drop_first() =~= items.skip(1));
        lemma_stuck_before(file, library, items, 1, at);
        assert(nth_place(file, 1) == place_after(file, 8));
        if exists|k: int| 0 <= k <= at && cut_at(file, #[trigger] nth_place(file, k as nat)) {
            let k = choose|k: int|
                0 <= k <= at && cut_at(file, #[trigger] nth_place(file, k as nat));
            assert(k != 0);
        }
    }
}

/// Of a file with something that a reader cannot be handed, the messages before that are
/// read. The reading is stuck if the reader comes to it, and ends with an error if there is
/// one before.
pub proof fn messages_before_what_stops_a_reader_are_read(file: Seq<u8>, place: int)
    requires
        stuck_place(file) == Some(place),
    ensures
        bag_reading(file).0 == readable_part(bag_messages(file.take(place))).0,
        readable_part(bag_messages(file.take(place))).1 matches Some(cause) ==> bag_reading(file).1
            == if cause == "MCAP file ended in the middle of a record"@ {
            Ending::Stuck
        } else {
            Ending::Failed(cause)
        },
{
}

} // verus!
