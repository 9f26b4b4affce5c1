use std::io::Cursor;

use csyn::bag::{
    channel_type, clamped_ns, encode_sample, is_lowercase_hex_128, profile_from_records,
    profile_metadata, read_messages, read_profile, unix_now_ns, unix_ns, BagWriter, ReadingEnd,
    END_WITHIN_RECORD,
};
use csyn::container::{BagMessage, BagRecord, Channel, ChannelSchema, SCHEMA_SET_HASH};
use csyn::types::TopicType;
use synapse_fbs::mcap::container::records::MessageHeader;
use synapse_fbs::mcap::container::{MessageStream, WriteOptions};
use synapse_fbs::topic_catalog::{MCAP_TIME_BASIS_UNIX_EPOCH, MCAP_TOPIC_ID_KEY};

fn health_payload(stamp: u64) -> Vec<u8> {
    let known = TopicType::find("VehicleHealth").unwrap();
    let mut payload = vec![0_u8; known.topic.payload_size.unwrap()];
    payload[0..8].copy_from_slice(&stamp.to_le_bytes());
    payload
}

fn small_bag() -> Vec<u8> {
    let known = TopicType::find("VehicleHealth").unwrap();
    let mut writer = BagWriter::create("csyn/test", "test-source").unwrap();
    writer.write_sample("a/health", known, 10, &health_payload(1)).unwrap();
    writer.write_sample("b/health", known, 20, &health_payload(2)).unwrap();
    writer.write_sample("a/health", known, 30, &health_payload(3)).unwrap();
    writer.finish().unwrap()
}

fn entries() -> Vec<(String, String)> {
    let hex = "0123456789abcdef0123456789abcdef";
    vec![
        ("synapse.schema_set_hash".to_owned(), hex.to_owned()),
        ("synapse.session_id".to_owned(), hex.to_owned()),
        ("synapse.source".to_owned(), "here".to_owned()),
        ("synapse.time_basis".to_owned(), "correlated".to_owned()),
    ]
}

fn header() -> Result<BagRecord, String> {
    Ok(BagRecord::Header { profile: "synapse/1".to_owned(), library: "lib".to_owned() })
}

fn metadata(entries: Vec<(String, String)>) -> Result<BagRecord, String> {
    Ok(BagRecord::Metadata { name: "synapse".to_owned(), entries })
}

fn refused(records: Vec<Result<BagRecord, String>>) -> String {
    profile_from_records(&records).unwrap_err().message()
}

#[test]
fn writes_synapse_profile_mcap_bags() {
    let known = TopicType::find("VehicleHealth").unwrap();
    let mut payload = vec![0_u8; known.topic.payload_size.unwrap()];
    payload[0..8].copy_from_slice(&42_u64.to_le_bytes());

    let mut writer = BagWriter::create("csyn/test", "test-source").unwrap();
    writer
        .write_sample(known.topic.key, known, 1_000, &payload)
        .unwrap();
    writer
        .write_sample(known.topic.key, known, 2_000, &payload)
        .unwrap();
    let contents = writer.finish().unwrap();

    let metadata = profile_metadata(&contents).unwrap();
    assert_eq!(metadata.library, "csyn/test");
    assert_eq!(metadata.source, "test-source");
    assert_eq!(metadata.time_basis, MCAP_TIME_BASIS_UNIX_EPOCH);

    let messages = read_messages(&contents).unwrap();
    assert!(matches!(messages.end, ReadingEnd::Complete));
    let messages = messages.messages;
    assert_eq!(messages.len(), 2);
    assert_eq!(messages[0].sequence, 0);
    assert_eq!(messages[1].sequence, 1);
    assert_eq!(messages[0].publish_time, 42_000);
    let schema = messages[0].channel.schema.as_ref().unwrap();
    assert_eq!(schema.name, "synapse.topic.VehicleHealth");
    assert_eq!(schema.data.as_slice(), known.mcap_schema().bfbs);
    assert_eq!(
        messages[0].channel.metadata,
        vec![(MCAP_TOPIC_ID_KEY.to_owned(), known.topic.id.to_string())]
    );
    assert_eq!(
        known
            .mcap_to_zenoh_payload(&messages[0].data)
            .unwrap(),
        payload.as_slice()
    );
    assert!(
        flatbuffers::root::<synapse_fbs::topic::VehicleHealth<'_>>(&messages[0].data).is_ok()
    );
}

#[test]
fn a_bag_gives_back_what_was_written() {
    let file = small_bag();
    let profile = profile_metadata(&file).unwrap();
    assert_eq!(profile.library, "csyn/test");
    assert_eq!(profile.source, "test-source");
    assert_eq!(profile.schema_set_hash, synapse_fbs::topic_catalog::SCHEMA_SET_HASH);
    assert_eq!(profile.schema_set_hash, SCHEMA_SET_HASH);
    assert!(is_lowercase_hex_128(&profile.session_id));

    let reading = read_messages(&file).unwrap();
    assert!(reading.ended().is_ok());
    let seen: Vec<(&str, u32, u64, u64)> = reading
        .messages
        .iter()
        .map(|m| (m.channel.topic.as_str(), m.sequence, m.log_time, m.publish_time))
        .collect();
    assert_eq!(
        seen,
        vec![("a/health", 0, 10, 1_000), ("b/health", 0, 20, 2_000), ("a/health", 1, 30, 3_000)]
    );
    for (message, stamp) in reading.messages.iter().zip([1, 2, 3]) {
        let known = channel_type(&message.channel).unwrap();
        assert_eq!(known.topic.name, "VehicleHealth");
        assert_eq!(
            known.mcap_to_zenoh_payload(&message.data).unwrap(),
            health_payload(stamp).as_slice()
        );
    }
    let direct = MessageStream::new(&file).unwrap().map(|m| m.unwrap().log_time);
    assert_eq!(direct.collect::<Vec<_>>(), vec![10, 20, 30]);
}

#[test]
fn two_bags_have_sessions_of_their_own() {
    let first = profile_metadata(&small_bag()).unwrap();
    let second = profile_metadata(&small_bag()).unwrap();
    assert_ne!(first.session_id, second.session_id);
}

#[test]
fn a_bag_can_be_empty() {
    let writer =
        BagWriter::start("lib", "0123456789abcdef0123456789abcdef", "src").unwrap();
    assert_eq!(writer.channel_total(), 0);
    let file = writer.finish().unwrap();
    let profile = profile_metadata(&file).unwrap();
    assert_eq!(profile.session_id, "0123456789abcdef0123456789abcdef");
    assert_eq!(read_messages(&file).unwrap().messages.len(), 0);
}

#[test]
fn a_bag_needs_a_library_a_source_and_a_session() {
    let session = "0123456789abcdef0123456789abcdef";
    let error = BagWriter::create("", "src").err().unwrap();
    assert_eq!(error.message(), "failed to start Synapse MCAP file");
    assert_eq!(error.cause().unwrap(), "MCAP library identifier is empty");
    let error = BagWriter::create("lib", "").err().unwrap();
    assert_eq!(error.cause().unwrap(), "Synapse MCAP source is empty");
    let error = BagWriter::start("lib", "nope", "src").err().unwrap();
    assert_eq!(
        error.cause().unwrap(),
        "Synapse MCAP session id must be 32 lowercase hexadecimal characters"
    );
    assert!(BagWriter::start("lib", session, "src").is_ok());
}

#[test]
fn a_bag_keeps_its_messages_when_a_sample_is_refused() {
    let known = TopicType::find("VehicleHealth").unwrap();
    let mut writer = BagWriter::create("lib", "src").unwrap();
    writer.write_sample("k", known, 1, &health_payload(1)).unwrap();
    let error = writer.write_sample("other", known, 2, &[0; 3]).unwrap_err();
    assert!(error.message().starts_with("VehicleHealth: payload is 3 bytes"));
    assert_eq!(writer.channel_total(), 2);
    assert!(writer.has_channel("other"));
    assert!(!writer.has_channel("third"));
    let error = writer.write_sample("k", known, 3, &health_payload(u64::MAX)).unwrap_err();
    assert_eq!(error.message(), "VehicleHealth timestamp_us overflows nanoseconds");
    writer.write_sample("k", known, 4, &health_payload(4)).unwrap();
    let file = writer.finish().unwrap();
    let messages = read_messages(&file).unwrap().messages;
    assert_eq!(messages.len(), 2);
    assert_eq!(messages[1].log_time, 4);
    assert_eq!(messages[1].sequence, 1);
}

#[test]
fn samples_are_encoded_with_their_publication_time() {
    let known = TopicType::find("VehicleHealth").unwrap();
    let sample = encode_sample(known, 7, &health_payload(3)).unwrap();
    assert_eq!(sample.publish_time_ns, 3_000);
    assert_eq!(sample.data, known.to_mcap_payload(&health_payload(3)).unwrap());
    assert!(encode_sample(known, 7, &[]).is_err());
}

#[test]
fn profiles_are_read_from_records() {
    let profile = profile_from_records(&vec![
        header(),
        Ok(BagRecord::Other),
        Ok(BagRecord::Metadata { name: "else".to_owned(), entries: vec![] }),
        metadata(entries()),
        Ok(BagRecord::Message),
        Err("late".to_owned()),
    ])
    .unwrap();
    assert_eq!(profile.library, "lib");
    assert_eq!(profile.source, "here");
    assert_eq!(profile.time_basis, "correlated");
    assert_eq!(profile.session_id, "0123456789abcdef0123456789abcdef");
}

#[test]
fn files_without_a_proper_header_are_refused() {
    assert_eq!(refused(vec![]), "MCAP file does not begin with a header");
    assert_eq!(
        refused(vec![metadata(entries())]),
        "MCAP file does not begin with a header"
    );
    let error = profile_from_records(&vec![Err("cut".to_owned())]).unwrap_err();
    assert_eq!(error.message(), "failed to read MCAP header");
    assert_eq!(error.cause().unwrap(), "cut");
    assert_eq!(
        refused(vec![Ok(BagRecord::Header {
            profile: "ros2".to_owned(),
            library: "lib".to_owned()
        })]),
        "unsupported MCAP profile 'ros2'; expected synapse/1"
    );
    assert_eq!(
        refused(vec![Ok(BagRecord::Header {
            profile: "synapse/1".to_owned(),
            library: String::new()
        })]),
        "Synapse MCAP library identifier is empty"
    );
}

#[test]
fn profile_metadata_has_to_precede_messages() {
    assert_eq!(
        refused(vec![header(), Ok(BagRecord::Message), metadata(entries())]),
        "Synapse MCAP metadata must precede the first message"
    );
    assert_eq!(
        refused(vec![header(), Ok(BagRecord::Chunk), metadata(entries())]),
        "Synapse MCAP metadata must precede the first message"
    );
    assert_eq!(
        refused(vec![header(), Ok(BagRecord::Other)]),
        "Synapse MCAP metadata record is missing"
    );
    let error =
        profile_from_records(&vec![header(), Err("cut".to_owned())]).unwrap_err();
    assert_eq!(error.message(), "failed to read MCAP profile metadata");
    assert_eq!(error.cause().unwrap(), "cut");
}

#[test]
fn incomplete_profile_metadata_is_refused() {
    for (index, key) in [
        "synapse.schema_set_hash",
        "synapse.session_id",
        "synapse.source",
        "synapse.time_basis",
    ]
    .iter()
    .enumerate()
    {
        let mut missing = entries();
        missing.remove(index);
        assert_eq!(
            refused(vec![header(), metadata(missing)]),
            format!("Synapse MCAP metadata is missing {key}")
        );
        let mut empty = entries();
        empty[index].1 = String::new();
        assert_eq!(
            refused(vec![header(), metadata(empty)]),
            format!("Synapse MCAP metadata is missing {key}")
        );
    }
}

#[test]
fn invalid_profile_metadata_is_refused() {
    let mut bad = entries();
    bad[0].1 = "0123456789ABCDEF0123456789abcdef".to_owned();
    assert_eq!(refused(vec![header(), metadata(bad)]), "invalid Synapse MCAP schema-set hash");
    let mut bad = entries();
    bad[1].1 = "0123".to_owned();
    assert_eq!(refused(vec![header(), metadata(bad)]), "invalid Synapse MCAP session id");
    let mut bad = entries();
    bad[3].1 = "sundial".to_owned();
    assert_eq!(
        refused(vec![header(), metadata(bad)]),
        "invalid Synapse MCAP time basis 'sundial'"
    );
    for basis in ["monotonic_boot", "unix_epoch", "correlated"] {
        let mut good = entries();
        good[3].1 = basis.to_owned();
        assert_eq!(
            profile_from_records(&vec![header(), metadata(good)]).unwrap().time_basis,
            basis
        );
    }
}

#[test]
fn foreign_files_are_refused() {
    let error = profile_metadata(b"no bag at all").unwrap_err();
    assert_eq!(error.message(), "failed to read MCAP header");
    assert!(error.cause().is_some());
    let reading = read_messages(b"no bag at all").unwrap();
    assert_eq!(reading.messages.len(), 0);
    assert_eq!(reading.ended().unwrap_err().message(), "failed to read bag message");
}

#[test]
fn a_cut_bag_gives_the_messages_before_the_cut() {
    let mut file = small_bag();
    file.truncate(file.len() - 60);
    let reading = read_messages(&file).unwrap();
    assert!(reading.messages.len() >= 2);
    assert_eq!(reading.messages[0].log_time, 10);
    let error = reading.ended().unwrap_err();
    assert_eq!(error.message(), "failed to read bag message");
    match reading.end {
        ReadingEnd::Failed(cause) => assert_eq!(error.cause(), Some(cause)),
        _ => panic!("a cut bag cannot be read to its end"),
    }
    assert!(profile_metadata(&file).is_ok());
}

fn chunked(profile: &str) -> Vec<u8> {
    let mut writer = WriteOptions::new()
        .profile(profile)
        .library("lib")
        .compression(None)
        .create(Cursor::new(Vec::new()))
        .unwrap();
    let schema = writer.add_schema("s", "flatbuffer", b"x").unwrap();
    let channel = writer
        .add_channel(schema, "t", "flatbuffer", &std::collections::BTreeMap::new())
        .unwrap();
    for time in [5, 6] {
        writer
            .write_to_known_channel(
                &MessageHeader { channel_id: channel, sequence: 1, log_time: time, publish_time: 0 },
                b"abc",
            )
            .unwrap();
    }
    writer.finish().unwrap();
    writer.into_inner().into_inner()
}

#[test]
fn chunked_files_are_read_through_their_chunks() {
    let file = chunked("synapse/1");
    assert_eq!(
        profile_metadata(&file).unwrap_err().message(),
        "Synapse MCAP metadata must precede the first message"
    );
    let reading = read_messages(&file).unwrap();
    assert!(reading.ended().is_ok());
    assert_eq!(reading.messages.len(), 2);
    assert_eq!(reading.messages[1].log_time, 6);
    assert_eq!(reading.messages[1].data, b"abc");
    assert_eq!(
        profile_metadata(&chunked("other")).unwrap_err().message(),
        "unsupported MCAP profile 'other'; expected synapse/1"
    );
}

fn framed(records: &[(u8, Vec<u8>)]) -> Vec<u8> {
    let mut file = vec![0x89, b'M', b'C', b'A', b'P', 0x30, b'\r', b'\n'];
    for (opcode, body) in records {
        file.push(*opcode);
        file.extend_from_slice(&(body.len() as u64).to_le_bytes());
        file.extend_from_slice(body);
    }
    file
}

fn named_attachment(name: &[u8], tail: usize) -> Vec<u8> {
    let mut body = vec![0_u8; 16];
    body.extend_from_slice(&(name.len() as u32).to_le_bytes());
    body.extend_from_slice(name);
    body.extend_from_slice(&2_u32.to_le_bytes());
    body.extend_from_slice(b"mt");
    body.extend_from_slice(&0_u64.to_le_bytes());
    body.extend_from_slice(&vec![0; tail]);
    body
}

fn attachment(tail: usize) -> Vec<u8> {
    named_attachment(b"n", tail)
}

fn is_stuck(file: &[u8]) -> bool {
    matches!(read_messages(file).unwrap().end, ReadingEnd::Stuck)
}

fn record(opcode: u8, body: &[u8]) -> Vec<u8> {
    let mut record = vec![opcode];
    record.extend_from_slice(&(body.len() as u64).to_le_bytes());
    record.extend_from_slice(body);
    record
}

#[test]
fn cut_attachments_are_recognised() {
    for tail in 0..6 {
        let file = framed(&[(0x09, attachment(tail))]);
        assert_eq!(read_profile(&file).is_none(), tail < 4, "{tail}");
        let file = framed(&[(0x80, vec![1]), (0x09, attachment(tail))]);
        assert_eq!(is_stuck(&file), tail < 4, "{tail}");
    }
    let file = framed(&[(0x02, vec![0; 20]), (0x09, attachment(0))]);
    assert!(!is_stuck(&file));
    let file = framed(&[(0x09, vec![0; 10])]);
    assert_eq!(
        read_profile(&file).unwrap().unwrap_err().message(),
        "failed to read MCAP header"
    );
    assert!(read_profile(b"").unwrap().is_err());
    assert!(!is_stuck(b"MCAP"));
}

#[test]
fn a_cut_attachment_whose_name_is_no_text_is_an_error() {
    let file = framed(&[(0x09, named_attachment(&[0xff], 0))]);
    assert_eq!(
        read_profile(&file).unwrap().unwrap_err().message(),
        "failed to read MCAP header"
    );
    assert!(matches!(read_messages(&file).unwrap().end, ReadingEnd::Failed(_)));
}

/// The place behind the second record of a bag, which is its metadata.
fn behind_metadata(file: &[u8]) -> usize {
    let mut at = 8;
    for _ in 0..2 {
        let mut len = [0_u8; 8];
        len.copy_from_slice(&file[at + 1..at + 9]);
        at += 9 + u64::from_le_bytes(len) as usize;
    }
    at
}

#[test]
fn what_stands_behind_the_profile_does_not_keep_it_from_being_read() {
    let whole = small_bag();
    let mut file = whole[..behind_metadata(&whole)].to_vec();
    file.extend_from_slice(&record(0x09, &attachment(0)));
    assert_eq!(read_profile(&file).unwrap().unwrap().library, "csyn/test");
    assert_eq!(profile_metadata(&file).unwrap().source, "test-source");
    assert!(is_stuck(&file));

    let mut foreign = framed(&[(0x80, vec![])]);
    foreign.extend_from_slice(&record(0x09, &attachment(0)));
    assert_eq!(
        read_profile(&foreign).unwrap().unwrap_err().message(),
        "MCAP file does not begin with a header"
    );
}

#[test]
fn a_cut_attachment_before_the_metadata_keeps_the_profile_from_being_read() {
    let whole = small_bag();
    let mut header_len = [0_u8; 8];
    header_len.copy_from_slice(&whole[9..17]);
    let behind_header = 17 + u64::from_le_bytes(header_len) as usize;
    let mut file = whole[..behind_header].to_vec();
    file.extend_from_slice(&record(0x09, &attachment(3)));
    file.extend_from_slice(&whole[behind_header..]);
    assert!(read_profile(&file).is_none());
    let mut file = whole[..behind_header].to_vec();
    file.extend_from_slice(&record(0x09, &attachment(4)));
    file.extend_from_slice(&whole[behind_header..]);
    assert_eq!(read_profile(&file).unwrap().unwrap().library, "csyn/test");
}

#[test]
fn messages_before_a_cut_attachment_are_read() {
    let mut whole = small_bag();
    let reading = read_messages(&whole).unwrap();
    assert_eq!(reading.messages.len(), 3);
    let data_end = (0..whole.len() - 13)
        .rev()
        .find(|&at| whole[at] == 0x0f && whole[at + 1..at + 9] == 4_u64.to_le_bytes())
        .unwrap();
    whole.truncate(data_end);
    whole.extend_from_slice(&record(0x09, &attachment(0)));
    let reading = read_messages(&whole).unwrap();
    assert_eq!(reading.messages.len(), 3);
    assert_eq!(reading.messages[2].log_time, 30);
    assert!(matches!(reading.end, ReadingEnd::Stuck));
}

#[test]
fn an_unreadable_record_ends_the_reading_before_a_cut_attachment() {
    let file = framed(&[(0x03, vec![]), (0x09, attachment(0))]);
    match read_messages(&file).unwrap().end {
        ReadingEnd::Failed(cause) => assert_eq!(cause, "Record parse failed"),
        end => panic!("{end:?}"),
    }
    let mut unknown = vec![9_u8, 0];
    unknown.extend_from_slice(&[0; 20]);
    let file = framed(&[(0x05, unknown), (0x09, attachment(0))]);
    match read_messages(&file).unwrap().end {
        ReadingEnd::Failed(cause) => {
            assert_eq!(cause, "Message 0 referenced unknown channel 9")
        }
        end => panic!("{end:?}"),
    }
    let file = framed(&[(0x80, vec![1, 2, 3])]);
    match read_messages(&file).unwrap().end {
        ReadingEnd::Failed(cause) => assert_eq!(cause, END_WITHIN_RECORD),
        end => panic!("{end:?}"),
    }
}

#[test]
fn a_whole_attachment_is_passed_over() {
    let file = framed(&[(0x09, attachment(4))]);
    let reading = read_messages(&file).unwrap();
    assert_eq!(reading.messages.len(), 0);
    assert!(matches!(reading.end, ReadingEnd::Failed(_)));
}

#[test]
fn overlong_records_are_recognised() {
    let mut file = framed(&[]);
    file.push(0x80);
    file.extend_from_slice(&(u64::MAX - 3).to_le_bytes());
    assert!(is_stuck(&file));
    assert_eq!(
        read_profile(&file).unwrap().unwrap_err().message(),
        "failed to read MCAP header"
    );
    let mut file = framed(&[]);
    file.push(0x80);
    file.extend_from_slice(&1_000_u64.to_le_bytes());
    assert!(!is_stuck(&file));
}

fn chunk(stored: u64, compression: &[u8], records: &[u8]) -> Vec<u8> {
    let mut body = vec![0_u8; 28];
    body.extend_from_slice(&(compression.len() as u32).to_le_bytes());
    body.extend_from_slice(compression);
    body.extend_from_slice(&stored.to_le_bytes());
    body.extend_from_slice(records);
    body
}

#[test]
fn records_that_leave_their_chunk_are_recognised() {
    let mut inner = vec![0x80_u8];
    inner.extend_from_slice(&2_u64.to_le_bytes());
    inner.extend_from_slice(&[7, 7]);
    let whole = framed(&[(0x06, chunk(11, b"", &inner)), (0x80, vec![])]);
    assert!(!is_stuck(&whole));
    let leaving = framed(&[(0x06, chunk(10, b"", &inner)), (0x80, vec![])]);
    assert!(is_stuck(&leaving));
    assert!(read_profile(&leaving).is_some());
    let compressed = framed(&[(0x06, chunk(10, b"zstd", &inner))]);
    assert!(matches!(read_messages(&compressed).unwrap().end, ReadingEnd::Failed(_)));
    let cut = record(0x09, &attachment(1));
    let hidden = framed(&[(0x06, chunk(cut.len() as u64, b"", &cut))]);
    assert!(is_stuck(&hidden));
    assert!(read_profile(&hidden).is_some());
}

fn health_channel() -> Channel {
    let known = TopicType::find("VehicleHealth").unwrap();
    Channel {
        id: 1,
        topic: "k".to_owned(),
        schema: Some(ChannelSchema {
            id: 1,
            name: known.topic.mcap_schema_name.to_owned(),
            encoding: "flatbuffer".to_owned(),
            data: known.schema.bfbs.to_vec(),
        }),
        message_encoding: "flatbuffer".to_owned(),
        metadata: vec![("synapse.topic_id".to_owned(), known.topic.id.to_string())],
    }
}

#[test]
fn channels_need_their_exact_schema_contract() {
    assert_eq!(channel_type(&health_channel()).unwrap().topic.name, "VehicleHealth");
    let incompatible = "MCAP channel k has an incompatible Synapse schema contract";

    let mut channel = health_channel();
    channel.schema = None;
    assert_eq!(
        channel_type(&channel).unwrap_err().message(),
        "MCAP channel k has no required Synapse schema"
    );
    let mut channel = health_channel();
    channel.schema.as_mut().unwrap().name = "nope".to_owned();
    assert_eq!(
        channel_type(&channel).unwrap_err().message(),
        "unknown MCAP Synapse type nope"
    );
    let mut channel = health_channel();
    channel.schema.as_mut().unwrap().name = "VehicleHealth".to_owned();
    assert_eq!(channel_type(&channel).unwrap_err().message(), incompatible);
    let mut channel = health_channel();
    channel.schema.as_mut().unwrap().encoding = "ros".to_owned();
    assert_eq!(channel_type(&channel).unwrap_err().message(), incompatible);
    let mut channel = health_channel();
    channel.schema.as_mut().unwrap().data.push(0);
    assert_eq!(channel_type(&channel).unwrap_err().message(), incompatible);
    let mut channel = health_channel();
    channel.message_encoding = "json".to_owned();
    assert_eq!(channel_type(&channel).unwrap_err().message(), incompatible);
    let mut channel = health_channel();
    channel.metadata = vec![];
    assert_eq!(channel_type(&channel).unwrap_err().message(), incompatible);
    let mut channel = health_channel();
    channel.metadata[0].1 = "999".to_owned();
    assert_eq!(channel_type(&channel).unwrap_err().message(), incompatible);
}

#[test]
fn hexadecimal_of_128_bits_is_recognised() {
    assert!(is_lowercase_hex_128("0123456789abcdef0123456789abcdef"));
    assert!(!is_lowercase_hex_128("0123456789abcdef0123456789abcde"));
    assert!(!is_lowercase_hex_128("0123456789abcdef0123456789abcdeg"));
    assert!(!is_lowercase_hex_128("0123456789ABCDEF0123456789abcdef"));
    assert!(!is_lowercase_hex_128(""));
}

#[test]
fn the_clock_is_read_in_nanoseconds() {
    let now = unix_now_ns().unwrap();
    assert!(now > 1_600_000_000_000_000_000);
    assert_eq!(clamped_ns(7), 7);
    assert_eq!(clamped_ns(u64::MAX as u128), u64::MAX);
    assert_eq!(clamped_ns(u64::MAX as u128 + 1), u64::MAX);
    assert_eq!(unix_ns(Some(7)).unwrap(), 7);
    assert_eq!(unix_ns(Some(u128::MAX)).unwrap(), u64::MAX);
    assert_eq!(
        unix_ns(None).unwrap_err().message(),
        "system time is before Unix epoch"
    );
}

#[test]
fn messages_can_be_made_by_hand() {
    let message = BagMessage {
        channel: health_channel(),
        sequence: 3,
        log_time: 4,
        publish_time: 5,
        data: vec![],
    };
    assert_eq!(message.channel.schema.unwrap().encoding, "flatbuffer");
}
