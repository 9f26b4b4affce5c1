use csyn::bag::{profile_metadata, read_messages, BagWriter};
use csyn::cli::{TopicOutput, TypeCommand};
use csyn::container::{BagMessage, Channel};
use csyn::contract_warning::ContractWarningThrottle;
use csyn::error::Error;
use csyn::playback::{
    channel_lines, duration_ns, export_frame, have_schemas, head_lines, inspect, is_selected,
    publication, recover, summarize, Playback,
};
use csyn::report::{
    catalog_lines, echo_intake, echo_sample, info_lines, print_sample, run_type, version_line,
    EchoOptions, EchoPrint, SamplePrint,
};
use csyn::topic::{
    listing_keyexpr, outcome, plan_publication, record_at, record_sample, require_value_type,
    take_in, text_payload, Intake, Progress, TopicListing, TopicObservation,
};
use csyn::types::TopicType;

fn health() -> TopicType {
    TopicType::find("VehicleHealth").unwrap()
}

fn payload(stamp: u64) -> Vec<u8> {
    let mut payload = vec![0_u8; health().topic.payload_size.unwrap()];
    payload[0..8].copy_from_slice(&stamp.to_le_bytes());
    payload
}

fn bag() -> Vec<u8> {
    let odometry = TopicType::find("Odometry").unwrap();
    let mut writer =
        BagWriter::start("lib", "0123456789abcdef0123456789abcdef", "here").unwrap();
    writer.write_sample("b/health", health(), 100, &payload(1)).unwrap();
    writer
        .write_sample("a/odom", odometry, 50, &vec![0; odometry.topic.payload_size.unwrap()])
        .unwrap();
    writer.write_sample("b/health", health(), 400, &payload(2)).unwrap();
    writer.finish().unwrap()
}

fn messages() -> Vec<BagMessage> {
    read_messages(&bag()).unwrap().messages
}

#[test]
fn samples_have_to_be_of_the_expected_type() {
    let encoding = health().zenoh_encoding();
    assert_eq!(require_value_type("k", &encoding, None).unwrap().topic.id, health().topic.id);
    assert!(require_value_type("k", &encoding, Some(health())).is_ok());
    let odometry = TopicType::find("Odometry").unwrap();
    assert_eq!(
        require_value_type("k", &encoding, Some(odometry)).unwrap_err().message(),
        "topic k advertises VehicleHealth, expected Odometry"
    );
    let error = require_value_type("k", "zenoh/bytes", None).unwrap_err();
    assert_eq!(error.message(), "topic k has no valid Synapse value contract");
    assert_eq!(error.cause().unwrap(), "Synapse value encoding is missing type metadata");
}

#[test]
fn topics_are_listed_in_order() {
    let mut listing = TopicListing::new(None);
    let mut warnings = ContractWarningThrottle::default();
    let odometry = TopicType::find("Odometry").unwrap();
    for (key, known) in [("b/health", health()), ("a/odom", odometry), ("b/health", health())] {
        assert_eq!(listing.see(&mut warnings, key, &known.zenoh_encoding(), 0).unwrap(), None);
    }
    assert_eq!(
        listing.see(&mut warnings, "x", "zenoh/bytes", 0).unwrap().unwrap(),
        "warning: rejecting x: topic x has no valid Synapse value contract"
    );
    assert_eq!(listing.see(&mut warnings, "x", "zenoh/bytes", 1).unwrap(), None);
    assert_eq!(listing.lines(), vec!["a/odom [Odometry]", "b/health [VehicleHealth]"]);
    let error = listing
        .see(&mut warnings, "a/odom", &health().zenoh_encoding(), 2)
        .unwrap_err();
    assert_eq!(
        error.message(),
        "topic a/odom changed value type from Odometry to VehicleHealth"
    );
}

#[test]
fn a_listing_can_be_of_one_type() {
    let mut listing = TopicListing::new(Some(health()));
    let mut warnings = ContractWarningThrottle::default();
    let odometry = TopicType::find("Odometry").unwrap();
    listing.see(&mut warnings, "a", &odometry.zenoh_encoding(), 0).unwrap();
    listing.see(&mut warnings, "b", &health().zenoh_encoding(), 0).unwrap();
    assert_eq!(listing.lines(), vec!["b [VehicleHealth]"]);
}

#[test]
fn the_first_sample_settles_the_observed_type() {
    let mut stats = TopicObservation::new();
    let mut warnings = ContractWarningThrottle::default();
    let odometry = TopicType::find("Odometry").unwrap();
    assert_eq!(stats.see(&mut warnings, "k", &health().zenoh_encoding(), 10, 0), None);
    assert_eq!(
        stats.see(&mut warnings, "k", &odometry.zenoh_encoding(), 10, 1).unwrap(),
        "warning: rejecting k: topic k advertises Odometry, expected VehicleHealth"
    );
    assert_eq!(stats.see(&mut warnings, "k", &health().zenoh_encoding(), 5, 2), None);
    assert_eq!((stats.samples, stats.bytes), (2, 15));
    assert_eq!(
        info_lines("k", &stats, "0.8.0"),
        vec![
            "Topic: k".to_owned(),
            "Type: synapse.topic.VehicleHealthData".to_owned(),
            format!("Schema: {} (synapse_fbs 0.8.0)", health().topic.schema_file),
            format!("Encoding: {}", health().zenoh_encoding()),
            "Samples: 2".to_owned(),
            "Bytes: 15".to_owned(),
        ]
    );
    assert_eq!(
        info_lines("k", &TopicObservation::new(), "0.8.0"),
        vec!["Topic: k", "Type: not observed", "Samples: 0", "Bytes: 0"]
    );
}

#[test]
fn one_payload_is_published() {
    let text = "hé".to_owned();
    assert!(matches!(text_payload(true, None), Ok(None)));
    assert_eq!(text_payload(false, Some(&text)).unwrap().unwrap(), "hé".as_bytes());
    let none = text_payload(false, None).unwrap_err();
    assert!(matches!(none, Error::NoPayload));
    assert_eq!(none.message(), "topic pub requires --file or --text");
    let both = text_payload(true, Some(&text)).unwrap_err();
    assert!(matches!(both, Error::TwoPayloads));
    assert_eq!(both.message(), "use only one of --file or --text");
}

#[test]
fn publications_are_planned_by_their_type() {
    let plan = plan_publication("health", "VehicleHealth", &payload(0)).unwrap();
    assert_eq!(plan.key, "health");
    assert_eq!(plan.encoding, health().zenoh_encoding());
    let plan = plan_publication("ns/x", "health", &payload(0)).unwrap();
    assert_eq!(plan.key, "ns/x");
    let error = plan_publication("health", "VehicleHealth", &[1]).unwrap_err();
    assert_eq!(error.message(), "payload does not match required type VehicleHealth");
    assert!(error.cause().unwrap().starts_with("VehicleHealth: payload is 1 bytes"));
    assert_eq!(
        plan_publication("health", "nope", &[1]).unwrap_err().message(),
        "unknown Synapse topic 'nope'"
    );
}

#[test]
fn work_goes_on_up_to_its_limit() {
    let mut progress = Progress::new(Some(2));
    assert!(progress.goes_on(false));
    assert!(!progress.goes_on(true));
    progress.count();
    assert!(progress.goes_on(false));
    progress.count();
    assert!(!progress.goes_on(false));
    assert!(Progress::new(None).goes_on(false));
    assert!(!Progress::new(Some(0)).goes_on(false));
    assert_eq!(
        outcome("recorded", progress.done, "sample(s) to", "a.mcap"),
        "recorded 2 sample(s) to a.mcap"
    );
}

#[test]
fn the_catalog_is_listed_in_columns() {
    let lines = catalog_lines("0.8.0");
    assert_eq!(lines.len(), 44);
    assert_eq!(lines[0], "synapse_fbs release: 0.8.0");
    assert_eq!(lines[1], format!("{:<24} {:>4} {:>6}  wire type", "topic", "id", "bytes"));
    for (line, known) in lines[2..].iter().zip(TopicType::all()) {
        let size = known.topic.payload_size.map(|size| size.to_string());
        assert_eq!(
            *line,
            format!(
                "{:<24} {:>4} {:>6}  {}",
                known.topic.name,
                known.topic.id,
                size.unwrap_or("-".to_owned()),
                known.topic.wire_type
            )
        );
    }
    assert_eq!(run_type(TypeCommand::List, "0.8.0").unwrap(), lines);
}

#[test]
fn a_type_is_shown_with_its_schema() {
    let show = |fbs| {
        run_type(TypeCommand::Show { ty: "health".to_owned(), fbs }, "0.8.0").unwrap()
    };
    let lines = show(false);
    assert_eq!(lines.len(), 14);
    assert_eq!(lines[0], "topic: VehicleHealth");
    assert_eq!(lines[2], "key: health");
    assert_eq!(lines[5], format!("zenoh_value_contract: {}", health().zenoh_encoding()));
    assert_eq!(lines[6], format!("schema_hash: sha256-128:{}", health().schema_hash()));
    assert_eq!(lines[11], format!("bfbs_bytes: {}", health().schema.bfbs.len()));
    assert_eq!(lines[12], "synapse_fbs: 0.8.0");
    let with_schema = show(true);
    assert_eq!(with_schema.len(), 16);
    assert_eq!(with_schema[14], "---");
    assert_eq!(with_schema[15], health().schema.fbs);
    let unknown = TypeCommand::Show { ty: "nope".to_owned(), fbs: false };
    assert_eq!(
        run_type(unknown, "0.8.0").unwrap_err().message(),
        "unknown Synapse topic 'nope'"
    );
    assert_eq!(version_line("0.7.0", "0.8.0"), "csyn 0.7.0 (synapse_fbs 0.8.0)");
}

fn lines(print: SamplePrint) -> Vec<String> {
    match print {
        SamplePrint::Lines(lines) => lines,
        SamplePrint::Json(_) => panic!("lines were asked for"),
    }
}

#[test]
fn samples_are_printed() {
    let decoded = health().decode(&payload(3)).unwrap();
    assert_eq!(
        lines(print_sample("k", Some(health()), &payload(3), TopicOutput::Debug)),
        vec![
            "topic: k".to_owned(),
            "type: synapse.topic.VehicleHealthData".to_owned(),
            decoded.clone(),
            "---".to_owned()
        ]
    );
    assert!(
        lines(print_sample("k", Some(health()), &[1], TopicOutput::Debug))[2]
            .starts_with("decode_error: VehicleHealth: payload is 1 bytes")
    );
    assert_eq!(
        lines(print_sample("k", None, &[1, 255], TopicOutput::Debug)),
        vec!["topic: k", "type: unknown", "payload: 01 ff", "---"]
    );
    match print_sample("k", Some(health()), &payload(3), TopicOutput::Json) {
        SamplePrint::Json(line) => {
            assert_eq!(line.topic, "k");
            assert_eq!(line.wire_type, Some("synapse.topic.VehicleHealthData"));
            assert_eq!(line.decoded, Some(decoded));
            assert!(line.payload_base64.starts_with("AwAAAAAAAAA"));
        }
        SamplePrint::Lines(_) => panic!("JSON was asked for"),
    }
    for (bytes, expected) in [
        (&b""[..], ""),
        (b"f", "Zg=="),
        (b"fo", "Zm8="),
        (b"foo", "Zm9v"),
        (b"foob", "Zm9vYg=="),
        (b"\xfb\xff\xbf", "+/+/"),
    ] {
        match print_sample("k", None, bytes, TopicOutput::Json) {
            SamplePrint::Json(line) => {
                assert_eq!(line.payload_base64, expected);
                assert_eq!(line.wire_type, None);
                assert_eq!(line.decoded, None);
            }
            SamplePrint::Lines(_) => panic!("JSON was asked for"),
        }
    }
}

#[test]
fn recorded_messages_are_replayed() {
    let all = messages();
    let first = publication(&all[0]).unwrap();
    assert_eq!(first.key, "b/health");
    assert_eq!(first.payload, payload(1));
    assert_eq!(first.encoding, health().zenoh_encoding());
    assert!(is_selected(&None, &all[0]));
    assert!(is_selected(&Some("b/health".to_owned()), &all[0]));
    assert!(!is_selected(&Some("b/health".to_owned()), &all[1]));
    let back = recover(&all[2]).unwrap();
    assert_eq!(back.decoded, health().decode(&payload(2)).unwrap());
}

#[test]
fn messages_that_do_not_match_their_channel_are_refused() {
    let mut message = messages().remove(0);
    message.data.truncate(3);
    let size = health().topic.payload_size.unwrap();
    let error = publication(&message).unwrap_err();
    assert_eq!(error.message(), "MCAP payload on b/health does not match VehicleHealth");
    assert_eq!(
        error.cause().unwrap(),
        format!("invalid fixed-layout MCAP wrapper (3 bytes, expected {})", size + 14)
    );
    message.channel.schema = None;
    assert_eq!(
        export_frame(&message).unwrap_err().message(),
        "MCAP channel b/health has no required Synapse schema"
    );
}

#[test]
fn playback_waits_as_long_as_the_recording_took() {
    let mut playback = Playback::new();
    assert_eq!(playback.wait_ns(100), None);
    assert_eq!(playback.wait_ns(50), Some(0));
    assert_eq!(playback.wait_ns(400), Some(350));
    playback.count();
    assert_eq!(playback.played, 1);
    let mut total = 0;
    let mut again = Playback::new();
    for time in [5, 5, 9, 20] {
        total += again.wait_ns(time).unwrap_or(0);
    }
    assert_eq!(total, 15);
}

#[test]
fn messages_are_exported() {
    let frame = export_frame(&messages()[0]).unwrap();
    assert_eq!(frame.log_time_ns, 100);
    assert_eq!(frame.topic, "b/health");
    assert_eq!(frame.wire_type, Some("synapse.topic.VehicleHealthData"));
    assert_eq!(frame.encoding, health().topic.encoding);
    assert_eq!(frame.value_contract, health().zenoh_encoding());
    assert!(frame.payload_base64.starts_with("AQAAAAAAAAA"));
    assert_eq!(frame.decoded, Some(health().decode(&payload(1)).unwrap()));
}

#[test]
fn bags_are_summarized_by_channel() {
    let all = messages();
    assert!(have_schemas(&all));
    let summary = summarize(&all);
    assert_eq!(summary.messages, 3);
    assert_eq!(summary.schemas.len(), 2);
    assert_eq!((summary.start_time, summary.end_time), (50, 400));
    assert_eq!(duration_ns(&summary), Some(350));
    let counts: Vec<(&str, u64)> =
        summary.channels.iter().map(|c| (c.topic.as_str(), c.messages)).collect();
    assert_eq!(counts, vec![("b/health", 2), ("a/odom", 1)]);
    assert_eq!(
        channel_lines(&summary),
        vec![
            "".to_owned(),
            "channels:".to_owned(),
            format!(
                "  b/health [synapse.topic.VehicleHealth] messages=2 encoding=flatbuffer topic_id={}",
                health().topic.id
            ),
            format!(
                "  a/odom [synapse.topic.Odometry] messages=1 encoding=flatbuffer topic_id={}",
                TopicType::find("Odometry").unwrap().topic.id
            ),
        ]
    );
    let profile = profile_metadata(&bag()).unwrap();
    assert_eq!(
        head_lines("a.mcap", &profile, &summary),
        vec![
            "file: a.mcap",
            "format: mcap",
            "profile: synapse/1",
            "library: lib",
            "source: here",
            "session: 0123456789abcdef0123456789abcdef",
            "time basis: unix_epoch",
            "schema set: 2fd857effb6c7558d6869f4307a5354c",
            "schemas: 2",
            "channels: 2",
            "messages: 3",
        ]
    );
}

#[test]
fn empty_bags_are_summarized() {
    let summary = summarize(&vec![]);
    assert_eq!(summary.messages, 0);
    assert_eq!(duration_ns(&summary), None);
    assert_eq!(channel_lines(&summary).len(), 0);
    let bare = BagMessage {
        channel: Channel {
            id: 1,
            topic: "t".to_owned(),
            schema: None,
            message_encoding: "x".to_owned(),
            metadata: vec![],
        },
        sequence: 0,
        log_time: 0,
        publish_time: 0,
        data: vec![],
    };
    assert!(!have_schemas(&vec![bare]));
}

#[test]
fn expecting_a_type_only_narrows_what_is_accepted() {
    let mut warnings = ContractWarningThrottle::default();
    let encoding = health().zenoh_encoding();
    let odometry = TopicType::find("Odometry").unwrap();
    for (expected, accepted) in [(None, true), (Some(health()), true), (Some(odometry), false)] {
        let intake = take_in(&mut warnings, "k", &encoding, expected, 0);
        assert_eq!(matches!(intake, Intake::Accepted(_)), accepted);
        let intake = take_in(&mut warnings, "k", "zenoh/bytes", expected, 1);
        assert!(matches!(intake, Intake::Rejected(_)));
    }
    assert_eq!(listing_keyexpr(None), "**");
    assert_eq!(listing_keyexpr(Some(&"health".to_owned())), "**/health/**");
}

#[test]
fn only_samples_with_a_valid_contract_are_recorded() {
    let mut writer = BagWriter::create("lib", "src").unwrap();
    let mut progress = Progress::new(None);
    let mut warnings = ContractWarningThrottle::default();
    let odometry = TopicType::find("Odometry").unwrap();
    let mut record = |encoding: &str, payload: &[u8], expected| {
        record_sample(
            &mut writer,
            &mut progress,
            &mut warnings,
            "k",
            encoding,
            payload,
            expected,
            0,
        )
    };
    let encoding = health().zenoh_encoding();
    assert_eq!(record(&encoding, &payload(1), None).unwrap(), None);
    assert_eq!(
        record("zenoh/bytes", &payload(2), None).unwrap().unwrap(),
        "warning: rejecting k: topic k has no valid Synapse value contract"
    );
    assert_eq!(record(&encoding, &payload(3), Some(odometry)).unwrap(), None);
    assert!(record(&encoding, &[1], Some(health())).is_err());
    assert_eq!(record(&encoding, &payload(4), Some(health())).unwrap(), None);
    assert_eq!(progress.done, 2);
    let messages = read_messages(&writer.finish().unwrap()).unwrap().messages;
    let stamps: Vec<u64> = messages.iter().map(|m| m.publish_time).collect();
    assert_eq!(stamps, vec![1_000, 4_000]);
    assert!(messages.iter().all(|m| m.log_time > 1_600_000_000_000_000_000));
}

#[test]
fn bags_are_inspected() {
    let info = inspect(&bag()).unwrap().unwrap();
    assert_eq!(info.profile.library, "lib");
    assert_eq!(info.summary.messages, 3);
    let mut cut = bag();
    cut.truncate(cut.len() - 60);
    assert_eq!(inspect(&cut).unwrap().unwrap_err().message(), "failed to read bag message");
    assert_eq!(inspect(b"x").unwrap().unwrap_err().message(), "failed to read MCAP header");
    let mut overlong = bag();
    overlong.truncate(8);
    overlong.push(0x80);
    overlong.extend_from_slice(&u64::MAX.to_le_bytes());
    assert_eq!(
        inspect(&overlong).unwrap().unwrap_err().message(),
        "failed to read MCAP header"
    );
    let mut stuck = bag();
    let data_end = (0..stuck.len() - 13)
        .rev()
        .find(|&at| stuck[at] == 0x0f && stuck[at + 1..at + 9] == 4_u64.to_le_bytes())
        .unwrap();
    stuck.truncate(data_end);
    stuck.push(0x80);
    stuck.extend_from_slice(&u64::MAX.to_le_bytes());
    assert!(inspect(&stuck).is_none());
}

#[test]
fn samples_are_recorded_at_the_time_that_the_clock_gave() {
    let mut writer = BagWriter::create("lib", "src").unwrap();
    let mut progress = Progress::new(Some(5));
    let now = Err(Error::ClockBeforeEpoch);
    let error = record_at(&mut writer, &mut progress, "k", health(), now, &payload(1)).unwrap_err();
    assert!(matches!(error, Error::ClockBeforeEpoch));
    assert!(!writer.has_channel("k"));
    let error = record_at(&mut writer, &mut progress, "k", health(), Ok(7), &[1]).unwrap_err();
    assert!(error.message().starts_with("VehicleHealth: "));
    assert!(writer.has_channel("k"));
    assert_eq!(progress.done, 0);
    record_at(&mut writer, &mut progress, "k", health(), Ok(9), &payload(2)).unwrap();
    assert_eq!(progress.done, 1);
    assert_eq!(progress.limit, Some(5));
    let messages = read_messages(&writer.finish().unwrap()).unwrap().messages;
    assert_eq!(messages.len(), 1);
    assert_eq!(messages[0].log_time, 9);
    assert_eq!(messages[0].sequence, 0);
    assert_eq!(messages[0].publish_time, 2_000);
}

fn published(count: Option<u64>, repeats: bool, stops: &[bool]) -> u64 {
    let mut progress = Progress::publishing(count, repeats);
    for &stopped in stops {
        if !progress.goes_on(stopped) {
            break;
        }
        progress.count();
    }
    progress.done
}

#[test]
fn without_a_rate_a_sample_is_published_once() {
    let undisturbed = [false; 6];
    assert_eq!(published(None, false, &undisturbed), 1);
    assert_eq!(published(Some(0), false, &undisturbed), 0);
    assert_eq!(published(Some(1), false, &undisturbed), 1);
    assert_eq!(published(Some(4), false, &undisturbed), 1);
    assert_eq!(published(Some(0), true, &undisturbed), 0);
    assert_eq!(published(Some(4), true, &undisturbed), 4);
    assert_eq!(published(None, true, &undisturbed), 6);
    assert_eq!(published(Some(4), true, &[false, false, true, false]), 2);
    assert_eq!(published(None, false, &[true]), 0);
}

fn echo(raw: bool, once: bool, samples: &[(&str, Vec<u8>)]) -> Vec<String> {
    let options = EchoOptions { output: TopicOutput::Debug, raw, once };
    let mut warnings = ContractWarningThrottle::default();
    let mut shown = Vec::new();
    for (encoding, payload) in samples {
        let step = echo_sample(options, &mut warnings, "k", encoding, payload, None, 0);
        match step.print {
            EchoPrint::Warning(warning) => {
                assert!(step.goes_on);
                shown.extend(warning);
            }
            EchoPrint::Dump(text) => shown.push(text),
            EchoPrint::Sample(SamplePrint::Lines(lines)) => shown.push(lines[1].clone()),
            EchoPrint::Sample(SamplePrint::Json(line)) => shown.push(line.topic),
        }
        if !step.goes_on {
            break;
        }
    }
    shown
}

#[test]
fn one_accepted_sample_ends_an_echo_that_asks_for_one() {
    let contract = health().zenoh_encoding();
    let samples = [
        ("zenoh/bytes", vec![1]),
        (contract.as_str(), payload(1)),
        ("zenoh/bytes", vec![2]),
        (contract.as_str(), vec![0xa0, 7]),
    ];
    let warning = "warning: rejecting k: topic k has no valid Synapse value contract".to_owned();
    let kind = "type: synapse.topic.VehicleHealthData".to_owned();
    assert_eq!(echo(false, false, &samples), vec![warning.clone(), kind.clone(), kind.clone()]);
    assert_eq!(echo(false, true, &samples), vec![warning.clone(), kind]);
    let dumps = echo(true, false, &samples);
    assert_eq!(dumps.len(), 3);
    assert_eq!(dumps[0], warning);
    assert!(dumps[1].starts_with("01 00 00"));
    assert_eq!(dumps[2], "a0 07");
    assert_eq!(echo(true, true, &samples).len(), 2);
}

#[test]
fn what_is_echoed_follows_from_the_intake() {
    let options = EchoOptions { output: TopicOutput::Json, raw: false, once: true };
    let step = echo_intake(options, "k", Intake::Rejected(None), &[1]);
    assert!(step.goes_on);
    assert!(matches!(step.print, EchoPrint::Warning(None)));
    let step = echo_intake(options, "k", Intake::Accepted(health()), &[1]);
    assert!(!step.goes_on);
    match step.print {
        EchoPrint::Sample(SamplePrint::Json(line)) => {
            assert_eq!(line.payload_base64, "AQ==");
            assert_eq!(line.decoded, None);
        }
        print => panic!("{print:?}"),
    }
}
