use csyn::catalog::topics;
use csyn::types::{find_topic, publish_key, subscribe_keyexpr, TopicType};
use zenoh::bytes::Encoding;

#[test]
fn finds_topics_by_name_key_and_wire_type() {
    assert!(TopicType::find("VehicleHealth").is_some());
    assert!(TopicType::find("health").is_some());
    assert!(TopicType::find("synapse.topic.VehicleHealthData").is_some());
    assert!(TopicType::find("no_such_topic").is_none());
}

#[test]
fn infers_topics_from_key_expressions() {
    let known = TopicType::infer("cub1/att").unwrap();
    assert_eq!(known.topic.name, "AttitudeEstimate");
    assert_eq!(known.schema.file, known.topic.schema_file);

    let instanced = TopicType::infer("cub1/imu/0").unwrap();
    assert_eq!(instanced.topic.name, "InertialSample");
}

#[test]
fn uses_the_0_8_topic_keys() {
    assert_eq!(
        TopicType::infer("qualisys/cub1/odom").unwrap().topic.name,
        "Odometry"
    );
    assert_eq!(
        TopicType::infer("qualisys/cub1/odom_cov")
            .unwrap()
            .topic
            .name,
        "OdometryWithCovariance"
    );
    assert_eq!(
        TopicType::find("MocapPoseFrame").unwrap().topic.key,
        "mocap"
    );
    assert_eq!(
        TopicType::infer("qualisys/mocap").unwrap().topic.name,
        "MocapPoseFrame"
    );
}

#[test]
fn requires_an_exact_zenoh_value_contract() {
    let known = TopicType::find("VehicleHealth").unwrap();
    let encoding = known.zenoh_encoding();
    assert_eq!(Encoding::from(encoding.as_str()).to_string(), encoding);
    assert_eq!(
        TopicType::from_value_encoding(&encoding)
            .unwrap()
            .topic
            .name,
        "VehicleHealth"
    );

    assert!(TopicType::from_value_encoding(&Encoding::ZENOH_BYTES.to_string()).is_err());
    let unknown = Encoding::from(
        "application/x-synapse-struct;type=synapse.topic.UnknownData;schema=sha256-128:00000000000000000000000000000000",
    );
    assert!(
        TopicType::from_value_encoding(&unknown.to_string())
            .unwrap_err()
            .message()
            .contains("unknown Synapse wire type")
    );
    let mismatched = Encoding::from(
        encoding
            .to_string()
            .replace("schema=sha256-128:", "schema=sha256-128:deadbeef"),
    );
    assert!(TopicType::from_value_encoding(&mismatched.to_string()).is_err());
    let extra = Encoding::from(format!("{encoding};extra=not-allowed"));
    assert!(TopicType::from_value_encoding(&extra.to_string()).is_err());
}

#[test]
fn reads_table_publication_timestamps_for_mcap() {
    let mut builder = flatbuffers::FlatBufferBuilder::new();
    let text = builder.create_string("ready");
    let root = synapse_fbs::topic::TextStatus::create(
        &mut builder,
        &synapse_fbs::topic::TextStatusArgs {
            timestamp_us: 123,
            text: Some(text),
            ..Default::default()
        },
    );
    builder.finish(root, None);

    let known = TopicType::find("TextStatus").unwrap();
    assert_eq!(
        known
            .mcap_publish_time_ns(builder.finished_data(), 999)
            .unwrap(),
        123_000
    );
}

#[test]
fn expands_bare_names_to_key_expressions() {
    assert_eq!(subscribe_keyexpr("VehicleHealth"), "**/health/**");
    assert_eq!(subscribe_keyexpr("health"), "**/health/**");
    assert_eq!(subscribe_keyexpr("a/b/**"), "a/b/**");
    assert_eq!(publish_key("VehicleHealth"), "health");
    assert_eq!(publish_key("health"), "health");
}

#[test]
fn every_topic_has_schema_and_wire_type() {
    for known in TopicType::all() {
        assert!(!known.schema.bfbs.is_empty(), "{}", known.topic.name);
        assert!(known.wire_type().is_some(), "{}", known.topic.name);
        assert_eq!(known.schema_hash().len(), 32, "{}", known.topic.name);
    }
}

#[test]
fn decodes_fixed_layout_payloads() {
    let known = TopicType::find("ControlLoopMetrics").unwrap();
    let payload = vec![0_u8; known.topic.payload_size.unwrap()];
    let rendered = known.decode(&payload).unwrap();
    assert!(rendered.contains("timestamp_us"));
    assert!(known.decode(&payload[1..]).is_err());
}

#[test]
fn every_topic_is_found_by_each_of_its_names() {
    let all = TopicType::all();
    assert_eq!(all.len(), synapse_fbs::topic_catalog::TOPICS.len());
    for (index, known) in all.iter().enumerate() {
        assert_eq!(known.topic.id as usize, index + 1);
        for name in [
            known.topic.name,
            known.topic.key,
            known.topic.root_table,
            known.topic.wire_type,
            known.topic.mcap_schema_name,
            known.topic.name.to_uppercase().as_str(),
            known.topic.wire_type.to_lowercase().as_str(),
        ] {
            assert_eq!(TopicType::find(name).unwrap().topic.id, known.topic.id, "{name}");
        }
    }
}

#[test]
fn every_key_is_inferred_under_namespaces_and_with_instances() {
    for known in TopicType::all() {
        for path in [
            format!("{}", known.topic.key),
            format!("ns/{}", known.topic.key),
            format!("a/b/{}", known.topic.key),
            format!("{}/7", known.topic.key),
            format!("ns/{}/123456789", known.topic.key),
            format!("/ns/{}/", known.topic.key),
        ] {
            assert_eq!(TopicType::infer(&path).unwrap().topic.id, known.topic.id, "{path}");
        }
        assert!(TopicType::infer(&format!("ns/{}/1234567890", known.topic.key)).is_none());
        assert!(TopicType::infer(&format!("{}/x", known.topic.key)).is_none());
        assert!(TopicType::infer(&format!("x{}", known.topic.key)).is_none());
    }
    assert!(TopicType::infer("").is_none());
    assert!(TopicType::infer("/").is_none());
}

#[test]
fn every_contract_names_its_topic() {
    for known in TopicType::all() {
        let encoding = known.zenoh_encoding();
        assert!(encoding.ends_with(known.schema_hash()));
        let back = TopicType::from_value_encoding(&encoding).unwrap();
        assert_eq!(back.topic.id, known.topic.id);
    }
}

#[test]
fn refused_contracts_are_worded() {
    let health = TopicType::find("VehicleHealth").unwrap();
    assert_eq!(
        TopicType::from_value_encoding("zenoh/bytes").unwrap_err().message(),
        "Synapse value encoding is missing type metadata"
    );
    assert_eq!(
        TopicType::from_value_encoding("a;type=nope").unwrap_err().message(),
        "unknown Synapse wire type nope"
    );
    let near = format!("a;type={}", health.topic.wire_type);
    assert_eq!(
        TopicType::from_value_encoding(&near).unwrap_err().message(),
        format!(
            "incompatible value contract for VehicleHealth: expected {}, received {near}",
            health.zenoh_encoding()
        )
    );
}

#[test]
fn unknown_topics_are_worded() {
    let error = TopicType::require("nope").unwrap_err();
    assert_eq!(error.message(), "unknown Synapse topic 'nope'");
    assert_eq!(error.cause(), None);
    assert_eq!(TopicType::require("health").unwrap().topic.name, "VehicleHealth");
}

#[test]
fn names_come_before_keys_and_keys_before_types() {
    let all = topics();
    let odometry = all[0];
    let named = find_topic(&all, Some(all[1]), odometry.name).unwrap();
    assert_eq!(named.id, odometry.id);
    let keyed = find_topic(&all, Some(all[1]), odometry.wire_type).unwrap();
    assert_eq!(keyed.id, all[1].id);
    let typed = find_topic(&all, None, odometry.wire_type).unwrap();
    assert_eq!(typed.id, odometry.id);
    assert!(find_topic(&all, None, "nope").is_none());
    assert!(find_topic(&vec![], None, odometry.name).is_none());
}

#[test]
fn decoding_failures_are_worded() {
    let health = TopicType::find("VehicleHealth").unwrap();
    let size = health.topic.payload_size.unwrap();
    assert_eq!(
        health.decode(&[1, 2, 3]).unwrap_err().message(),
        format!("VehicleHealth: payload is 3 bytes, catalog expects {size}")
    );
    let text = TopicType::find("TextStatus").unwrap();
    assert_eq!(
        text.decode(&[1, 2, 3]).unwrap_err().message(),
        "TextStatus: payload failed FlatBuffers verification"
    );
}

#[test]
fn mcap_payloads_are_converted_there_and_back() {
    for known in TopicType::all() {
        if let Some(size) = known.topic.payload_size {
            let mut payload: Vec<u8> = (0..size).map(|i| (i % 251) as u8).collect();
            payload[0..8].copy_from_slice(&42_u64.to_le_bytes());
            let message = known.to_mcap_payload(&payload).unwrap();
            assert_eq!(message.len(), size + 14);
            assert_eq!(known.mcap_to_zenoh_payload(&message).unwrap(), payload.as_slice());
            assert_eq!(known.mcap_publish_time_ns(&payload, 5).unwrap(), 42_000);
            assert!(known.to_mcap_payload(&payload[1..]).is_err());
        }
    }
}

#[test]
fn mcap_payloads_that_are_no_wrappers_are_refused() {
    let health = TopicType::find("VehicleHealth").unwrap();
    let size = health.topic.payload_size.unwrap();
    let error = health.mcap_to_zenoh_payload(&[0; 3]).unwrap_err();
    assert_eq!(
        error.message(),
        format!("invalid fixed-layout MCAP wrapper (3 bytes, expected {})", size + 14)
    );
    let mut message = health.to_mcap_payload(&vec![0; size]).unwrap();
    message[4] ^= 1;
    assert!(health.mcap_to_zenoh_payload(&message).is_err());
    let text = TopicType::find("TextStatus").unwrap();
    assert!(text.mcap_to_zenoh_payload(&[0; 3]).is_err());
}

#[test]
fn timestamps_that_overflow_are_refused() {
    let health = TopicType::find("VehicleHealth").unwrap();
    let mut payload = vec![0_u8; health.topic.payload_size.unwrap()];
    payload[0..8].copy_from_slice(&u64::MAX.to_le_bytes());
    let error = health.mcap_publish_time_ns(&payload, 5).unwrap_err();
    assert_eq!(error.message(), "VehicleHealth timestamp_us overflows nanoseconds");
    payload[0..8].copy_from_slice(&(u64::MAX / 1000).to_le_bytes());
    assert_eq!(
        health.mcap_publish_time_ns(&payload, 5).unwrap(),
        u64::MAX / 1000 * 1000
    );
}

#[test]
fn tables_without_a_timestamp_fall_back_to_the_log_time() {
    let mut builder = flatbuffers::FlatBufferBuilder::new();
    let text = builder.create_string("ready");
    let root = synapse_fbs::topic::TextStatus::create(
        &mut builder,
        &synapse_fbs::topic::TextStatusArgs { text: Some(text), ..Default::default() },
    );
    builder.finish(root, None);
    let known = TopicType::find("TextStatus").unwrap();
    assert_eq!(known.mcap_publish_time_ns(builder.finished_data(), 999).unwrap(), 999);
    let message = known.to_mcap_payload(builder.finished_data()).unwrap();
    assert_eq!(message, builder.finished_data());
    assert_eq!(known.mcap_to_zenoh_payload(&message).unwrap(), message.as_slice());
}

#[test]
fn unknown_names_pass_through_as_keys() {
    assert_eq!(subscribe_keyexpr("nope"), "nope");
    assert_eq!(publish_key("nope"), "nope");
    assert_eq!(publish_key("a/health"), "a/health");
    assert_eq!(publish_key(&publish_key("VehicleHealth")), "health");
}

#[test]
fn type_accessors_agree_with_the_catalog() {
    let known = TopicType::find("VehicleHealth").unwrap();
    assert_eq!(known.wire_type(), Some("synapse.topic.VehicleHealthData"));
    assert_eq!(known.mcap_schema().bfbs, known.schema.bfbs);
    assert_eq!(known.topic.mcap_schema_name, "synapse.topic.VehicleHealth");
    let entry = synapse_fbs::topic_catalog::topic_by_key("health").unwrap();
    assert_eq!(known.schema_hash(), entry.schema_hash);
    assert_eq!(known.topic.encoding, entry.encoding);
    assert_eq!(known.topic.description, entry.description);
}

#[test]
fn the_catalog_is_sound() {
    let all = topics();
    for (i, a) in all.iter().enumerate() {
        let names = [a.name, a.key, a.root_table, a.wire_type, a.mcap_schema_name];
        assert!(names.iter().all(|name| !name.contains('/')));
        assert!(!a.key.is_empty());
        assert!(!a.key.chars().all(|c| c.is_ascii_digit()));
        assert_eq!(a.fixed_layout, a.payload_size.is_some());
        assert!(a.payload_size.map_or(true, |size| (8..=1024).contains(&size)));
        assert_eq!(a.schema_hash.len(), 32);
        assert!(a.schema_hash.chars().all(|c| matches!(c, '0'..='9' | 'a'..='f')));
        for b in &all[i + 1..] {
            let others = [b.name, b.key, b.root_table, b.wire_type, b.mcap_schema_name];
            for name in names {
                assert!(others.iter().all(|other| !other.eq_ignore_ascii_case(name)), "{name}");
            }
        }
    }
}
