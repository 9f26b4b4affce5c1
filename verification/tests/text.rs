use csyn::error::{DecodeFailure, Error};
use csyn::ordered::OrderedMap;
use csyn::payload::{
    read_le, read_table_field, same_bytes, unwrap_fixed_payload, wrap_fixed_payload,
};
use csyn::text::{
    chars_of, contains_char, copy_text, equal_ignoring_case, hex_dump, join, label, number,
    pad_left, pad_right, place, replace_char, same, split, Place,
};
use csyn::zenoh_util::{config, connection_hint, session_error, DEFAULT_CONNECT};

#[test]
fn default_connection_hint_mentions_zenohd() {
    let hint = connection_hint(DEFAULT_CONNECT);

    assert!(hint.contains("zenohd -l tcp/127.0.0.1:7447"));
    assert!(hint.contains("csyn --connect tcp/<host>:7447 topic list"));
}

#[test]
fn connection_hints_are_worded() {
    assert_eq!(
        connection_hint(DEFAULT_CONNECT),
        "hint: make sure a Zenoh router is reachable at `tcp/127.0.0.1:7447`.\n\
         start a local router in another terminal with:\n  zenohd -l tcp/127.0.0.1:7447\n\
         or point csyn at an existing router with:\n  csyn --connect tcp/<host>:7447 topic list\n  \
         CSYN_CONNECT=tcp/<host>:7447 csyn topic list"
    );
    assert!(connection_hint("tcp/a:1").starts_with(
        "hint: make sure a Zenoh router is reachable at `tcp/a:1`.\nfor a local router, use:\n"
    ));
    assert_eq!(
        session_error("tcp/a:1", "no route"),
        format!(
            "failed to open Zenoh session at tcp/a:1: no route\n\n{}",
            connection_hint("tcp/a:1")
        )
    );
}

#[test]
fn a_client_is_configured_with_its_endpoint() {
    let entries = config("tcp/a:1");
    assert_eq!(entries.len(), 2);
    assert_eq!(entries[0].path, "mode");
    assert_eq!(entries[0].value, "\"client\"");
    assert_eq!(entries[1].path, "connect/endpoints");
    assert_eq!(entries[1].value, "[\"tcp/a:1\"]");
    let mut zenoh = zenoh::config::Config::default();
    for entry in &entries {
        assert!(zenoh.insert_json5(&entry.path, &entry.value).is_ok(), "{}", entry.subject);
    }
}

#[test]
fn strings_are_ordered_by_their_bytes() {
    let words = ["", "a", "aa", "ab", "b", "z", "~", "é", "€", "𝄞"];
    for (i, a) in words.iter().enumerate() {
        for (j, b) in words.iter().enumerate() {
            let expected = if i < j {
                Place::Before
            } else if i == j {
                Place::Same
            } else {
                Place::After
            };
            assert_eq!(place(a, b), expected, "{a} {b}");
            assert_eq!(a < b, expected == Place::Before);
            assert_eq!(same(a, b), i == j);
        }
    }
}

#[test]
fn strings_are_taken_apart_and_put_together() {
    assert_eq!(chars_of("aé"), vec!['a', 'é']);
    assert!(contains_char("a/b", '/'));
    assert!(!contains_char("", '/'));
    assert_eq!(split("", '/'), vec![""]);
    assert_eq!(split("a//b/", '/'), vec!["a", "", "b", ""]);
    assert_eq!(join(&vec![], ", "), "");
    assert_eq!(join(&vec!["a".to_owned(), "b".to_owned(), "c".to_owned()], ", "), "a, b, c");
    assert_eq!(replace_char("a/b/c", '/', '_'), "a_b_c");
    assert!(equal_ignoring_case("Odometry", "ODOMETRY"));
    assert!(!equal_ignoring_case("É", "é"));
    assert!(!equal_ignoring_case("a", "ab"));
    assert_eq!(label("id", "7"), "id: 7");
    assert_eq!(copy_text(&Some("x".to_owned())), Some("x".to_owned()));
    assert_eq!(copy_text(&None), None);
}

#[test]
fn numbers_are_written_out() {
    assert_eq!(number(0), "0");
    assert_eq!(number(10), "10");
    assert_eq!(number(u64::MAX), "18446744073709551615");
    assert_eq!(hex_dump(&[]), "");
    assert_eq!(hex_dump(&[0, 0x0f, 0xa5, 0xff]), "00 0f a5 ff");
    assert_eq!(pad_right("ab", 4), "ab  ");
    assert_eq!(pad_left("ab", 4), "  ab");
    assert_eq!(pad_left("abcd", 2), "abcd");
    assert_eq!(pad_right("é", 2), "é ");
}

#[test]
fn maps_keep_their_keys_in_order() {
    let mut map: OrderedMap<String> = OrderedMap::new();
    for key in ["b", "a", "c", "a"] {
        map.insert(key.to_owned(), format!("{key}1"));
    }
    assert_eq!(map.len(), 3);
    assert_eq!(map.key_at(0), "a");
    assert_eq!(map.value_at(2), "c1");
    map.insert_if_absent("a".to_owned(), "other".to_owned());
    map.insert_if_absent("d".to_owned(), "d2".to_owned());
    assert_eq!(map.get("a").unwrap(), "a1");
    assert!(map.contains_key("d"));
    assert!(map.get("e").is_none());
    assert_eq!(map.remove("b").unwrap(), "b1");
    assert!(map.remove("b").is_none());
    assert_eq!(map.into_values(), vec!["a1", "c1", "d2"]);
}

#[test]
fn wrapper_tables_have_a_fixed_layout() {
    let message = wrap_fixed_payload(&[1, 2, 3]).unwrap();
    assert_eq!(
        message,
        vec![4, 0, 0, 0, 249, 255, 255, 255, 1, 2, 3, 6, 0, 7, 0, 4, 0]
    );
    assert_eq!(unwrap_fixed_payload(&message, 3).unwrap(), &[1, 2, 3]);
    assert!(matches!(
        unwrap_fixed_payload(&message, 4),
        Err(Error::InvalidWrapper { actual: 17, expected: 18 })
    ));
    for index in [0, 4, 7, 11, 13, 15] {
        let mut broken = message.clone();
        broken[index] ^= 0x40;
        assert!(unwrap_fixed_payload(&broken, 3).is_err(), "{index}");
    }
    assert!(matches!(
        unwrap_fixed_payload(&message, usize::MAX),
        Err(Error::UnwrapOverflow)
    ));
    assert_eq!(
        Error::UnwrapOverflow.message(),
        "fixed MCAP payload size overflow"
    );
    assert!(wrap_fixed_payload(&vec![0; 65531]).is_ok());
    let error = wrap_fixed_payload(&vec![0; 65532]).unwrap_err();
    assert!(matches!(error, Error::WrapTooLarge));
    assert_eq!(error.message(), "fixed payload is too large to wrap");
}

#[test]
fn bytes_are_read_as_numbers() {
    assert_eq!(read_le(&[1, 2, 3, 4], 1, 2), 0x0302);
    assert_eq!(read_le(&[255; 8], 0, 8), u64::MAX);
    assert!(same_bytes(&[1, 2], &[1, 2]));
    assert!(!same_bytes(&[1, 2], &[1, 3]));
    assert!(!same_bytes(&[1, 2], &[1]));
    assert_eq!(read_table_field(&[], 4), None);
    assert_eq!(read_table_field(&[255; 40], 4), None);
    let mut table = vec![12, 0, 0, 0, 6, 0, 12, 0, 4, 0, 0, 0];
    table.extend_from_slice(&8_u32.to_le_bytes());
    table.extend_from_slice(&77_u64.to_le_bytes());
    assert_eq!(read_table_field(&table, 4), Some(77));
    assert_eq!(read_table_field(&table, 6), None);
}

#[test]
fn decode_failures_are_worded() {
    assert_eq!(
        DecodeFailure::UnknownTopic.message(),
        "topic has no generated decoder"
    );
    assert_eq!(
        DecodeFailure::PayloadSize { expected: 4, actual: 2 }.message(),
        "payload is 2 bytes, catalog expects 4"
    );
    assert_eq!(
        DecodeFailure::InvalidFlatbuffer.message(),
        "payload failed FlatBuffers verification"
    );
    assert_eq!(Error::ClockBeforeEpoch.message(), "system time is before Unix epoch");
    let error = Error::AddChannel { key: "k".to_owned(), cause: "full".to_owned() };
    assert_eq!(error.message(), "failed to add Synapse MCAP channel k");
    assert_eq!(error.cause().unwrap(), "full");
    let error = Error::WriteSample { key: "k".to_owned(), cause: "full".to_owned() };
    assert_eq!(error.message(), "failed to write Synapse MCAP sample on k");
    let error = Error::FinishBag { cause: "full".to_owned() };
    assert_eq!(error.message(), "failed to finish Synapse MCAP file");
    let error = Error::OpenMessages { cause: "x".to_owned() };
    assert_eq!(error.message(), "failed to open bag");
    let error = Error::OpenRecords { cause: "x".to_owned() };
    assert_eq!(error.message(), "failed to open MCAP");
}
