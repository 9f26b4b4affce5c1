//! The Synapse topic catalog and the embedded schemas of the pinned
//! `synapse_fbs` release.

use synapse_fbs::schemas;
use synapse_fbs::topic_catalog;
use synapse_fbs::topic_decode;
use synapse_fbs::value_contract;
use vstd::prelude::*;

use crate::error::DecodeFailure;
use crate::text::{has_prefix, is_hex_128, pieces, pieces_of_texts_that_meet, same_ignoring_case};

verus! {

/// The number of topics in the catalog. Their ids count from one.
pub const TOPIC_COUNT: usize = 42;

/// A topic of the catalog.
#[derive(Clone, Copy, Debug)]
pub struct TopicInfo {
    pub id: u16,
    pub name: &'static str,
    /// Canonical short key, published as `[<namespace>/]<key>[/<instance>]`.
    pub key: &'static str,
    pub root_table: &'static str,
    /// Size of the payload of a fixed-layout topic.
    pub payload_size: Option<usize>,
    pub schema_file: &'static str,
    /// Fully qualified MCAP schema name of the rooted topic table.
    pub mcap_schema_name: &'static str,
    /// Fully qualified FlatBuffers type carried in the value bytes.
    pub wire_type: &'static str,
    /// Fingerprint of the wire type's transitive schema.
    pub schema_hash: &'static str,
    pub fixed_layout: bool,
    pub encoding: &'static str,
    pub description: &'static str,
}

/// A schema file with its compiled form.
#[derive(Clone, Copy, Debug)]
pub struct EmbeddedSchema {
    pub name: &'static str,
    pub file: &'static str,
    pub fbs: &'static str,
    pub bfbs: &'static [u8],
    pub root_type: Option<&'static str>,
    pub file_identifier: Option<&'static str>,
}

/// The catalog's topic at a place.
pub uninterp spec fn catalog_topic(index: int) -> TopicInfo;

/// The embedded schema that goes by a name.
pub uninterp spec fn embedded_schema(name: Seq<char>) -> Option<EmbeddedSchema>;

/// What decoding a payload as the topic with an id gives.
pub uninterp spec fn decoded_text(id: u16, payload: Seq<u8>) -> Result<Seq<char>, DecodeFailure>;

/// All topics of the catalog.
pub open spec fn catalog() -> Seq<TopicInfo> {
    Seq::new(TOPIC_COUNT as nat, |i: int| catalog_topic(i))
}

/// Whether `segment` is an instance number: one to nine decimal digits.
pub open spec fn is_instance(segment: Seq<char>) -> bool {
    &&& 1 <= segment.len() <= 9
    &&& forall|i: int| 0 <= i < segment.len() ==> '0' <= #[trigger] segment[i] <= '9'
}

/// Whether `path` is `[<namespace>/]<key>`.
pub open spec fn ends_in_key(path: Seq<char>, key: Seq<char>) -> bool {
    path == key || exists|namespace: Seq<char>| path == #[trigger] (namespace + seq!['/']) + key
}

/// Whether `path` is `[<namespace>/]<key>[/<instance>]`.
pub open spec fn addresses(path: Seq<char>, key: Seq<char>) -> bool {
    ends_in_key(path, key) || exists|start: Seq<char>, instance: Seq<char>|
        path == #[trigger] (start + seq!['/'] + instance) && ends_in_key(start, key) && is_instance(
            instance,
        )
}

/// `path` without the slashes at its two ends.
pub open spec fn without_outer_slashes(path: Seq<char>) -> Seq<char>
    decreases path.len(),
{
    if path.len() > 0 && path[0] == '/' {
        without_outer_slashes(path.drop_first())
    } else if path.len() > 0 && path.last() == '/' {
        without_outer_slashes(path.drop_last())
    } else {
        path
    }
}

/// The value contract of a topic: media type, wire type and schema fingerprint.
pub open spec fn contract_text(topic: TopicInfo) -> Seq<char> {
    (if topic.fixed_layout {
        "application/x-synapse-struct"@
    } else {
        "application/x-flatbuffers"@
    }) + ";type="@ + topic.wire_type@ + ";schema=sha256-128:"@ + topic.schema_hash@
}

/// The rest of the first field that begins with `type=`.
pub open spec fn type_field(fields: Seq<Seq<char>>) -> Option<Seq<char>>
    decreases fields.len(),
{
    if fields.len() == 0 {
        None
    } else if has_prefix(fields[0], "type="@) {
        Some(fields[0].skip("type="@.len() as int))
    } else {
        type_field(fields.drop_first())
    }
}

/// The first topic with a wire type.
pub open spec fn first_with_wire_type(topics: Seq<TopicInfo>, wire_type: Seq<char>) -> Option<TopicInfo>
    decreases topics.len(),
{
    if topics.len() == 0 {
        None
    } else if topics[0].wire_type@ == wire_type {
        Some(topics[0])
    } else {
        first_with_wire_type(topics.drop_first(), wire_type)
    }
}

/// Why an encoding is refused that is no topic's value contract.
pub open spec fn contract_error(encoding: Seq<char>) -> Seq<char> {
    match type_field(pieces(encoding, ';')) {
        None => "Synapse value encoding is missing type metadata"@,
        Some(wire_type) => match first_with_wire_type(catalog(), wire_type) {
            None => "unknown Synapse wire type "@ + wire_type,
            Some(topic) => "incompatible value contract for "@ + topic.name@ + ": expected "@
                + contract_text(topic) + ", received "@ + encoding,
        },
    }
}

/// Whether `name` is one of the strings by which a topic is known.
pub open spec fn identifies(topic: TopicInfo, name: Seq<char>) -> bool {
    ||| same_ignoring_case(topic.name@, name)
    ||| same_ignoring_case(topic.key@, name)
    ||| same_ignoring_case(topic.root_table@, name)
    ||| same_ignoring_case(topic.wire_type@, name)
    ||| same_ignoring_case(topic.mcap_schema_name@, name)
}

/// Whether two topics share none of the strings by which they are known.
pub open spec fn distinct(a: TopicInfo, b: TopicInfo) -> bool {
    !exists|name: Seq<char>| #[trigger] identifies(a, name) && identifies(b, name)
}

/// What holds of every catalog entry by itself: its id counts its place, the
/// strings by which it is known have no slash, its key could not be taken for an
/// instance number, it has a payload size exactly if its layout is fixed, and its
/// fingerprint has 128 bits.
pub open spec fn entry_sound(index: int, topic: TopicInfo) -> bool {
    &&& topic.id == index + 1
    &&& forall|name: Seq<char>| #[trigger] identifies(topic, name) ==> !name.contains('/')
    &&& topic.key@.len() > 0
    &&& !is_instance(topic.key@)
    &&& topic.fixed_layout == (topic.payload_size is Some)
    &&& topic.payload_size matches Some(size) ==> 8 <= size <= 1024
    &&& is_hex_128(topic.schema_hash@)
}

/// What holds of the catalog as a whole: every entry is sound and no two share a
/// string by which they are known.
pub open spec fn catalog_sound() -> bool {
    &&& forall|i: int| 0 <= i < TOPIC_COUNT ==> entry_sound(i, #[trigger] catalog()[i])
    &&& forall|i: int, j: int|
        0 <= i < TOPIC_COUNT && 0 <= j < TOPIC_COUNT && i != j ==> distinct(
            #[trigger] catalog()[i],
            #[trigger] catalog()[j],
        )
}

/// The entry of `synapse_fbs::topic_catalog::TOPICS` at `index`.
///
/// Of the table, which is a constant of the pinned release, this claims what
/// [`entry_sound`] and [`distinct`] say. The rest of the entry is a name.
#[verifier::external_body]
pub(crate) fn catalog_entry(index: usize) -> (r: TopicInfo)
    requires
        index < TOPIC_COUNT,
    ensures
        r == catalog_topic(index as int),
        entry_sound(index as int, r),
        forall|j: int| 0 <= j < TOPIC_COUNT && j != index ==> distinct(r, #[trigger] catalog()[j]),
{
    let t = &topic_catalog::TOPICS[index];
    TopicInfo {
        id: t.id, name: t.name, key: t.key, root_table: t.root_table,
        payload_size: t.payload_size, schema_file: t.schema_file,
        mcap_schema_name: t.mcap_schema_name, wire_type: t.wire_type,
        schema_hash: t.schema_hash, fixed_layout: t.fixed_layout,
        encoding: t.encoding, description: t.description,
    }
}

/// `synapse_fbs::schemas::schema_by_name`: the embedded schema with this stem or
/// source path.
///
/// The schema is a name. Beside it this claims that the schema file of every
/// catalog topic is embedded, under that very path, with a compiled form.
#[verifier::external_body]
pub(crate) fn schema_by_name(name: &str) -> (r: Option<EmbeddedSchema>)
    ensures
        r == embedded_schema(name@),
        forall|i: int|
            0 <= i < TOPIC_COUNT && (#[trigger] catalog()[i]).schema_file@ == name@ ==> r is Some
                && r->Some_0.file@ == name@ && r->Some_0.bfbs@.len() > 0,
{
    schemas::schema_by_name(name).map(
        |s| EmbeddedSchema {
            name: s.name, file: s.file, fbs: s.fbs, bfbs: s.bfbs,
            root_type: s.root_type, file_identifier: s.file_identifier,
        },
    )
}

/// `synapse_fbs::topic_catalog::topic_by_key`: the id of the topic whose key a key
/// expression addresses.
///
/// The expression, without the slashes at its ends, has to be
/// `[<namespace>/]<key>[/<instance>]`. At most one topic is addressed so.
#[verifier::external_body]
pub(crate) fn topic_id_by_key(key: &str) -> (r: Option<u16>)
    ensures
        r matches Some(id) ==> 1 <= id <= TOPIC_COUNT && addresses(
            without_outer_slashes(key@),
            catalog()[id - 1].key@,
        ),
        forall|i: int|
            0 <= i < TOPIC_COUNT && addresses(
                without_outer_slashes(key@),
                (#[trigger] catalog()[i]).key@,
            ) ==> r == Some((i + 1) as u16),
{
    topic_catalog::topic_by_key(key).map(|topic| topic.id)
}

/// `synapse_fbs::value_contract::encoding_for_topic`: the value contract of the
/// topic with this id.
#[verifier::external_body]
pub(crate) fn contract_of(id: u16) -> (r: String)
    requires
        1 <= id <= TOPIC_COUNT,
    ensures
        r@ == contract_text(catalog()[id - 1]),
{
    value_contract::encoding_for_topic(topic_catalog::topic_by_id(id).unwrap())
}

/// `synapse_fbs::value_contract::topic_for_encoding`: the id of the topic whose
/// value contract the encoding is.
///
/// Only the exact text of a topic's contract is accepted. The reason for a refusal
/// is the text of the `ContractError`.
#[verifier::external_body]
pub(crate) fn topic_id_for_encoding(encoding: &str) -> (r: Result<u16, String>)
    ensures
        r matches Ok(id) ==> 1 <= id <= TOPIC_COUNT && contract_text(catalog()[id - 1]) == encoding@,
        forall|i: int|
            0 <= i < TOPIC_COUNT && contract_text(#[trigger] catalog()[i]) == encoding@ ==> r is Ok
                && r->Ok_0 == i + 1,
        r matches Err(reason) ==> reason@ == contract_error(encoding@),
{
    match value_contract::topic_for_encoding(encoding) {
        Ok(topic) => Ok(topic.id),
        Err(error) => Err(error.to_string()),
    }
}

/// `synapse_fbs::topic_decode::decode_topic_debug`: the payload rendered in the
/// pretty `Debug` format of the topic with this id.
///
/// The rendering is a name. Beside it this claims when decoding fails: a
/// fixed-layout payload decodes exactly if it has the topic's size; a root table
/// fails only as an invalid FlatBuffer.
#[verifier::external_body]
pub(crate) fn decode_by_id(id: u16, payload: &[u8]) -> (r: Result<String, DecodeFailure>)
    requires
        1 <= id <= TOPIC_COUNT,
    ensures
        match r {
            Ok(text) => decoded_text(id, payload@) == Ok::<Seq<char>, DecodeFailure>(text@),
            Err(failure) => decoded_text(id, payload@) == Err::<Seq<char>, DecodeFailure>(failure),
        },
        catalog()[id - 1].payload_size matches Some(size) ==> (r is Ok <==> payload@.len() == size),
        catalog()[id - 1].payload_size matches Some(size) ==> (r matches Err(failure) ==> failure
            == (DecodeFailure::PayloadSize { expected: size, actual: payload@.len() as usize })),
        catalog()[id - 1].payload_size is None ==> (r matches Err(failure) ==> failure
            == DecodeFailure::InvalidFlatbuffer),
{
    match topic_decode::decode_topic_debug(topic_catalog::topic_by_id(id).unwrap(), payload) {
        Ok(text) => Ok(text),
        Err(topic_decode::DecodeError::UnknownTopic) => Err(DecodeFailure::UnknownTopic),
        Err(topic_decode::DecodeError::PayloadSize { expected, actual }) => Err(
            DecodeFailure::PayloadSize { expected, actual },
        ),
        Err(topic_decode::DecodeError::InvalidFlatbuffer) => Err(DecodeFailure::InvalidFlatbuffer),
    }
}

/// All topics of the catalog, in the order of their ids.
pub fn topics() -> (r: Vec<TopicInfo>)
    ensures
        r@ == catalog(),
        catalog_sound(),
{
    let mut r: Vec<TopicInfo> = Vec::new();
    let mut i: usize = 0;
    while i < TOPIC_COUNT
        invariant
            i <= TOPIC_COUNT,
            r@ == catalog().take(i as int),
            forall|k: int| 0 <= k < i ==> entry_sound(k, #[trigger] catalog()[k]),
            forall|k: int, j: int|
                0 <= k < i && 0 <= j < TOPIC_COUNT && k != j ==> distinct(
                    #[trigger] catalog()[k],
                    #[trigger] catalog()[j],
                ),
        decreases TOPIC_COUNT - i,
    {
        let topic = catalog_entry(i);
        r.push(topic);
        assert(topic == catalog()[i as int]);
        assert(catalog().take(i + 1) =~= catalog().take(i as int).push(topic));
        i = i + 1;
    }
    assert(catalog().take(i as int) =~= catalog());
    r
}

/// Slashes at the two ends of a path are no part of it, however many there are; slashes
/// inside stay.
pub proof fn slashes_at_the_ends_are_no_part(path: Seq<char>, leading: nat, trailing: nat)
    requires
        path.len() > 0 ==> path[0] != '/' && path.last() != '/',
    ensures
        without_outer_slashes(
            Seq::new(leading, |i: int| '/') + path + Seq::new(trailing, |i: int| '/'),
        ) == path,
    decreases leading + trailing,
{
    let text = Seq::new(leading, |i: int| '/') + path + Seq::new(trailing, |i: int| '/');
    if leading > 0 {
        slashes_at_the_ends_are_no_part(path, (leading - 1) as nat, trailing);
        assert(text.drop_first() =~= Seq::new((leading - 1) as nat, |i: int| '/') + path
            + Seq::new(trailing, |i: int| '/'));
    } else if trailing > 0 {
        slashes_at_the_ends_are_no_part(path, 0, (trailing - 1) as nat);
        let none = Seq::new(0, |i: int| '/');
        if path.len() > 0 {
            assert(text[0] == path[0]);
            assert(text.drop_last() =~= none + path + Seq::new(
                (trailing - 1) as nat,
                |i: int| '/',
            ));
        } else {
            assert(text.drop_first() =~= none + path + Seq::new(
                (trailing - 1) as nat,
                |i: int| '/',
            ));
        }
    } else {
        assert(text =~= path);
    }
}

/// Of an encoding with a media type and a wire type that no topic has, the wire type is
/// reported as unknown. If a topic has it, the contract that was expected of that topic is
/// reported beside what was received. An encoding that is a media type alone is reported to
/// lack the type.
pub proof fn refusal_tells_what_was_expected(
    media_type: Seq<char>,
    wire_type: Seq<char>,
    rest: Seq<char>,
    index: int,
)
    requires
        !media_type.contains(';'),
        !has_prefix(media_type, "type="@),
        !wire_type.contains(';'),
    ensures
        contract_error(media_type) == "Synapse value encoding is missing type metadata"@,
        ({
            let encoding = media_type + seq![';'] + ("type="@ + wire_type) + seq![';'] + rest;
            &&& (forall|i: int|
                0 <= i < TOPIC_COUNT ==> (#[trigger] catalog()[i]).wire_type@ != wire_type)
                ==> contract_error(encoding) == "unknown Synapse wire type "@ + wire_type
            &&& 0 <= index < TOPIC_COUNT && catalog()[index].wire_type@ == wire_type && (forall|
                i: int,
            |
                0 <= i < index ==> (#[trigger] catalog()[i]).wire_type@ != wire_type)
                ==> contract_error(encoding) == "incompatible value contract for "@
                + catalog()[index].name@ + ": expected "@ + contract_text(catalog()[index])
                + ", received "@ + encoding
        }),
{
    reveal_strlit("type=");
    let field = "type="@ + wire_type;
    let encoding = media_type + seq![';'] + field + seq![';'] + rest;
    assert(!field.contains(';')) by {
        if field.contains(';') {
            let i = field.index_of(';');
            assert(i < 5 ==> field[i] == "type="@[i]);
            assert(i >= 5 ==> wire_type[i - 5] == ';');
        }
    }
    pieces_of_texts_that_meet(media_type, field + seq![';'] + rest, ';');
    pieces_of_texts_that_meet(field, rest, ';');
    assert(encoding =~= media_type + seq![';'] + (field + seq![';'] + rest));
    let all = pieces(encoding, ';');
    assert(all =~= seq![media_type] + (seq![field] + pieces(rest, ';')));
    assert(all.drop_first()[0] == field);
    assert(field.take(5) =~= "type="@);
    assert(field.skip(5) =~= wire_type);
    assert(type_field(all) == type_field(all.drop_first()));
    assert(type_field(all) == Some(wire_type));
    assert(type_field(seq![media_type].drop_first()) is None);
    lemma_first_with_wire_type(catalog(), wire_type, index);
}

proof fn lemma_first_with_wire_type(topics: Seq<TopicInfo>, wire_type: Seq<char>, index: int)
    ensures
        (forall|i: int| 0 <= i < topics.len() ==> (#[trigger] topics[i]).wire_type@ != wire_type)
            ==> first_with_wire_type(topics, wire_type) is None,
        0 <= index < topics.len() && topics[index].wire_type@ == wire_type && (forall|i: int|
            0 <= i < index ==> (#[trigger] topics[i]).wire_type@ != wire_type)
            ==> first_with_wire_type(topics, wire_type) == Some(topics[index]),
    decreases topics.len(),
{
    if topics.len() > 0 {
        let rest = topics.drop_first();
        lemma_first_with_wire_type(rest, wire_type, index - 1);
        assert forall|i: int| 0 <= i < rest.len() implies #[trigger] rest[i] == topics[i + 1] by {}
    }
}

} // verus!
