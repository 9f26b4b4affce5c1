//! Catalog topics: how they are found, and how their payloads are carried.

use vstd::prelude::*;
use vstd::string::*;

use crate::catalog::{
    addresses, catalog, catalog_entry, catalog_sound, contract_error, contract_of, contract_text,
    decode_by_id, decoded_text, distinct, embedded_schema, ends_in_key, entry_sound, identifies,
    is_instance, schema_by_name, topic_id_by_key, topic_id_for_encoding, topics,
    without_outer_slashes, EmbeddedSchema, TopicInfo, TOPIC_COUNT,
};
use crate::error::{DecodeFailure, Error};
use crate::payload::{
    is_wrapper, lays_out, le_bytes, le_value, lemma_read_back, read_le, read_table_field,
    table_field, table_field_is_read_whole, unwrap_fixed_payload, unwrap_of_wrap,
    wrap_fixed_payload, wrap_of_unwrap, wrapped, wrapper_content, wrapper_is_a_table_of_its_struct,
};
use crate::text::{
    case_of, contains_char, equal_ignoring_case, ignoring_case_ignores_only_case, same,
    same_ignoring_case,
};
use crate::zenoh_util::carried;

verus! {

/// Whether `name` is a topic's catalog name, its canonical key, or its root table.
pub open spec fn named(topic: TopicInfo, name: Seq<char>) -> bool {
    ||| same_ignoring_case(topic.name@, name)
    ||| topic.key@ == name
    ||| same_ignoring_case(topic.root_table@, name)
}

/// Whether `name` is a topic's wire type or its MCAP schema name.
pub open spec fn typed(topic: TopicInfo, name: Seq<char>) -> bool {
    ||| same_ignoring_case(topic.wire_type@, name)
    ||| same_ignoring_case(topic.mcap_schema_name@, name)
}

/// The first topic that is named `name`.
pub open spec fn first_named(topics: Seq<TopicInfo>, name: Seq<char>) -> Option<TopicInfo>
    decreases topics.len(),
{
    if topics.len() == 0 {
        None
    } else if named(topics[0], name) {
        Some(topics[0])
    } else {
        first_named(topics.drop_first(), name)
    }
}

/// The first topic whose type is called `name`.
pub open spec fn first_typed(topics: Seq<TopicInfo>, name: Seq<char>) -> Option<TopicInfo>
    decreases topics.len(),
{
    if topics.len() == 0 {
        None
    } else if typed(topics[0], name) {
        Some(topics[0])
    } else {
        first_typed(topics.drop_first(), name)
    }
}

/// Whether a key expression addresses the catalog topic at a place.
pub open spec fn addressed(path: Seq<char>, index: int) -> bool {
    0 <= index < TOPIC_COUNT && addresses(without_outer_slashes(path), catalog()[index].key@)
}

/// The catalog topic that a key expression addresses.
pub open spec fn inferred(path: Seq<char>) -> Option<TopicInfo> {
    if exists|i: int| addressed(path, i) {
        Some(catalog()[choose|i: int| addressed(path, i)])
    } else {
        None
    }
}

/// The topic that goes by `name` among `topics`: by what it is named, else the one
/// that `name` addresses as a key expression, else by its type.
pub open spec fn lookup(
    topics: Seq<TopicInfo>,
    by_key: Option<TopicInfo>,
    name: Seq<char>,
) -> Option<TopicInfo> {
    match first_named(topics, name) {
        Some(topic) => Some(topic),
        None => match by_key {
            Some(topic) => Some(topic),
            None => first_typed(topics, name),
        },
    }
}

/// The catalog topic that goes by `name`.
pub open spec fn known_as(name: Seq<char>) -> Option<TopicInfo> {
    lookup(catalog(), inferred(name), name)
}

/// Whether an encoding is the value contract of the catalog topic at a place.
pub open spec fn contracts(encoding: Seq<char>, index: int) -> bool {
    0 <= index < TOPIC_COUNT && contract_text(catalog()[index]) == encoding
}

/// The catalog topic whose value contract an encoding is.
pub open spec fn contracted(encoding: Seq<char>) -> Option<TopicInfo> {
    if exists|i: int| contracts(encoding, i) {
        Some(catalog()[choose|i: int| contracts(encoding, i)])
    } else {
        None
    }
}

/// Find a topic by `name` among `topics`, given the topic that `name` addresses as a key
/// expression.
pub fn find_topic(topics: &Vec<TopicInfo>, by_key: Option<TopicInfo>, name: &str) -> (r: Option<
    TopicInfo,
>)
    ensures
        r == lookup(topics@, by_key, name@),
{
    let mut i: usize = 0;
    assert(topics@.skip(0) =~= topics@);
    while i < topics.len()
        invariant
            i <= topics@.len(),
            first_named(topics@, name@) == first_named(topics@.skip(i as int), name@),
        decreases topics.len() - i,
    {
        let topic = topics[i];
        assert(topics@.skip(i as int).drop_first() =~= topics@.skip(i + 1));
        if equal_ignoring_case(topic.name, name) || same(topic.key, name) || equal_ignoring_case(
            topic.root_table,
            name,
        ) {
            return Some(topic);
        }
        i = i + 1;
    }
    if by_key.is_some() {
        return by_key;
    }
    i = 0;
    while i < topics.len()
        invariant
            i <= topics@.len(),
            by_key is None,
            first_named(topics@, name@) is None,
            first_typed(topics@, name@) == first_typed(topics@.skip(i as int), name@),
        decreases topics.len() - i,
    {
        let topic = topics[i];
        assert(topics@.skip(i as int).drop_first() =~= topics@.skip(i + 1));
        if equal_ignoring_case(topic.wire_type, name) || equal_ignoring_case(
            topic.mcap_schema_name,
            name,
        ) {
            return Some(topic);
        }
        i = i + 1;
    }
    None
}

/// A catalog topic paired with the embedded schema file that defines it.
#[derive(Clone, Copy, Debug)]
pub struct TopicType {
    pub topic: TopicInfo,
    pub schema: EmbeddedSchema,
}

/// The type of a catalog topic.
pub open spec fn type_of(topic: TopicInfo) -> TopicType {
    TopicType { topic, schema: embedded_schema(topic.schema_file@)->Some_0 }
}

/// The type of the topic that was found, if one was.
pub open spec fn opt_type_of(topic: Option<TopicInfo>) -> Option<TopicType> {
    match topic {
        Some(topic) => Some(type_of(topic)),
        None => None,
    }
}

/// The publication timestamp of a payload in microseconds: the first eight bytes of
/// a fixed-layout struct, the first field of a root table.
pub open spec fn timestamp_us(topic: TopicInfo, payload: Seq<u8>) -> Option<nat> {
    if !topic.fixed_layout {
        table_field(payload, 4)
    } else if payload.len() >= 8 {
        Some(le_value(payload.subrange(0, 8)))
    } else {
        None
    }
}

/// The form in which an MCAP message holds a payload.
pub open spec fn recorded(topic: TopicInfo, payload: Seq<u8>) -> Seq<u8> {
    if topic.fixed_layout {
        wrapped(payload)
    } else {
        payload
    }
}

impl TopicType {
    /// The type is that of a catalog topic.
    pub open spec fn wf(self) -> bool {
        &&& 1 <= self.topic.id <= TOPIC_COUNT
        &&& self == type_of(catalog()[self.topic.id - 1])
        &&& entry_sound(self.topic.id - 1, self.topic)
        &&& self.schema.file@ == self.topic.schema_file@
        &&& self.schema.bfbs@.len() > 0
    }

    /// What decoding a payload gives.
    pub open spec fn decoding(self, payload: Seq<u8>) -> Result<Seq<char>, DecodeFailure> {
        decoded_text(self.topic.id, payload)
    }

    fn from_topic(topic: TopicInfo) -> (r: TopicType)
        requires
            1 <= topic.id <= TOPIC_COUNT,
            topic == catalog()[topic.id - 1],
            entry_sound(topic.id - 1, topic),
        ensures
            r == type_of(topic),
            r.wf(),
    {
        let schema = schema_by_name(topic.schema_file);
        TopicType { topic, schema: schema.unwrap() }
    }

    fn from_id(id: u16) -> (r: TopicType)
        requires
            1 <= id <= TOPIC_COUNT,
        ensures
            r == type_of(catalog()[id - 1]),
            r.wf(),
    {
        let topic = catalog_entry(id as usize - 1);
        assert(topic == catalog()[id - 1]);
        Self::from_topic(topic)
    }

    /// The types of all catalog topics, in the order of their ids.
    pub fn all() -> (r: Vec<TopicType>)
        ensures
            r@ == catalog().map_values(|topic: TopicInfo| type_of(topic)),
            forall|i: int| 0 <= i < r@.len() ==> (#[trigger] r@[i]).wf(),
    {
        let ghost want = catalog().map_values(|topic: TopicInfo| type_of(topic));
        let mut r: Vec<TopicType> = Vec::new();
        let mut id: u16 = 1;
        while id as usize <= TOPIC_COUNT
            invariant
                1 <= id <= TOPIC_COUNT + 1,
                want == catalog().map_values(|topic: TopicInfo| type_of(topic)),
                r@ == want.take(id - 1),
                forall|i: int| 0 <= i < r@.len() ==> (#[trigger] r@[i]).wf(),
            decreases TOPIC_COUNT + 1 - id,
        {
            r.push(Self::from_id(id));
            assert(r@ =~= want.take(id as int));
            id = id + 1;
        }
        assert(want.take(id - 1) =~= want);
        r
    }

    /// Find a topic by catalog name, canonical key, wire type, or any
    /// namespaced/instance-suffixed key expression.
    pub fn find(name: &str) -> (r: Option<TopicType>)
        ensures
            r == opt_type_of(known_as(name@)),
            r matches Some(known) ==> known.wf(),
    {
        let all = topics();
        let by_key = match Self::infer(name) {
            Some(known) => Some(known.topic),
            None => None,
        };
        let found = find_topic(&all, by_key, name);
        proof {
            lemma_lookup_member(all@, by_key, name@);
        }
        match found {
            Some(topic) => {
                proof {
                    if by_key != Some(topic) {
                        let i = choose|i: int| 0 <= i < all@.len() && all@[i] == topic;
                        assert(entry_sound(i, catalog()[i]));
                    }
                }
                Some(Self::from_topic(topic))
            },
            None => None,
        }
    }

    /// Find a topic as [`TopicType::find`] does, or fail.
    pub fn require(name: &str) -> (r: Result<TopicType, Error>)
        ensures
            r is Ok <==> known_as(name@) is Some,
            r matches Ok(known) ==> Some(known) == opt_type_of(known_as(name@)) && known.wf(),
            r matches Err(error) ==> (error matches Error::UnknownTopic { name: n } && n@ == name@),
    {
        match Self::find(name) {
            Some(known) => Ok(known),
            None => Err(Error::UnknownTopic { name: name.to_owned() }),
        }
    }

    /// Infer the topic from a zenoh key expression, including namespaced and
    /// instance-suffixed keys.
    pub fn infer(keyexpr: &str) -> (r: Option<TopicType>)
        ensures
            r == opt_type_of(inferred(keyexpr@)),
            r matches Some(known) ==> known.wf(),
    {
        match topic_id_by_key(keyexpr) {
            Some(id) => {
                assert(addressed(keyexpr@, id - 1));
                let ghost i = choose|i: int| addressed(keyexpr@, i);
                assert(catalog()[i].key@ == catalog()[i].key@);
                Some(Self::from_id(id))
            },
            None => {
                proof {
                    assert forall|i: int| !addressed(keyexpr@, i) by {
                        if addressed(keyexpr@, i) {
                            assert(catalog()[i].key@ == catalog()[i].key@);
                        }
                    }
                }
                None
            },
        }
    }

    /// Resolve a topic exclusively from a value encoding. It must be the exact value
    /// contract of one of the catalog's topics.
    pub fn from_value_encoding(encoding: &str) -> (r: Result<TopicType, Error>)
        ensures
            r is Ok <==> contracted(encoding@) is Some,
            r matches Ok(known) ==> known.wf() && Some(known) == opt_type_of(
                contracted(encoding@),
            ) && contract_text(known.topic) == encoding@,
            forall|i: int| #[trigger]
                contracts(encoding@, i) ==> r == Ok::<TopicType, Error>(type_of(catalog()[i])),
            r matches Err(error) ==> (error matches Error::Contract { reason } && reason@
                == contract_error(encoding@)),
    {
        match topic_id_for_encoding(encoding) {
            Ok(id) => {
                let known = Self::from_id(id);
                assert(contracts(encoding@, id - 1));
                proof {
                    let i = choose|i: int| contracts(encoding@, i);
                    assert(contract_text(catalog()[i]) == encoding@);
                }
                Ok(known)
            },
            Err(reason) => {
                proof {
                    assert forall|i: int| !contracts(encoding@, i) by {
                        if contracts(encoding@, i) {
                            assert(contract_text(catalog()[i]) == encoding@);
                        }
                    }
                }
                Err(Error::Contract { reason })
            },
        }
    }

    /// Fully qualified FlatBuffers type carried on the wire: the bare struct
    /// for fixed-layout topics, the root table otherwise.
    pub fn wire_type(self) -> (r: Option<&'static str>)
        ensures
            r == Some(self.topic.wire_type),
    {
        Some(self.topic.wire_type)
    }

    /// Fingerprint of the wire type's transitive schema.
    pub fn schema_hash(self) -> (r: &'static str)
        ensures
            r == self.topic.schema_hash,
    {
        self.topic.schema_hash
    }

    /// Embedded schema of this topic's canonical MCAP root table.
    pub fn mcap_schema(self) -> (r: EmbeddedSchema)
        ensures
            r == self.schema,
    {
        self.schema
    }

    /// Canonical, mandatory value encoding with the exact schema fingerprint, as
    /// zenoh carries it.
    pub fn zenoh_encoding(self) -> (r: String)
        requires
            self.wf(),
        ensures
            r@ == contract_text(self.topic),
    {
        let contract = contract_of(self.topic.id);
        proof {
            let hash = self.topic.schema_hash@;
            assert(contract@.last() == hash.last());
            assert(hash[31] == hash.last());
        }
        carried(contract.as_str())
    }

    /// Decode a payload and render it with the generated pretty Debug format.
    pub fn decode(self, payload: &[u8]) -> (r: Result<String, Error>)
        requires
            self.wf(),
        ensures
            match self.decoding(payload@) {
                Ok(text) => r is Ok && r->Ok_0@ == text,
                Err(failure) => r matches Err(Error::Decode { topic, failure: f }) && topic@
                    == self.topic.name@ && f == failure,
            },
            self.topic.payload_size matches Some(size) ==> (r is Ok <==> payload@.len() == size),
            self.topic.payload_size matches Some(size) ==> (r is Err ==> self.decoding(payload@) == Err::<
                Seq<char>,
                DecodeFailure,
            >(DecodeFailure::PayloadSize { expected: size, actual: payload@.len() as usize })),
            self.topic.payload_size is None ==> (r is Err ==> self.decoding(payload@) == Err::<
                Seq<char>,
                DecodeFailure,
            >(DecodeFailure::InvalidFlatbuffer)),
    {
        match decode_by_id(self.topic.id, payload) {
            Ok(text) => Ok(text),
            Err(failure) => Err(Error::Decode { topic: self.topic.name.to_owned(), failure }),
        }
    }

    /// Convert a canonical zenoh payload into the rooted payload that an MCAP
    /// message holds. Variable-size topics are already rooted; fixed-layout topic
    /// structs receive their one-field wrapper.
    pub fn to_mcap_payload(self, payload: &[u8]) -> (r: Result<Vec<u8>, Error>)
        requires
            self.wf(),
        ensures
            match self.decoding(payload@) {
                Ok(text) => r is Ok && r->Ok_0@ == recorded(self.topic, payload@),
                Err(failure) => r matches Err(Error::Decode { topic, failure: f }) && topic@
                    == self.topic.name@ && f == failure,
            },
            self.topic.payload_size matches Some(size) ==> (r is Ok <==> payload@.len() == size),
    {
        match self.decode(payload) {
            Ok(_) => {},
            Err(error) => return Err(error),
        }
        if self.topic.fixed_layout {
            wrap_fixed_payload(payload)
        } else {
            let mut copy: Vec<u8> = Vec::new();
            copy.extend_from_slice(payload);
            assert(copy@ =~= payload@);
            Ok(copy)
        }
    }

    /// Publication timestamp of an MCAP message, in nanoseconds. Fixed-layout structs
    /// place `timestamp_us` first; root tables use the first FlatBuffers slot. Topics
    /// without that field fall back to the logger acceptance time.
    pub fn mcap_publish_time_ns(self, payload: &[u8], log_time_ns: u64) -> (r: Result<u64, Error>)
        requires
            self.wf(),
        ensures
            match self.decoding(payload@) {
                Ok(text) => match timestamp_us(self.topic, payload@) {
                    Some(us) => if us * 1000 <= u64::MAX {
                        r is Ok && r->Ok_0 == us * 1000
                    } else {
                        r matches Err(Error::TimestampOverflow { topic }) && topic@
                            == self.topic.name@
                    },
                    None => r == Ok::<u64, Error>(log_time_ns),
                },
                Err(failure) => r matches Err(Error::Decode { topic, failure: f }) && topic@
                    == self.topic.name@ && f == failure,
            },
    {
        match self.decode(payload) {
            Ok(_) => {},
            Err(error) => return Err(error),
        }
        let timestamp: Option<u64> = if !self.topic.fixed_layout {
            read_table_field(payload, 4)
        } else if payload.len() >= 8 {
            Some(read_le(payload, 0, 8))
        } else {
            None
        };
        match timestamp {
            Some(us) => match us.checked_mul(1000) {
                Some(ns) => Ok(ns),
                None => Err(Error::TimestampOverflow { topic: self.topic.name.to_owned() }),
            },
            None => Ok(log_time_ns),
        }
    }

    /// Recover the canonical zenoh payload from an MCAP message.
    pub fn mcap_to_zenoh_payload<'a>(self, payload: &'a [u8]) -> (r: Result<&'a [u8], Error>)
        requires
            self.wf(),
        ensures
            self.topic.payload_size matches Some(size) ==> if is_wrapper(payload@, size as nat) {
                r is Ok && r->Ok_0@ == wrapper_content(payload@, size as nat)
            } else {
                r == Err::<&[u8], Error>(
                    Error::InvalidWrapper {
                        actual: payload@.len() as usize,
                        expected: (size + 14) as usize,
                    },
                )
            },
            self.topic.payload_size is None ==> match self.decoding(payload@) {
                Ok(text) => r is Ok && r->Ok_0@ == payload@,
                Err(failure) => r matches Err(Error::Decode { topic, failure: f }) && topic@
                    == self.topic.name@ && f == failure,
            },
    {
        if self.topic.fixed_layout {
            unwrap_fixed_payload(payload, self.topic.payload_size.unwrap())
        } else {
            match self.decode(payload) {
                Ok(_) => Ok(payload),
                Err(error) => Err(error),
            }
        }
    }
}

proof fn lemma_lookup_member(topics: Seq<TopicInfo>, by_key: Option<TopicInfo>, name: Seq<char>)
    ensures
        lookup(topics, by_key, name) matches Some(topic) ==> by_key == Some(topic) || exists|i: int|
            0 <= i < topics.len() && topics[i] == topic,
{
    lemma_first_member(topics, name);
}

proof fn lemma_first_member(topics: Seq<TopicInfo>, name: Seq<char>)
    ensures
        first_named(topics, name) matches Some(topic) ==> exists|i: int|
            0 <= i < topics.len() && topics[i] == topic && named(topic, name),
        first_typed(topics, name) matches Some(topic) ==> exists|i: int|
            0 <= i < topics.len() && topics[i] == topic && typed(topic, name),
        first_named(topics, name) is None ==> forall|i: int|
            0 <= i < topics.len() ==> !named(#[trigger] topics[i], name),
        first_typed(topics, name) is None ==> forall|i: int|
            0 <= i < topics.len() ==> !typed(#[trigger] topics[i], name),
    decreases topics.len(),
{
    if topics.len() > 0 {
        let rest = topics.drop_first();
        lemma_first_member(rest, name);
        if !named(topics[0], name) {
            if let Some(topic) = first_named(rest, name) {
                let i = choose|i: int|
                    0 <= i < rest.len() && rest[i] == topic && named(topic, name);
                assert(topics[i + 1] == topic);
            } else {
                assert forall|i: int| 0 <= i < topics.len() implies !named(
                    #[trigger] topics[i],
                    name,
                ) by {
                    if i > 0 {
                        assert(rest[i - 1] == topics[i]);
                    }
                }
            }
        } else {
            assert(topics[0] == topics[0]);
        }
        if !typed(topics[0], name) {
            if let Some(topic) = first_typed(rest, name) {
                let i = choose|i: int|
                    0 <= i < rest.len() && rest[i] == topic && typed(topic, name);
                assert(topics[i + 1] == topic);
            } else {
                assert forall|i: int| 0 <= i < topics.len() implies !typed(
                    #[trigger] topics[i],
                    name,
                ) by {
                    if i > 0 {
                        assert(rest[i - 1] == topics[i]);
                    }
                }
            }
        } else {
            assert(topics[0] == topics[0]);
        }
    }
}

/// The key expression to subscribe to for `arg`.
pub open spec fn subscription(arg: Seq<char>) -> Seq<char> {
    if arg.contains('/') {
        arg
    } else {
        match known_as(arg) {
            Some(topic) => "**/"@ + topic.key@ + "/**"@,
            None => arg,
        }
    }
}

/// The key to publish on for `arg`.
pub open spec fn publication(arg: Seq<char>) -> Seq<char> {
    if arg.contains('/') {
        arg
    } else {
        match known_as(arg) {
            Some(topic) => topic.key@,
            None => arg,
        }
    }
}

/// Expand a bare catalog topic reference into a subscription key expression
/// covering canonical, namespaced, and instance-suffixed keys. Anything with
/// a '/' is passed through as a raw zenoh key expression.
pub fn subscribe_keyexpr(arg: &str) -> (r: String)
    ensures
        r@ == subscription(arg@),
        arg@.contains('/') ==> r@ == arg@,
{
    if contains_char(arg, '/') {
        return arg.to_owned();
    }
    match TopicType::find(arg) {
        Some(known) => {
            let mut keyexpr = "**/".to_owned();
            keyexpr.append(known.topic.key);
            keyexpr.append("/**");
            keyexpr
        },
        None => arg.to_owned(),
    }
}

/// Resolve a bare catalog topic reference to its canonical publication key.
/// Anything with a '/' is passed through as a raw key.
pub fn publish_key(arg: &str) -> (r: String)
    ensures
        r@ == publication(arg@),
        arg@.contains('/') ==> r@ == arg@,
{
    if contains_char(arg, '/') {
        return arg.to_owned();
    }
    match TopicType::find(arg) {
        Some(known) => known.topic.key.to_owned(),
        None => arg.to_owned(),
    }
}

impl TopicType {
    /// The zenoh payload that an MCAP message holds.
    pub open spec fn restored(self, message: Seq<u8>) -> Option<Seq<u8>> {
        match self.topic.payload_size {
            Some(size) => if is_wrapper(message, size as nat) {
                Some(wrapper_content(message, size as nat))
            } else {
                None
            },
            None => if self.decoding(message) is Ok {
                Some(message)
            } else {
                None
            },
        }
    }
}

/// What a bag holds of a payload is read back as that payload: recovering the zenoh
/// payload undoes the conversion to an MCAP message, for every payload that is
/// accepted.
pub proof fn recorded_payload_is_restored(known: TopicType, payload: Seq<u8>)
    requires
        known.wf(),
        known.topic.payload_size matches Some(size) ==> payload.len() == size,
        known.topic.payload_size is None ==> known.decoding(payload) is Ok,
    ensures
        known.restored(recorded(known.topic, payload)) == Some(payload),
{
    unwrap_of_wrap(payload);
}

/// There is one MCAP message for each zenoh payload: a message from which a payload is
/// recovered is the one that the payload is converted to.
pub proof fn restored_payload_is_recorded(known: TopicType, message: Seq<u8>)
    requires
        known.wf(),
        known.restored(message) is Some,
    ensures
        recorded(known.topic, known.restored(message)->Some_0) == message,
{
    if let Some(size) = known.topic.payload_size {
        wrap_of_unwrap(message, size as nat);
    }
}

proof fn lemma_same_ignoring_case_reflexive(topic: TopicInfo)
    ensures
        identifies(topic, topic.name@),
        identifies(topic, topic.key@),
        identifies(topic, topic.root_table@),
        identifies(topic, topic.wire_type@),
        identifies(topic, topic.mcap_schema_name@),
{
}

/// A topic is found by each of its names: by its catalog name, its root table, its wire
/// type and its MCAP schema name in any case, and by its key.
pub proof fn every_name_finds_its_topic(index: int, name: Seq<char>)
    requires
        0 <= index < TOPIC_COUNT,
        named(catalog()[index], name) || typed(catalog()[index], name),
    ensures
        catalog_sound() ==> known_as(name) == Some(catalog()[index]),
{
    if catalog_sound() {
        let topic = catalog()[index];
        assert(entry_sound(index, topic));
        lemma_same_ignoring_case_reflexive(topic);
        assert(identifies(topic, name));
        lemma_first_member(catalog(), name);
        assert forall|j: int| 0 <= j < TOPIC_COUNT && j != index implies !identifies(
            #[trigger] catalog()[j],
            name,
        ) by {
            assert(distinct(topic, catalog()[j]));
        }
        if first_named(catalog(), name) is None {
            assert(!named(catalog()[index], name));
            assert(!name.contains('/'));
            assert forall|j: int| !addressed(name, j) by {
                if addressed(name, j) {
                    lemma_plain_path(name, catalog()[j].key@);
                    lemma_same_ignoring_case_reflexive(catalog()[j]);
                }
            }
        }
    }
}

proof fn lemma_plain_path(path: Seq<char>, key: Seq<char>)
    requires
        !path.contains('/'),
        addresses(without_outer_slashes(path), key),
    ensures
        path == key,
{
    if path.len() > 0 {
        assert(path.contains(path[0]));
        assert(path.contains(path.last()));
    }
    assert(without_outer_slashes(path) == path);
    if path != key {
        if ends_in_key(path, key) {
            let namespace = choose|namespace: Seq<char>|
                path == #[trigger] (namespace + seq!['/']) + key;
            assert(path[namespace.len() as int] == '/');
        } else {
            let (start, instance) = choose|start: Seq<char>, instance: Seq<char>|
                path == #[trigger] (start + seq!['/'] + instance) && ends_in_key(start, key)
                    && is_instance(instance);
            assert(path[start.len() as int] == '/');
        }
    }
}

proof fn lemma_last_segment(a: Seq<char>, x: Seq<char>, b: Seq<char>, y: Seq<char>)
    requires
        a + seq!['/'] + x == b + seq!['/'] + y,
        !x.contains('/'),
        !y.contains('/'),
    ensures
        a == b,
        x == y,
{
    let path = a + seq!['/'] + x;
    let other = b + seq!['/'] + y;
    assert(path.len() == a.len() + 1 + x.len());
    assert(other.len() == b.len() + 1 + y.len());
    if a.len() < b.len() {
        assert(path[b.len() as int] == other[b.len() as int]);
        assert(x[b.len() - a.len() - 1] == other[b.len() as int]);
        assert(x.contains(x[b.len() - a.len() - 1]));
    }
    if b.len() < a.len() {
        assert(path[a.len() as int] == other[a.len() as int]);
        assert(y[a.len() - b.len() - 1] == path[a.len() as int]);
        assert(y.contains(y[a.len() - b.len() - 1]));
    }
    assert(a =~= path.take(a.len() as int));
    assert(b =~= other.take(b.len() as int));
    assert(x =~= path.skip(a.len() as int + 1));
    assert(y =~= other.skip(b.len() as int + 1));
}

proof fn lemma_ends_in_one_key(path: Seq<char>, key: Seq<char>, other: Seq<char>)
    requires
        ends_in_key(path, key),
        ends_in_key(path, other),
        !key.contains('/'),
        !other.contains('/'),
    ensures
        key == other,
{
    if path != key {
        let a = choose|namespace: Seq<char>| path == #[trigger] (namespace + seq!['/']) + key;
        assert(path[a.len() as int] == '/');
        if path == other {
            assert(other.contains('/'));
        } else {
            let b = choose|namespace: Seq<char>| path == #[trigger] (namespace + seq!['/']) + other;
            lemma_last_segment(a, key, b, other);
        }
    } else if path != other {
        let b = choose|namespace: Seq<char>| path == #[trigger] (namespace + seq!['/']) + other;
        assert(path[b.len() as int] == '/');
    }
}

proof fn lemma_no_instance_ending(start: Seq<char>, instance: Seq<char>, key: Seq<char>)
    requires
        is_instance(instance),
        !is_instance(key),
        !key.contains('/'),
    ensures
        !ends_in_key(start + seq!['/'] + instance, key),
{
    let path = start + seq!['/'] + instance;
    if ends_in_key(path, key) {
        lemma_instance_plain(instance);
        assert(path[start.len() as int] == '/');
        assert(path != key);
        let a = choose|namespace: Seq<char>| path == #[trigger] (namespace + seq!['/']) + key;
        lemma_last_segment(start, instance, a, key);
    }
}

proof fn lemma_instance_plain(instance: Seq<char>)
    requires
        is_instance(instance),
    ensures
        !instance.contains('/'),
{
}

proof fn lemma_addresses_one_key(path: Seq<char>, key: Seq<char>, other: Seq<char>)
    requires
        addresses(path, key),
        addresses(path, other),
        !key.contains('/'),
        !other.contains('/'),
        !is_instance(key),
        !is_instance(other),
    ensures
        key == other,
{
    if ends_in_key(path, key) && ends_in_key(path, other) {
        lemma_ends_in_one_key(path, key, other);
    } else {
        let wanted = if ends_in_key(path, key) { other } else { key };
        let rest = if ends_in_key(path, key) { key } else { other };
        let (start, instance) = choose|start: Seq<char>, instance: Seq<char>|
            path == #[trigger] (start + seq!['/'] + instance) && ends_in_key(start, wanted)
                && is_instance(instance);
        if ends_in_key(path, rest) {
            lemma_no_instance_ending(start, instance, rest);
        } else {
            let (s, n) = choose|s: Seq<char>, n: Seq<char>|
                path == #[trigger] (s + seq!['/'] + n) && ends_in_key(s, rest) && is_instance(n);
            lemma_instance_plain(instance);
            lemma_instance_plain(n);
            lemma_last_segment(start, instance, s, n);
            lemma_ends_in_one_key(start, key, other);
        }
    }
}

/// A key expression addresses at most one topic, and that one is inferred.
pub proof fn addressed_topic_is_inferred(path: Seq<char>, index: int)
    requires
        addressed(path, index),
    ensures
        catalog_sound() ==> inferred(path) == Some(catalog()[index]),
{
    if catalog_sound() {
        let i = choose|i: int| addressed(path, i);
        let a = catalog()[index];
        let b = catalog()[i];
        assert(entry_sound(index, a));
        assert(entry_sound(i, b));
        lemma_same_ignoring_case_reflexive(a);
        lemma_same_ignoring_case_reflexive(b);
        lemma_addresses_one_key(without_outer_slashes(path), a.key@, b.key@);
        if i != index {
            assert(distinct(a, b));
            assert(identifies(a, b.key@));
        }
    }
}

/// `[<namespace>/]<key>[/<instance>]`.
pub open spec fn full_key(
    namespace: Option<Seq<char>>,
    key: Seq<char>,
    instance: Option<Seq<char>>,
) -> Seq<char> {
    let start = match namespace {
        Some(namespace) => namespace + seq!['/'] + key,
        None => key,
    };
    match instance {
        Some(instance) => start + seq!['/'] + instance,
        None => start,
    }
}

/// The topic of a key is inferred under any namespace and with any instance number.
pub proof fn full_key_is_inferred(
    namespace: Option<Seq<char>>,
    index: int,
    instance: Option<Seq<char>>,
)
    requires
        0 <= index < TOPIC_COUNT,
        namespace matches Some(n) ==> n.len() > 0 && n[0] != '/',
        instance matches Some(n) ==> 1 <= n.len() <= 9 && forall|i: int|
            0 <= i < n.len() ==> '0' <= #[trigger] n[i] <= '9',
    ensures
        catalog_sound() ==> inferred(full_key(namespace, catalog()[index].key@, instance)) == Some(
            catalog()[index],
        ),
{
    if catalog_sound() {
        let key = catalog()[index].key@;
        let path = full_key(namespace, key, instance);
        assert(entry_sound(index, catalog()[index]));
        lemma_same_ignoring_case_reflexive(catalog()[index]);
        assert(key.contains(key[0]));
        assert(key.contains(key.last()));
        let start = match namespace {
            Some(namespace) => namespace + seq!['/'] + key,
            None => key,
        };
        if let Some(n) = namespace {
            assert(start == (n + seq!['/']) + key);
            assert(start[0] == n[0]);
            assert(start.last() == key.last());
        }
        assert(ends_in_key(start, key));
        if let Some(n) = instance {
            assert(path == start + seq!['/'] + n);
            assert(path[0] == start[0]);
            assert(path.last() == n.last());
            lemma_instance_plain(n);
            assert(n.contains(n.last()));
        }
        assert(without_outer_slashes(path) == path);
        assert(addresses(path, key));
        assert(addressed(path, index));
        addressed_topic_is_inferred(path, index);
    }
}

/// Where a topic is named to publish on, its key results, and from that key the same
/// topic is found and inferred: to resolve a publication key twice changes nothing. A
/// subscription under the same name covers that key.
pub proof fn publication_key_names_its_topic(arg: Seq<char>)
    requires
        !arg.contains('/'),
        known_as(arg) is Some,
    ensures
        subscription(arg) == "**/"@ + publication(arg) + "/**"@,
        catalog_sound() ==> {
            &&& known_as(publication(arg)) == known_as(arg)
            &&& inferred(publication(arg)) == known_as(arg)
            &&& publication(publication(arg)) == publication(arg)
        },
{
    if catalog_sound() {
        let topic = known_as(arg)->Some_0;
        lemma_lookup_member(catalog(), inferred(arg), arg);
        let i = if inferred(arg) == Some(topic) {
            choose|i: int| addressed(arg, i)
        } else {
            choose|i: int| 0 <= i < catalog().len() && catalog()[i] == topic
        };
        every_name_finds_its_topic(i, catalog()[i].key@);
        full_key_is_inferred(None, i, None);
        assert(entry_sound(i, catalog()[i]));
        lemma_same_ignoring_case_reflexive(catalog()[i]);
    }
}

/// The value contract of a topic is no other topic's: an encoding names at most one
/// topic.
pub proof fn contract_names_one_topic(i: int, j: int)
    requires
        0 <= i < TOPIC_COUNT,
        0 <= j < TOPIC_COUNT,
        contract_text(catalog()[i]) == contract_text(catalog()[j]),
    ensures
        catalog_sound() ==> i == j,
{
    if catalog_sound() {
        let a = catalog()[i];
        let b = catalog()[j];
        assert(entry_sound(i, a));
        assert(entry_sound(j, b));
        reveal_strlit("application/x-synapse-struct");
        reveal_strlit("application/x-flatbuffers");
        reveal_strlit(";type=");
        reveal_strlit(";schema=sha256-128:");
        let x = contract_text(a);
        let y = contract_text(b);
        assert(x[14] == if a.fixed_layout { 's' } else { 'f' });
        assert(y[14] == if b.fixed_layout { 's' } else { 'f' });
        let start = if a.fixed_layout { 34int } else { 31int };
        assert(x.len() == start + a.wire_type@.len() + 51);
        assert(y.len() == start + b.wire_type@.len() + 51);
        assert(a.wire_type@ =~= x.subrange(start, start + a.wire_type@.len()));
        assert(b.wire_type@ =~= y.subrange(start, start + b.wire_type@.len()));
        assert(a.wire_type@ == b.wire_type@);
        lemma_same_ignoring_case_reflexive(a);
        lemma_same_ignoring_case_reflexive(b);
        if i != j {
            assert(distinct(a, b));
            assert(identifies(b, a.wire_type@));
        }
    }
}

/// An argument with a slash is a raw key expression: it is subscribed to, and published on,
/// as it is. So is a bare one that names no topic.
pub proof fn raw_keys_pass_through(arg: Seq<char>)
    requires
        arg.contains('/') || known_as(arg) is None,
    ensures
        subscription(arg) == arg,
        publication(arg) == arg,
{
}

/// Whether two strings are the same but for the case of ASCII letters.
pub open spec fn agrees(a: Seq<char>, b: Seq<char>) -> bool {
    a.len() == b.len() && forall|i: int| 0 <= i < a.len() ==> case_of(#[trigger] a[i], b[i])
}

/// Whether a name is a topic's key, or its catalog name or root table in any case.
pub open spec fn goes_by(topic: TopicInfo, name: Seq<char>) -> bool {
    agrees(topic.name@, name) || topic.key@ == name || agrees(topic.root_table@, name)
}

/// Whether a name is that of a topic's type, on the wire or in a bag, in any case.
pub open spec fn carries(topic: TopicInfo, name: Seq<char>) -> bool {
    agrees(topic.wire_type@, name) || agrees(topic.mcap_schema_name@, name)
}

proof fn lemma_goes_by(topic: TopicInfo, name: Seq<char>)
    ensures
        named(topic, name) == goes_by(topic, name),
        typed(topic, name) == carries(topic, name),
{
    ignoring_case_ignores_only_case(topic.name@, name);
    ignoring_case_ignores_only_case(topic.root_table@, name);
    ignoring_case_ignores_only_case(topic.wire_type@, name);
    ignoring_case_ignores_only_case(topic.mcap_schema_name@, name);
}

/// A topic is known by its key, and by its catalog name, root table, wire type and MCAP
/// schema name in any case. Under each of them it is subscribed to in all namespaces and
/// instances, and published on its key.
pub proof fn topic_goes_by_all_its_names(index: int, name: Seq<char>)
    requires
        0 <= index < TOPIC_COUNT,
        goes_by(catalog()[index], name) || carries(catalog()[index], name),
    ensures
        catalog_sound() ==> {
            &&& known_as(name) == Some(catalog()[index])
            &&& subscription(name) == "**/"@ + catalog()[index].key@ + "/**"@
            &&& publication(name) == catalog()[index].key@
        },
{
    if catalog_sound() {
        let topic = catalog()[index];
        lemma_goes_by(topic, name);
        every_name_finds_its_topic(index, name);
        assert(entry_sound(index, topic));
        assert(identifies(topic, name));
    }
}

/// Where one topic is looked up among others: the first that goes by the name; else the
/// one that the name addresses; else the first whose type the name is; else none.
pub proof fn lookup_takes_names_before_keys_before_types(
    topics: Seq<TopicInfo>,
    by_key: Option<TopicInfo>,
    name: Seq<char>,
    index: int,
)
    requires
        0 <= index < topics.len(),
    ensures
        goes_by(topics[index], name) && (forall|j: int|
            0 <= j < index ==> !goes_by(#[trigger] topics[j], name)) ==> lookup(
            topics,
            by_key,
            name,
        ) == Some(topics[index]),
        (forall|j: int| 0 <= j < topics.len() ==> !goes_by(#[trigger] topics[j], name))
            && by_key is Some ==> lookup(topics, by_key, name) == by_key,
        (forall|j: int| 0 <= j < topics.len() ==> !goes_by(#[trigger] topics[j], name))
            && by_key is None && carries(topics[index], name) && (forall|j: int|
            0 <= j < index ==> !carries(#[trigger] topics[j], name)) ==> lookup(
            topics,
            by_key,
            name,
        ) == Some(topics[index]),
        (forall|j: int|
            0 <= j < topics.len() ==> !goes_by(#[trigger] topics[j], name) && !carries(
                topics[j],
                name,
            )) && by_key is None ==> lookup(topics, by_key, name) is None,
{
    assert forall|j: int| 0 <= j < topics.len() implies named(#[trigger] topics[j], name) == goes_by(
        topics[j],
        name,
    ) && typed(topics[j], name) == carries(topics[j], name) by {
        lemma_goes_by(topics[j], name);
    }
    lemma_first_member(topics, name);
    if goes_by(topics[index], name) && forall|j: int|
        0 <= j < index ==> !goes_by(#[trigger] topics[j], name) {
        lemma_first_at(topics, name, index);
    }
    if carries(topics[index], name) && forall|j: int|
        0 <= j < index ==> !carries(#[trigger] topics[j], name) {
        lemma_first_at(topics, name, index);
    }
}

proof fn lemma_first_at(topics: Seq<TopicInfo>, name: Seq<char>, index: int)
    requires
        0 <= index < topics.len(),
    ensures
        named(topics[index], name) && (forall|j: int|
            0 <= j < index ==> !named(#[trigger] topics[j], name)) ==> first_named(topics, name)
            == Some(topics[index]),
        typed(topics[index], name) && (forall|j: int|
            0 <= j < index ==> !typed(#[trigger] topics[j], name)) ==> first_typed(topics, name)
            == Some(topics[index]),
    decreases topics.len(),
{
    if index > 0 {
        let rest = topics.drop_first();
        lemma_first_at(rest, name, index - 1);
        assert(rest[index - 1] == topics[index]);
        if forall|j: int| 0 <= j < index ==> !named(#[trigger] topics[j], name) {
            assert(!named(topics[0], name));
            assert forall|j: int| 0 <= j < index - 1 implies !named(#[trigger] rest[j], name) by {
                assert(rest[j] == topics[j + 1]);
            }
        }
        if forall|j: int| 0 <= j < index ==> !typed(#[trigger] topics[j], name) {
            assert(!typed(topics[0], name));
            assert forall|j: int| 0 <= j < index - 1 implies !typed(#[trigger] rest[j], name) by {
                assert(rest[j] == topics[j + 1]);
            }
        }
    }
}

/// Whether a path, but for slashes at its ends, is a topic's key in a namespace, with an
/// instance number of one to nine digits, or without one or both.
pub open spec fn leads_to(path: Seq<char>, key: Seq<char>) -> bool {
    exists|namespace: Option<Seq<char>>, instance: Option<Seq<char>>| #[trigger]
        full_key(namespace, key, instance) == without_outer_slashes(path) && (
        instance matches Some(n) ==> 1 <= n.len() <= 9 && forall|i: int|
            0 <= i < n.len() ==> '0' <= #[trigger] n[i] <= '9')
}

/// What is inferred from a key expression is a catalog topic whose key it leads to.
pub proof fn inferred_topic_is_led_to(path: Seq<char>)
    requires
        inferred(path) is Some,
    ensures
        exists|i: int| 0 <= i < TOPIC_COUNT && #[trigger] catalog()[i] == inferred(path)->Some_0,
        leads_to(path, inferred(path)->Some_0.key@),
{
    let index = choose|i: int| addressed(path, i);
    let key = catalog()[index].key@;
    let trimmed = without_outer_slashes(path);
    if ends_in_key(trimmed, key) {
        let namespace = lemma_namespace(trimmed, key);
        assert(full_key(namespace, key, None) == trimmed);
    } else {
        let (start, instance) = choose|start: Seq<char>, instance: Seq<char>|
            trimmed == #[trigger] (start + seq!['/'] + instance) && ends_in_key(start, key)
                && is_instance(instance);
        let namespace = lemma_namespace(start, key);
        assert(full_key(namespace, key, Some(instance)) == trimmed);
    }
}

proof fn lemma_namespace(path: Seq<char>, key: Seq<char>) -> (namespace: Option<Seq<char>>)
    requires
        ends_in_key(path, key),
    ensures
        full_key(namespace, key, None) == path,
{
    if path == key {
        None
    } else {
        let n = choose|namespace: Seq<char>| path == #[trigger] (namespace + seq!['/']) + key;
        assert(n + seq!['/'] + key == path);
        Some(n)
    }
}

/// A topic that is found goes by the name, or the name leads to its key, or is that of its
/// type.
pub proof fn found_topic_has_the_name(name: Seq<char>)
    requires
        known_as(name) is Some,
    ensures
        exists|i: int| 0 <= i < TOPIC_COUNT && #[trigger] catalog()[i] == known_as(name)->Some_0,
        goes_by(known_as(name)->Some_0, name) || carries(known_as(name)->Some_0, name)
            || leads_to(name, known_as(name)->Some_0.key@),
{
    lemma_first_member(catalog(), name);
    if first_named(catalog(), name) is None && inferred(name) is Some {
        inferred_topic_is_led_to(name);
    } else {
        let topic = known_as(name)->Some_0;
        lemma_goes_by(topic, name);
        if first_named(catalog(), name) is Some {
            let i = choose|i: int|
                0 <= i < catalog().len() && catalog()[i] == topic && named(topic, name);
            assert(catalog()[i] == topic);
        } else {
            let i = choose|i: int|
                0 <= i < catalog().len() && catalog()[i] == topic && typed(topic, name);
            assert(catalog()[i] == topic);
        }
    }
}

/// The timestamp of a sample is the 64-bit number that it holds: at the start of a
/// fixed-layout struct, or in the first field of a root table, if the table has it.
pub proof fn timestamp_is_the_number_in_the_sample(
    topic: TopicInfo,
    payload: Seq<u8>,
    table: nat,
    vtable: int,
    size: nat,
    offset: nat,
    value: nat,
)
    requires
        value <= u64::MAX,
    ensures
        topic.fixed_layout && payload.len() >= 8 && payload.subrange(0, 8) == le_bytes(value, 8)
            ==> timestamp_us(topic, payload) == Some(value),
        !topic.fixed_layout && lays_out(payload, table, vtable, size, 4, offset, value)
            ==> timestamp_us(topic, payload) == if size >= 6 && offset > 0 {
            Some(value)
        } else {
            None
        },
{
    lemma_read_back(value, 8);
    if lays_out(payload, table, vtable, size, 4, offset, value) {
        table_field_is_read_whole(payload, table, vtable, size, 4, offset, value);
    }
}

/// A sample and the message that a bag holds of it have the same timestamp: that of a
/// fixed-layout struct is the first field of its wrapper.
pub proof fn message_has_the_timestamp_of_its_sample(topic: TopicInfo, payload: Seq<u8>)
    requires
        topic.fixed_layout ==> 8 <= payload.len() <= 1024,
    ensures
        table_field(recorded(topic, payload), 4) == timestamp_us(topic, payload),
        topic.fixed_layout ==> recorded(topic, payload).len() == payload.len() + 14 && recorded(
            topic,
            payload,
        ).subrange(8, payload.len() as int + 8) == payload,
        !topic.fixed_layout ==> recorded(topic, payload) == payload,
{
    if topic.fixed_layout {
        wrapper_is_a_table_of_its_struct(payload);
    }
}

/// An encoding is accepted as a topic's exactly if it is the topic's value contract, to the
/// letter.
pub proof fn only_the_contract_itself_is_accepted(encoding: Seq<char>, index: int)
    requires
        0 <= index < TOPIC_COUNT,
    ensures
        catalog_sound() ==> (contracted(encoding) == Some(catalog()[index]) <==> encoding
            == contract_text(catalog()[index])),
        contracted(encoding) matches Some(topic) ==> contract_text(topic) == encoding && exists|
            i: int,
        |
            0 <= i < TOPIC_COUNT && #[trigger] catalog()[i] == topic,
{
    if contracted(encoding) is Some {
        let i = choose|i: int| contracts(encoding, i);
        assert(contracts(encoding, i));
        assert(catalog()[i] == contracted(encoding)->Some_0);
    }
    if catalog_sound() && encoding == contract_text(catalog()[index]) {
        assert(contracts(encoding, index));
        let i = choose|i: int| contracts(encoding, i);
        contract_names_one_topic(i, index);
    }
}

/// The type of a topic is the topic with the schema that its file embeds, and decodes
/// payloads as the topic with its id.
pub proof fn type_is_that_of_its_topic(topic: TopicInfo, payload: Seq<u8>)
    ensures
        type_of(topic).topic == topic,
        type_of(topic).schema == embedded_schema(topic.schema_file@)->Some_0,
        type_of(topic).decoding(payload) == decoded_text(topic.id, payload),
        opt_type_of(Some(topic)) == Some(type_of(topic)),
        opt_type_of(None) is None,
{
}

/// What is restored from a message is the payload that is recorded as that message: a
/// fixed-layout payload has the topic's size and the message is its wrapper; the message of
/// a root table is the payload itself, and restored only if it decodes.
pub proof fn restored_payload_is_the_recorded_one(
    known: TopicType,
    message: Seq<u8>,
    payload: Seq<u8>,
)
    ensures
        known.topic.payload_size matches Some(size) ==> (known.restored(message) == Some(payload)
            <==> payload.len() == size && message == wrapped(payload)),
        known.topic.payload_size is None ==> (known.restored(message) == Some(payload)
            <==> decoded_text(known.topic.id, message) is Ok && message == payload),
{
    if let Some(size) = known.topic.payload_size {
        unwrap_of_wrap(payload);
        if is_wrapper(message, size as nat) {
            wrap_of_unwrap(message, size as nat);
        }
    }
}

} // verus!
