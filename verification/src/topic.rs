//! Topics as the command line works on them: listing, observing, publishing, recording.

use vstd::prelude::*;
use vstd::string::*;
use vstd::utf8::*;

use crate::bag::{encoded, holds_recorded, registers, unix_now_ns, BagWriter};
use crate::catalog::{
    catalog, catalog_sound, contract_error, contract_text, entry_sound, TOPIC_COUNT,
};
use crate::container::{CHANNEL_LIMIT, TEXT_LIMIT};
use crate::contract_warning::{after_warning, warns, ContractWarningThrottle};
use crate::error::{because, plainly, Error, Report};
use crate::ordered::{lists, OrderedMap};
use crate::text::{decimal, number, same, views};
use crate::types::{
    contracted, known_as, only_the_contract_itself_is_accepted, opt_type_of, publication,
    publish_key, raw_keys_pass_through, subscribe_keyexpr, subscription, type_of, TopicType,
};

verus! {

/// The type of a sample by its value encoding, or why it is rejected: the encoding has to
/// be a topic's value contract, and the topic the one that is expected, if one is.
pub open spec fn value_type(
    key: Seq<char>,
    encoding: Seq<char>,
    expected: Option<TopicType>,
) -> Result<TopicType, Report> {
    match opt_type_of(contracted(encoding)) {
        None => Err(
            because(
                "topic "@ + key + " has no valid Synapse value contract"@,
                contract_error(encoding),
            ),
        ),
        Some(actual) => match expected {
            Some(expected) => if expected.topic.id != actual.topic.id {
                Err(
                    plainly(
                        "topic "@ + key + " advertises "@ + actual.topic.name@ + ", expected "@
                            + expected.topic.name@,
                    ),
                )
            } else {
                Ok(actual)
            },
            None => Ok(actual),
        },
    }
}

/// The type of a sample by its value encoding.
pub fn require_value_type(key: &str, encoding: &str, expected: Option<TopicType>) -> (r: Result<
    TopicType,
    Error,
>)
    ensures
        match r {
            Ok(known) => known.wf() && value_type(key@, encoding@, expected) == Ok::<
                TopicType,
                Report,
            >(known),
            Err(error) => value_type(key@, encoding@, expected) == Err::<TopicType, Report>(
                error@,
            ),
        },
{
    let actual = match TopicType::from_value_encoding(encoding) {
        Ok(actual) => actual,
        Err(error) => return Err(
            Error::NoValueContract { key: key.to_owned(), cause: error.message() },
        ),
    };
    match expected {
        Some(expected) => if expected.topic.id != actual.topic.id {
            return Err(
                Error::UnexpectedType {
                    key: key.to_owned(),
                    actual: actual.topic.name.to_owned(),
                    expected: expected.topic.name.to_owned(),
                },
            );
        },
        None => {},
    }
    Ok(actual)
}

/// What is due for a sample that was rejected.
pub open spec fn rejection(
    before: Map<Seq<char>, u64>,
    after: Map<Seq<char>, u64>,
    warning: Option<String>,
    key: Seq<char>,
    report: Report,
    now_ns: u64,
) -> bool {
    &&& after == after_warning(before, key, now_ns)
    &&& warning is Some <==> warns(before, key, now_ns)
    &&& warning matches Some(text) ==> text@ == "warning: rejecting "@ + key + ": "@ + report.text
}

/// What becomes of a sample: it is accepted as one of a type, or rejected, with the warning
/// about that if one is due.
#[derive(Debug)]
pub enum Intake {
    Accepted(TopicType),
    Rejected(Option<String>),
}

/// Accept a sample by its value encoding, or reject it.
pub fn take_in(
    warnings: &mut ContractWarningThrottle,
    key: &str,
    encoding: &str,
    expected: Option<TopicType>,
    now_ns: u64,
) -> (r: Intake)
    requires
        old(warnings).wf(),
    ensures
        final(warnings).wf(),
        match value_type(key@, encoding@, expected) {
            Ok(known) => r == Intake::Accepted(known) && known.wf() && final(warnings)@ == old(
                warnings,
            )@,
            Err(report) => r matches Intake::Rejected(warning) && rejection(
                old(warnings)@,
                final(warnings)@,
                warning,
                key@,
                report,
                now_ns,
            ),
        },
{
    match require_value_type(key, encoding, expected) {
        Ok(known) => Intake::Accepted(known),
        Err(error) => {
            let message = error.message();
            Intake::Rejected(warnings.warn(key, message.as_str(), now_ns))
        },
    }
}

/// To expect a type never lets a sample through that would not pass without: what is
/// accepted has a valid value contract, and is what it is without the expectation.
pub proof fn expecting_a_type_only_narrows(
    key: Seq<char>,
    encoding: Seq<char>,
    expected: TopicType,
)
    requires
        value_type(key, encoding, Some(expected)) is Ok,
    ensures
        value_type(key, encoding, None) == value_type(key, encoding, Some(expected)),
        contracted(encoding) is Some,
{
}

/// The key expression that is observed to list topics.
pub open spec fn listing_subscription(filter: Option<Seq<char>>) -> Seq<char> {
    match filter {
        Some(filter) => subscription(filter),
        None => "**"@,
    }
}

/// The key expression that is observed to list topics: that of a filter, or everything.
pub fn listing_keyexpr(filter: Option<&String>) -> (r: String)
    ensures
        r@ == listing_subscription(
            match filter {
                Some(filter) => Some(filter@),
                None => None,
            },
        ),
        r@ == match filter {
            Some(filter) => subscription(filter@),
            None => "**"@,
        },
{
    match filter {
        Some(filter) => subscribe_keyexpr(filter.as_str()),
        None => "**".to_owned(),
    }
}

/// The topics that were seen, with the names of their types.
#[derive(Debug)]
pub struct TopicListing {
    type_filter: Option<TopicType>,
    topics: OrderedMap<String>,
}

impl View for TopicListing {
    type V = Map<Seq<char>, Seq<char>>;

    closed spec fn view(&self) -> Map<Seq<char>, Seq<char>> {
        self.topics@
    }
}

/// Whether a type passes a filter.
pub open spec fn type_passes(filter: Option<TopicType>, known: TopicType) -> bool {
    filter matches Some(expected) ==> expected.topic.id == known.topic.id
}

impl TopicListing {
    /// The topics are in order, and if one type is listed, each is of it.
    pub closed spec fn wf(&self) -> bool {
        &&& self.topics.wf()
        &&& self.type_filter matches Some(known) ==> known.wf() && forall|key: Seq<char>|
            self@.dom().contains(key) ==> #[trigger] self@[key] == known.topic.name@
    }

    /// If one type is listed, each topic in the listing is of it.
    pub proof fn lists_its_type(&self, key: Seq<char>)
        requires
            self.wf(),
            self.filter() is Some,
            self@.dom().contains(key),
        ensures
            self@[key] == self.filter()->Some_0.topic.name@,
    {
    }

    /// The type that is listed, if it is only one.
    pub closed spec fn filter(&self) -> Option<TopicType> {
        self.type_filter
    }

    /// Nothing was seen yet.
    pub fn new(type_filter: Option<TopicType>) -> (r: TopicListing)
        requires
            type_filter matches Some(known) ==> known.wf(),
        ensures
            r.wf(),
            r.filter() == type_filter,
            r@ == Map::<Seq<char>, Seq<char>>::empty(),
    {
        TopicListing { type_filter, topics: OrderedMap::new() }
    }

    /// A sample was seen. A topic that changes its type ends the listing. A sample that is
    /// rejected is passed over, and the warning about it returned if one is due.
    pub fn see(
        &mut self,
        warnings: &mut ContractWarningThrottle,
        key: &str,
        encoding: &str,
        now_ns: u64,
    ) -> (r: Result<Option<String>, Error>)
        requires
            old(self).wf(),
            old(warnings).wf(),
        ensures
            final(self).wf(),
            final(warnings).wf(),
            final(self).filter() == old(self).filter(),
            match value_type(key@, encoding@, None) {
                Err(report) => r is Ok && final(self)@ == old(self)@ && rejection(
                    old(warnings)@,
                    final(warnings)@,
                    r->Ok_0,
                    key@,
                    report,
                    now_ns,
                ),
                Ok(known) => final(warnings)@ == old(warnings)@ && if !type_passes(
                    old(self).filter(),
                    known,
                ) {
                    r is Ok && r->Ok_0 is None && final(self)@ == old(self)@
                } else {
                    let name = known.topic.name@;
                    &&& final(self)@ == old(self)@.insert(key@, name)
                    &&& if old(self)@.dom().contains(key@) && old(self)@[key@] != name {
                        r is Err && r->Err_0@ == plainly(
                            "topic "@ + key@ + " changed value type from "@ + old(self)@[key@]
                                + " to "@ + name,
                        )
                    } else {
                        r is Ok && r->Ok_0 is None
                    }
                },
            },
            final(self)@ == listed(old(self)@, old(self).filter(), key@, encoding@),
            r is Err <==> changes_type(old(self)@, final(self)@, key@),
    {
        let known = match take_in(warnings, key, encoding, None, now_ns) {
            Intake::Accepted(known) => known,
            Intake::Rejected(warning) => return Ok(warning),
        };
        match self.type_filter {
            Some(expected) => if expected.topic.id != known.topic.id {
                return Ok(None);
            },
            None => {},
        }
        let previous = match self.topics.get(key) {
            Some(previous) => Some(previous.clone()),
            None => None,
        };
        self.topics.insert(key.to_owned(), known.topic.name.to_owned());
        match previous {
            Some(previous) => if !same(previous.as_str(), known.topic.name) {
                return Err(
                    Error::TypeChanged {
                        key: key.to_owned(),
                        previous,
                        current: known.topic.name.to_owned(),
                    },
                );
            },
            None => {},
        }
        Ok(None)
    }

    /// A line for each topic, in the order of the keys.
    pub fn lines(&self) -> (r: Vec<String>)
        requires
            self.wf(),
        ensures
            exists|keys: Seq<Seq<char>>, names: Seq<Seq<char>>| #[trigger]
                lists(keys, names, self@) && views(r@) == listing_text(keys, names),
    {
        let ghost keys = self.topics.key_list();
        let ghost names = self.topics.value_list();
        proof {
            self.topics.lemma_lists();
        }
        let mut r: Vec<String> = Vec::new();
        let mut i: usize = 0;
        while i < self.topics.len()
            invariant
                self.topics.wf(),
                keys == self.topics.key_list(),
                names == self.topics.value_list(),
                keys.len() == names.len(),
                i <= keys.len(),
                views(r@) =~= listing_text(keys, names).take(i as int),
            decreases keys.len() - i,
        {
            let ghost before = views(r@);
            let mut line = self.topics.key_at(i).clone();
            line.append(" [");
            line.append(self.topics.value_at(i).as_str());
            line.append("]");
            r.push(line);
            assert(views(r@) =~= before.push(listing_text(keys, names)[i as int]));
            i = i + 1;
        }
        assert(views(r@) =~= listing_text(keys, names));
        assert(lists(keys, names, self@));
        r
    }
}

/// The lines of a listing: each key with the name of its type.
pub open spec fn listing_text(keys: Seq<Seq<char>>, names: Seq<Seq<char>>) -> Seq<Seq<char>> {
    Seq::new(keys.len(), |i: int| keys[i] + " ["@ + names[i] + "]"@)
}

/// A sample as it arrives: its key, its value encoding, and the bytes of its payload.
pub struct Arrival {
    pub key: Seq<char>,
    pub encoding: Seq<char>,
    pub payload_len: usize,
}

/// The topics that were seen, with one more sample.
pub open spec fn listed(
    topics: Map<Seq<char>, Seq<char>>,
    filter: Option<TopicType>,
    key: Seq<char>,
    encoding: Seq<char>,
) -> Map<Seq<char>, Seq<char>> {
    match value_type(key, encoding, None) {
        Ok(known) => if type_passes(filter, known) {
            topics.insert(key, known.topic.name@)
        } else {
            topics
        },
        Err(_) => topics,
    }
}

/// Whether a key is listed under another type than before.
pub open spec fn changes_type(
    before: Map<Seq<char>, Seq<char>>,
    after: Map<Seq<char>, Seq<char>>,
    key: Seq<char>,
) -> bool {
    before.dom().contains(key) && after[key] != before[key]
}

/// What was observed on a key expression. The first valid sample settles the type.
#[derive(Debug)]
pub struct TopicObservation {
    pub samples: u64,
    pub bytes: u64,
    pub known_type: Option<TopicType>,
}

impl TopicObservation {
    /// The type, if there is one, is that of a catalog topic.
    pub open spec fn wf(self) -> bool {
        self.known_type matches Some(known) ==> known.wf()
    }

    /// What was observed, with one more sample.
    pub open spec fn with(
        self,
        key: Seq<char>,
        encoding: Seq<char>,
        payload_len: usize,
    ) -> TopicObservation {
        match value_type(key, encoding, self.known_type) {
            Ok(known) => TopicObservation {
                samples: (self.samples + 1) as u64,
                bytes: (self.bytes + payload_len) as u64,
                known_type: Some(known),
            },
            Err(_) => self,
        }
    }

    /// Nothing was observed yet.
    pub fn new() -> (r: TopicObservation)
        ensures
            r.wf(),
            r.samples == 0,
            r.bytes == 0,
            r.known_type is None,
    {
        TopicObservation { samples: 0, bytes: 0, known_type: None }
    }

    /// A sample was seen. One that is not of the type that is settled is rejected, and the
    /// warning about it returned if one is due.
    pub fn see(
        &mut self,
        warnings: &mut ContractWarningThrottle,
        key: &str,
        encoding: &str,
        payload_len: usize,
        now_ns: u64,
    ) -> (r: Option<String>)
        requires
            old(self).wf(),
            old(warnings).wf(),
            old(self).samples < u64::MAX,
            old(self).bytes + payload_len <= u64::MAX,
        ensures
            final(self).wf(),
            final(warnings).wf(),
            match value_type(key@, encoding@, old(self).known_type) {
                Err(report) => *final(self) == *old(self) && rejection(
                    old(warnings)@,
                    final(warnings)@,
                    r,
                    key@,
                    report,
                    now_ns,
                ),
                Ok(known) => r is None && final(warnings)@ == old(warnings)@
                    && final(self).known_type == Some(known) && final(self).samples == old(
                    self,
                ).samples + 1 && final(self).bytes == old(self).bytes + payload_len,
            },
            *final(self) == old(self).with(key@, encoding@, payload_len),
    {
        let known = match take_in(warnings, key, encoding, self.known_type, now_ns) {
            Intake::Accepted(known) => known,
            Intake::Rejected(warning) => return warning,
        };
        self.known_type = Some(known);
        self.samples = self.samples + 1;
        self.bytes = self.bytes + payload_len as u64;
        None
    }
}

/// The type that the first valid sample settles stays: whatever sample is accepted after it
/// is of that type.
pub proof fn settled_type_stays(
    key: Seq<char>,
    encoding: Seq<char>,
    settled: TopicType,
    next: TopicType,
)
    requires
        settled.wf(),
        next.wf(),
        value_type(key, encoding, Some(settled)) == Ok::<TopicType, Report>(next),
    ensures
        next == settled,
{
}

/// The bytes to publish: those of a text, or none where they are to be read from a file.
pub fn text_payload(has_file: bool, text: Option<&String>) -> (r: Result<Option<Vec<u8>>, Error>)
    ensures
        !has_file && text is None ==> r == Err::<Option<Vec<u8>>, Error>(Error::NoPayload),
        has_file && text is Some ==> r == Err::<Option<Vec<u8>>, Error>(Error::TwoPayloads),
        has_file && text is None ==> r == Ok::<Option<Vec<u8>>, Error>(None),
        !has_file && text is Some ==> r is Ok && r->Ok_0 is Some && r->Ok_0->Some_0@ == encode_utf8(
            text->Some_0@,
        ),
        r is Ok <==> has_file != (text is Some),
        !has_file && text is Some ==> decode_utf8(r->Ok_0->Some_0@) == text->Some_0@,
{
    match (has_file, text) {
        (true, None) => Ok(None),
        (false, Some(text)) => {
            let mut bytes: Vec<u8> = Vec::new();
            bytes.extend_from_slice(text.as_str().as_bytes());
            assert(bytes@ =~= encode_utf8(text@));
            proof {
                encode_utf8_decode_utf8(text@);
            }
            Ok(Some(bytes))
        },
        (false, None) => Err(Error::NoPayload),
        (true, Some(_)) => Err(Error::TwoPayloads),
    }
}

/// Where and under which encoding a payload is published.
#[derive(Debug)]
pub struct PublishPlan {
    pub key: String,
    pub encoding: String,
}

/// Where and under which encoding a payload is published, or why it is not.
pub open spec fn planned(topic: Seq<char>, ty: Seq<char>, payload: Seq<u8>) -> Result<
    (Seq<char>, Seq<char>),
    Report,
> {
    match opt_type_of(known_as(ty)) {
        None => Err(plainly("unknown Synapse topic '"@ + ty + "'"@)),
        Some(known) => match known.decoding(payload) {
            Err(failure) => Err(
                because(
                    "payload does not match required type "@ + ty,
                    known.topic.name@ + ": "@ + failure.text(),
                ),
            ),
            Ok(_) => Ok((publication(topic), contract_text(known.topic))),
        },
    }
}

/// Plan to publish a payload, which has to be of the required type.
pub fn plan_publication(topic: &str, ty: &str, payload: &[u8]) -> (r: Result<PublishPlan, Error>)
    ensures
        match planned(topic@, ty@, payload@) {
            Ok((key, encoding)) => r is Ok && r->Ok_0.key@ == key && r->Ok_0.encoding@ == encoding,
            Err(report) => r is Err && r->Err_0@ == report,
        },
        match opt_type_of(known_as(ty@)) {
            None => r is Err && r->Err_0@ == plainly("unknown Synapse topic '"@ + ty@ + "'"@),
            Some(known) => match known.decoding(payload@) {
                Err(failure) => r is Err && r->Err_0@ == because(
                    "payload does not match required type "@ + ty@,
                    known.topic.name@ + ": "@ + failure.text(),
                ),
                Ok(_) => r is Ok && r->Ok_0.key@ == publication(topic@) && r->Ok_0.encoding@
                    == contract_text(known.topic),
            },
        },
{
    let key = publish_key(topic);
    let known = match TopicType::require(ty) {
        Ok(known) => known,
        Err(error) => return Err(error),
    };
    match known.decode(payload) {
        Ok(_) => Ok(PublishPlan { key, encoding: known.zenoh_encoding() }),
        Err(error) => Err(
            Error::PublishPayload { ty: ty.to_owned(), cause: error.message() },
        ),
    }
}

/// Work that is done over and over, up to a limit if there is one: samples that are
/// published or recorded.
#[derive(Clone, Copy, Debug)]
pub struct Progress {
    pub done: u64,
    pub limit: Option<u64>,
}

/// The most samples to publish, if there is a limit: the count that is asked for, and one
/// at most if the publication does not repeat.
pub open spec fn quota(count: Option<u64>, repeats: bool) -> Option<u64> {
    if repeats {
        count
    } else if count == Some(0u64) {
        Some(0)
    } else {
        Some(1)
    }
}

impl Progress {
    /// Whether the work goes on, unless something else stops it.
    pub open spec fn going(self, stopped: bool) -> bool {
        !stopped && (self.limit matches Some(limit) ==> self.done < limit)
    }

    /// The work with one more done.
    pub open spec fn counted(self) -> Progress {
        Progress { done: (self.done + 1) as u64, limit: self.limit }
    }

    /// The work after some rounds, if before each it is asked whether something stops it.
    pub open spec fn after(self, stops: Seq<bool>) -> Progress
        decreases stops.len(),
    {
        if stops.len() == 0 || !self.going(stops[0]) {
            self
        } else {
            self.counted().after(stops.drop_first())
        }
    }

    /// Nothing was done yet.
    pub fn new(limit: Option<u64>) -> (r: Progress)
        ensures
            r.done == 0,
            r.limit == limit,
    {
        Progress { done: 0, limit }
    }

    /// Nothing was published yet. Without repetition a sample is published once.
    pub fn publishing(count: Option<u64>, repeats: bool) -> (r: Progress)
        ensures
            r.done == 0,
            r.limit == quota(count, repeats),
    {
        if repeats {
            return Progress::new(count);
        }
        match count {
            Some(0) => Progress::new(Some(0)),
            _ => Progress::new(Some(1)),
        }
    }

    /// Whether to go on, unless something else stops the work.
    pub fn goes_on(self, stopped: bool) -> (r: bool)
        ensures
            r == self.going(stopped),
    {
        match self.limit {
            Some(limit) => !stopped && self.done < limit,
            None => !stopped,
        }
    }

    /// One more is done.
    pub fn count(&mut self)
        requires
            old(self).done < u64::MAX,
        ensures
            final(self).done == old(self).done + 1,
            *final(self) == old(self).counted(),
    {
        self.done = self.done + 1;
    }
}

/// Work that nothing stops is done once a round until its limit, and not beyond it.
pub proof fn undisturbed_work_reaches_its_limit(progress: Progress, stops: Seq<bool>)
    requires
        forall|i: int| 0 <= i < stops.len() ==> !#[trigger] stops[i],
        progress.limit matches Some(limit) ==> progress.done <= limit,
        progress.limit is None ==> progress.done + stops.len() <= u64::MAX,
    ensures
        progress.after(stops).limit == progress.limit,
        progress.after(stops).done == match progress.limit {
            Some(limit) => if progress.done + stops.len() <= limit {
                progress.done + stops.len()
            } else {
                limit as int
            },
            None => progress.done + stops.len(),
        },
    decreases stops.len(),
{
    if stops.len() > 0 && progress.going(stops[0]) {
        undisturbed_work_reaches_its_limit(progress.counted(), stops.drop_first());
    }
}

/// A publication that does not repeat is made once, however often it is asked whether to
/// go on, unless none is asked for or it is stopped before it.
pub proof fn publication_without_repetition_is_made_once(
    progress: Progress,
    count: Option<u64>,
    stops: Seq<bool>,
)
    requires
        progress.done == 0,
        progress.limit == quota(count, false),
        stops.len() > 0,
    ensures
        progress.after(stops).done == if count == Some(0u64) || stops[0] {
            0int
        } else {
            1int
        },
{
    reveal_with_fuel(Progress::after, 3);
}

/// Whether `r` is what recording a sample of a type gives if the clock gave `now`: a
/// reading that fails is handed on, and nothing is recorded; else the sample is in the bag
/// and counted, or it is not of its type, and at most its channel is in the bag.
pub open spec fn records(
    before: BagWriter,
    after: BagWriter,
    had: Progress,
    has: Progress,
    key: Seq<char>,
    known: TopicType,
    now: Result<u64, Error>,
    payload: Seq<u8>,
    r: Result<(), Error>,
) -> bool {
    match now {
        Err(error) => r == Err::<(), Error>(error) && after == before && has == had,
        Ok(log_time_ns) => match encoded(known, log_time_ns, payload) {
            Ok(_) => {
                &&& r is Ok
                &&& holds_recorded(before, after, key, known, log_time_ns, payload)
                &&& has.done == had.done + 1
                &&& has.limit == had.limit
            },
            Err(report) => {
                &&& r is Err
                &&& r->Err_0@ == report
                &&& registers(before, after, key, known.topic.id)
                &&& has == had
            },
        },
    }
}

/// Record a sample of a type, under the time that the clock gave.
pub fn record_at(
    bag: &mut BagWriter,
    progress: &mut Progress,
    key: &str,
    known: TopicType,
    now: Result<u64, Error>,
    payload: &[u8],
) -> (r: Result<(), Error>)
    requires
        old(bag).wf(),
        known.wf(),
        encode_utf8(key@).len() <= TEXT_LIMIT,
        old(bag).channels().dom().contains(key@) || old(bag).channel_count() < CHANNEL_LIMIT,
        old(progress).done < u64::MAX,
    ensures
        final(bag).wf(),
        final(bag).profile() == old(bag).profile(),
        records(
            *old(bag),
            *final(bag),
            *old(progress),
            *final(progress),
            key@,
            known,
            now,
            payload@,
            r,
        ),
{
    let log_time_ns: u64 = match now {
        Ok(now) => now,
        Err(error) => return Err(error),
    };
    match bag.write_sample(key, known, log_time_ns, payload) {
        Ok(_) => {
            progress.count();
            Ok(())
        },
        Err(error) => Err(error),
    }
}

/// Whether the sample was recorded or rejected, or why neither.
pub open spec fn settled(r: Result<Option<String>, Error>) -> Result<(), Error> {
    match r {
        Ok(_) => Ok(()),
        Err(error) => Err(error),
    }
}

/// Record a sample that was received, under the time at which it is recorded. A sample
/// that is rejected is not recorded, and the warning about it returned if one is due. One
/// that is accepted is recorded, unless the clock stands before 1970 or the payload cannot
/// be encoded.
pub fn record_sample(
    bag: &mut BagWriter,
    progress: &mut Progress,
    warnings: &mut ContractWarningThrottle,
    key: &str,
    encoding: &str,
    payload: &[u8],
    expected: Option<TopicType>,
    now_ns: u64,
) -> (r: Result<Option<String>, Error>)
    requires
        old(bag).wf(),
        old(warnings).wf(),
        encode_utf8(key@).len() <= TEXT_LIMIT,
        old(bag).channels().dom().contains(key@) || old(bag).channel_count() < CHANNEL_LIMIT,
        old(progress).done < u64::MAX,
    ensures
        final(bag).wf(),
        final(warnings).wf(),
        final(bag).profile() == old(bag).profile(),
        match value_type(key@, encoding@, expected) {
            Err(report) => r is Ok && *final(bag) == *old(bag) && *final(progress) == *old(progress)
                && rejection(
                old(warnings)@,
                final(warnings)@,
                r->Ok_0,
                key@,
                report,
                now_ns,
            ),
            Ok(known) => {
                &&& final(warnings)@ == old(warnings)@
                &&& r is Ok ==> r->Ok_0 is None
                &&& r is Err ==> r->Err_0 is ClockBeforeEpoch || forall|log_time_ns: u64|
                    #[trigger] encoded(known, log_time_ns, payload@) == Err::<
                        (int, Seq<u8>),
                        Report,
                    >(r->Err_0@)
                &&& exists|now: Result<u64, Error>|
                    (now is Err ==> now->Err_0 is ClockBeforeEpoch) && #[trigger] records(
                        *old(bag),
                        *final(bag),
                        *old(progress),
                        *final(progress),
                        key@,
                        known,
                        now,
                        payload@,
                        settled(r),
                    )
            },
        },
{
    let known = match take_in(warnings, key, encoding, expected, now_ns) {
        Intake::Accepted(known) => known,
        Intake::Rejected(warning) => return Ok(warning),
    };
    let now = unix_now_ns();
    let ghost reading = now;
    let r = match record_at(bag, progress, key, known, now, payload) {
        Ok(_) => Ok(None),
        Err(error) => Err(error),
    };
    assert(records(
        *old(bag),
        *bag,
        *old(progress),
        *progress,
        key@,
        known,
        reading,
        payload@,
        settled(r),
    ));
    r
}

/// What is told when work is done.
pub open spec fn outcome_text(verb: Seq<char>, done: nat, noun: Seq<char>, place: Seq<char>) -> Seq<
    char,
> {
    verb + " "@ + decimal(done) + " "@ + noun + " "@ + place
}

/// What is told when work is done, such as `recorded 3 sample(s) to a.mcap`.
pub fn outcome(verb: &str, done: u64, noun: &str, place: &str) -> (r: String)
    ensures
        r@ == outcome_text(verb@, done as nat, noun@, place@),
{
    let mut text = verb.to_owned();
    text.append(" ");
    text.append(number(done).as_str());
    text.append(" ");
    text.append(noun);
    text.append(" ");
    text.append(place);
    text
}

/// A sample is let in exactly if its encoding is the value contract of a catalog topic, and
/// that of the topic that is expected, if one is; it is of that topic then. Any other is
/// rejected with the reason.
pub proof fn sample_is_let_in_by_its_contract(
    key: Seq<char>,
    encoding: Seq<char>,
    expected: Option<TopicType>,
    index: int,
)
    requires
        0 <= index < TOPIC_COUNT,
    ensures
        catalog_sound() && encoding == contract_text(catalog()[index]) ==> {
            let name = catalog()[index].name@;
            &&& expected is None ==> value_type(key, encoding, expected) == Ok::<
                TopicType,
                Report,
            >(type_of(catalog()[index]))
            &&& expected matches Some(e) ==> if e.topic.id == index + 1 {
                value_type(key, encoding, expected) == Ok::<TopicType, Report>(
                    type_of(catalog()[index]),
                )
            } else {
                value_type(key, encoding, expected) == Err::<TopicType, Report>(
                    Report {
                        text: "topic "@ + key + " advertises "@ + name + ", expected "@
                            + e.topic.name@,
                        cause: None,
                    },
                )
            }
        },
        (forall|i: int|
            0 <= i < TOPIC_COUNT ==> contract_text(#[trigger] catalog()[i]) != encoding)
            ==> value_type(key, encoding, expected) == Err::<TopicType, Report>(
            Report {
                text: "topic "@ + key + " has no valid Synapse value contract"@,
                cause: Some(contract_error(encoding)),
            },
        ),
        value_type(key, encoding, expected) matches Ok(known) ==> contract_text(known.topic)
            == encoding && known == type_of(known.topic) && (expected matches Some(e)
            ==> e.topic.id == known.topic.id),
{
    only_the_contract_itself_is_accepted(encoding, index);
    if catalog_sound() {
        assert(entry_sound(index, catalog()[index]));
    }
    if contracted(encoding) is Some {
        let i = choose|i: int|
            0 <= i < TOPIC_COUNT && #[trigger] catalog()[i] == contracted(encoding)->Some_0;
        assert(contract_text(catalog()[i]) == encoding);
    }
}

/// A sample that is rejected is warned about with its key and the reason, if it is warned
/// about at all, and that is noted for its key.
pub proof fn rejection_names_the_key_and_the_reason(
    before: Map<Seq<char>, u64>,
    after: Map<Seq<char>, u64>,
    warning: Option<String>,
    key: Seq<char>,
    report: Report,
    now_ns: u64,
)
    requires
        rejection(before, after, warning, key, report, now_ns),
    ensures
        warning matches Some(text) ==> text@ == "warning: rejecting "@ + key + ": "@ + report.text,
        warning is Some ==> after.dom().contains(key) && after[key] == now_ns,
        !before.dom().contains(key) ==> warning is Some,
{
}

/// Whether an arrival is listed: it has a valid value contract, of the type that is listed
/// if it is only one.
pub open spec fn is_listed(arrival: Arrival, filter: Option<TopicType>) -> bool {
    value_type(arrival.key, arrival.encoding, None) matches Ok(known) && (filter matches Some(
        expected,
    ) ==> expected.topic.id == known.topic.id)
}

/// The topics that are listed after some samples arrived.
pub open spec fn listing_of(arrivals: Seq<Arrival>, filter: Option<TopicType>) -> Map<
    Seq<char>,
    Seq<char>,
>
    decreases arrivals.len(),
{
    if arrivals.len() == 0 {
        Map::empty()
    } else {
        listed(
            listing_of(arrivals.drop_last(), filter),
            filter,
            arrivals.last().key,
            arrivals.last().encoding,
        )
    }
}

/// A key is listed exactly if a sample on it was, with the name of the type of the last
/// such sample.
pub proof fn listing_holds_the_last_type_of_each_key(
    arrivals: Seq<Arrival>,
    filter: Option<TopicType>,
    key: Seq<char>,
    at: int,
)
    requires
        -1 <= at < arrivals.len(),
        at >= 0 ==> arrivals[at].key == key && is_listed(arrivals[at], filter),
        forall|k: int|
            at < k < arrivals.len() ==> (#[trigger] arrivals[k]).key != key || !is_listed(
                arrivals[k],
                filter,
            ),
    ensures
        listing_of(arrivals, filter).dom().contains(key) <==> at >= 0,
        at >= 0 ==> listing_of(arrivals, filter)[key] == value_type(
            arrivals[at].key,
            arrivals[at].encoding,
            None,
        )->Ok_0.topic.name@,
    decreases arrivals.len(),
{
    if arrivals.len() > 0 && at < arrivals.len() - 1 {
        let before = arrivals.drop_last();
        assert forall|k: int| at < k < before.len() implies (#[trigger] before[k]).key != key
            || !is_listed(before[k], filter) by {
            assert(before[k] == arrivals[k]);
        }
        if at >= 0 {
            assert(before[at] == arrivals[at]);
        }
        listing_holds_the_last_type_of_each_key(before, filter, key, at);
        assert(arrivals[arrivals.len() - 1].key != key || !is_listed(
            arrivals[arrivals.len() - 1],
            filter,
        ));
    }
}

/// Each line of a listing has a key and the name of its type in brackets.
pub proof fn listing_has_a_line_for_each_key(
    keys: Seq<Seq<char>>,
    names: Seq<Seq<char>>,
    index: int,
)
    requires
        0 <= index < keys.len(),
    ensures
        listing_text(keys, names).len() == keys.len(),
        listing_text(keys, names)[index] == keys[index] + " ["@ + names[index] + "]"@,
{
}

/// What is observed after some samples arrived.
pub open spec fn observation_of(arrivals: Seq<Arrival>) -> TopicObservation
    decreases arrivals.len(),
{
    if arrivals.len() == 0 {
        TopicObservation { samples: 0, bytes: 0, known_type: None }
    } else {
        observation_of(arrivals.drop_last()).with(
            arrivals.last().key,
            arrivals.last().encoding,
            arrivals.last().payload_len,
        )
    }
}

/// The bytes of some samples.
pub open spec fn bytes_of(arrivals: Seq<Arrival>) -> nat
    decreases arrivals.len(),
{
    if arrivals.len() == 0 {
        0
    } else {
        bytes_of(arrivals.drop_last()) + arrivals.last().payload_len as nat
    }
}

/// The samples with a value contract.
pub open spec fn samples_of(arrivals: Seq<Arrival>, contract: Seq<char>) -> Seq<Arrival> {
    arrivals.filter(|arrival: Arrival| arrival.encoding == contract)
}

/// What is observed is settled by the first sample with a valid value contract: its type is
/// that of all that are counted, and exactly those with the same contract are counted, with
/// the bytes of their payloads. Without such a sample nothing is.
pub proof fn observation_counts_the_samples_of_one_type(arrivals: Seq<Arrival>, at: int)
    requires
        0 <= at <= arrivals.len(),
        forall|k: int|
            0 <= k < at ==> contracted((#[trigger] arrivals[k]).encoding) is None,
        at < arrivals.len() ==> contracted(arrivals[at].encoding) is Some,
        arrivals.len() <= u64::MAX,
        at < arrivals.len() ==> bytes_of(samples_of(arrivals, arrivals[at].encoding)) <= u64::MAX,
    ensures
        at == arrivals.len() ==> observation_of(arrivals).samples == 0 && observation_of(
            arrivals,
        ).bytes == 0 && observation_of(arrivals).known_type is None,
        catalog_sound() && at < arrivals.len() ==> {
            let counted = samples_of(arrivals, arrivals[at].encoding);
            &&& observation_of(arrivals).samples == counted.len()
            &&& observation_of(arrivals).bytes == bytes_of(counted)
            &&& observation_of(arrivals).known_type == opt_type_of(
                contracted(arrivals[at].encoding),
            )
        },
    decreases arrivals.len(),
{
    reveal(Seq::filter);
    if arrivals.len() > 0 {
        let before = arrivals.drop_last();
        let last = arrivals.last();
        if at == arrivals.len() {
            assert forall|k: int| 0 <= k < before.len() implies contracted(
                (#[trigger] before[k]).encoding,
            ) is None by {
                assert(before[k] == arrivals[k]);
            }
            observation_counts_the_samples_of_one_type(before, at - 1);
            assert(contracted(arrivals[at - 1].encoding) is None);
        } else if catalog_sound() {
            let encoding = arrivals[at].encoding;
            let pred = |arrival: Arrival| arrival.encoding == encoding;
            assert forall|k: int| 0 <= k < at && k < before.len() implies contracted(
                (#[trigger] before[k]).encoding,
            ) is None by {
                assert(before[k] == arrivals[k]);
            }
            let counted = samples_of(arrivals, encoding);
            let earlier = samples_of(before, encoding);
            lemma_one_contract(encoding, last.encoding);
            if pred(last) {
                assert(counted =~= earlier.push(last));
                assert(counted.drop_last() =~= earlier);
            } else {
                assert(counted == earlier);
            }
            lemma_filtered_len(arrivals, pred);
            if at < before.len() {
                assert(before[at] == arrivals[at]);
                observation_counts_the_samples_of_one_type(before, at);
            } else {
                observation_counts_the_samples_of_one_type(before, before.len() as int);
                lemma_none_counted(before, encoding);
                assert(last == arrivals[at]);
                assert(bytes_of(earlier) == 0);
            }
        }
    }
}

proof fn lemma_filtered_len(arrivals: Seq<Arrival>, pred: spec_fn(Arrival) -> bool)
    ensures
        arrivals.filter(pred).len() <= arrivals.len(),
    decreases arrivals.len(),
{
    reveal(Seq::filter);
    if arrivals.len() > 0 {
        lemma_filtered_len(arrivals.drop_last(), pred);
    }
}

proof fn lemma_none_counted(arrivals: Seq<Arrival>, encoding: Seq<char>)
    requires
        contracted(encoding) is Some,
        forall|k: int|
            0 <= k < arrivals.len() ==> contracted((#[trigger] arrivals[k]).encoding) is None,
    ensures
        samples_of(arrivals, encoding).len() == 0,
    decreases arrivals.len(),
{
    reveal(Seq::filter);
    if arrivals.len() > 0 {
        let before = arrivals.drop_last();
        assert forall|k: int| 0 <= k < before.len() implies contracted(
            (#[trigger] before[k]).encoding,
        ) is None by {
            assert(before[k] == arrivals[k]);
        }
        lemma_none_counted(before, encoding);
        assert(contracted(arrivals[arrivals.len() - 1].encoding) is None);
    }
}

proof fn lemma_one_contract(a: Seq<char>, b: Seq<char>)
    requires
        catalog_sound(),
        contracted(a) is Some,
    ensures
        contracted(b) matches Some(topic) ==> (topic.id == contracted(a)->Some_0.id <==> a == b),
{
    only_the_contract_itself_is_accepted(a, 0);
    only_the_contract_itself_is_accepted(b, 0);
    if contracted(b) is Some {
        let i = choose|i: int|
            0 <= i < TOPIC_COUNT && #[trigger] catalog()[i] == contracted(a)->Some_0;
        let j = choose|j: int|
            0 <= j < TOPIC_COUNT && #[trigger] catalog()[j] == contracted(b)->Some_0;
        assert(entry_sound(i, catalog()[i]));
        assert(entry_sound(j, catalog()[j]));
    }
}

/// A payload is published exactly if its type is known and it decodes as one of it: under
/// the value contract of that type, on the key that the topic names, which is the topic as
/// it is if that has a slash.
pub proof fn publication_is_of_the_required_type(
    topic: Seq<char>,
    ty: Seq<char>,
    payload: Seq<u8>,
)
    ensures
        planned(topic, ty, payload) is Ok <==> known_as(ty) is Some && type_of(
            known_as(ty)->Some_0,
        ).decoding(payload) is Ok,
        planned(topic, ty, payload) matches Ok((key, encoding)) ==> encoding == contract_text(
            known_as(ty)->Some_0,
        ) && key == publication(topic) && (topic.contains('/') ==> key == topic),
        known_as(ty) is None ==> planned(topic, ty, payload) == Err::<
            (Seq<char>, Seq<char>),
            Report,
        >(Report { text: "unknown Synapse topic '"@ + ty + "'"@, cause: None }),
        known_as(ty) is Some && planned(topic, ty, payload) is Err ==> planned(
            topic,
            ty,
            payload,
        )->Err_0 == (Report {
            text: "payload does not match required type "@ + ty,
            cause: Some(
                known_as(ty)->Some_0.name@ + ": "@ + type_of(known_as(ty)->Some_0).decoding(
                    payload,
                )->Err_0.text(),
            ),
        }),
{
    if topic.contains('/') {
        raw_keys_pass_through(topic);
    }
}

/// Work that is stopped before a round is not done in it or after it.
pub proof fn stopped_work_is_over(progress: Progress, stops: Seq<bool>, at: int)
    requires
        0 <= at < stops.len(),
        stops[at],
        progress.done + at <= u64::MAX,
    ensures
        progress.done <= progress.after(stops).done <= progress.done + at,
    decreases stops.len(),
{
    if at > 0 && progress.going(stops[0]) {
        assert(stops.drop_first()[at - 1] == stops[at]);
        stopped_work_is_over(progress.counted(), stops.drop_first(), at - 1);
    }
}

/// What is told when work is done says what was done, how often, to what and where.
pub proof fn outcome_tells_how_much_was_done(
    verb: Seq<char>,
    done: nat,
    noun: Seq<char>,
    place: Seq<char>,
)
    ensures
        outcome_text(verb, done, noun, place).len() == verb.len() + decimal(done).len() + noun.len()
            + place.len() + 3,
        outcome_text(verb, done, noun, place).take(verb.len() as int) == verb,
        outcome_text(verb, done, noun, place).subrange(
            verb.len() as int + 1,
            verb.len() as int + 1 + decimal(done).len(),
        ) == decimal(done),
        outcome_text(verb, done, noun, place).skip(
            verb.len() as int + decimal(done).len() + noun.len() + 3,
        ) == place,
{
    reveal_strlit(" ");
    let text = outcome_text(verb, done, noun, place);
    assert(text.take(verb.len() as int) =~= verb);
    assert(text.subrange(verb.len() as int + 1, verb.len() as int + 1 + decimal(done).len()) =~= decimal(
        done,
    ));
    assert(text.skip(verb.len() as int + decimal(done).len() + noun.len() + 3) =~= place);
}

/// Without a filter everything is observed to list topics; with one, what it names: a filter
/// with a slash is observed as it is.
pub proof fn listing_observes_its_filter(filter: Seq<char>)
    ensures
        listing_subscription(None) == "**"@,
        listing_subscription(Some(filter)) == subscription(filter),
        filter.contains('/') ==> listing_subscription(Some(filter)) == filter,
{
    if filter.contains('/') {
        raw_keys_pass_through(filter);
    }
}

/// A listing ends exactly with a sample that is listed and changes the type of a key that
/// was listed before.
pub proof fn listing_ends_where_a_key_changes_its_type(
    topics: Map<Seq<char>, Seq<char>>,
    filter: Option<TopicType>,
    arrival: Arrival,
)
    ensures
        changes_type(
            topics,
            listed(topics, filter, arrival.key, arrival.encoding),
            arrival.key,
        ) <==> is_listed(arrival, filter) && topics.dom().contains(arrival.key)
            && topics[arrival.key] != value_type(
            arrival.key,
            arrival.encoding,
            None,
        )->Ok_0.topic.name@,
{
}

/// A sample that is recorded is in the bag under the time that the clock gave, on its key,
/// and counted. Without a time nothing changes; and a payload that cannot be encoded leaves
/// the messages and the count as they were.
pub proof fn recorded_sample_is_counted_once(
    before: BagWriter,
    after: BagWriter,
    had: Progress,
    has: Progress,
    key: Seq<char>,
    known: TopicType,
    now: Result<u64, Error>,
    payload: Seq<u8>,
    r: Result<(), Error>,
)
    requires
        records(before, after, had, has, key, known, now, payload, r),
    ensures
        r is Ok ==> {
            &&& now is Ok
            &&& after.messages().len() == before.messages().len() + 1
            &&& after.messages().drop_last() == before.messages()
            &&& after.messages().last().log_time == now->Ok_0
            &&& after.channels().dom().contains(key)
            &&& has.done == had.done + 1
        },
        r is Err ==> after.messages() == before.messages() && has.done == had.done,
        has.limit == had.limit,
        now is Err ==> r is Err && after == before,
        now matches Ok(time) ==> (r is Ok <==> encoded(known, time, payload) is Ok),
{
    if r is Ok {
        assert(after.messages().drop_last() =~= before.messages());
    }
}

} // verus!
