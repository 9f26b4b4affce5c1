//! What the command line prints about types, samples and observations.

use vstd::prelude::*;
use vstd::string::*;

use crate::catalog::{catalog, contract_text, TopicInfo};
use crate::cli::{TopicOutput, TypeCommand};
use crate::contract_warning::ContractWarningThrottle;
use crate::error::{plainly, Error, Report};
use crate::playback::{base64_of, base64_text};
use crate::text::{
    decimal, hex_dump, hex_pair, joined, label, labelled, number, opt_view, pad_left, pad_right,
    padded_left, padded_right, views,
};
use crate::topic::{rejection, take_in, value_type, Intake, TopicObservation};
use crate::types::{known_as, opt_type_of, type_of, TopicType};

verus! {

/// The size of a topic's payload, or a dash if it has no fixed one.
pub open spec fn size_text(topic: TopicInfo) -> Seq<char> {
    match topic.payload_size {
        Some(size) => decimal(size as nat),
        None => "-"@,
    }
}

fn size_or_dash(topic: TopicInfo) -> (r: String)
    ensures
        r@ == size_text(topic),
{
    match topic.payload_size {
        Some(size) => number(size as u64),
        None => "-".to_owned(),
    }
}

/// A text, or a dash if it is missing.
pub open spec fn text_or_dash(text: Option<&'static str>) -> Seq<char> {
    match text {
        Some(text) => text@,
        None => "-"@,
    }
}

fn or_dash(text: Option<&'static str>) -> (r: &'static str)
    ensures
        r@ == text_or_dash(text),
{
    match text {
        Some(text) => text,
        None => "-",
    }
}

/// A row of the catalog: four columns, of which the middle two are set to the right.
pub open spec fn row_text(
    name: Seq<char>,
    id: Seq<char>,
    size: Seq<char>,
    wire_type: Seq<char>,
) -> Seq<char> {
    padded_right(name, 24) + " "@ + padded_left(id, 4) + " "@ + padded_left(size, 6) + "  "@
        + wire_type
}

fn row(name: &str, id: &str, size: &str, wire_type: &str) -> (r: String)
    ensures
        r@ == row_text(name@, id@, size@, wire_type@),
{
    let mut line = pad_right(name, 24);
    line.append(" ");
    line.append(pad_left(id, 4).as_str());
    line.append(" ");
    line.append(pad_left(size, 6).as_str());
    line.append("  ");
    line.append(wire_type);
    line
}

/// The row of a topic.
pub open spec fn topic_row(topic: TopicInfo) -> Seq<char> {
    row_text(topic.name@, decimal(topic.id as nat), size_text(topic), topic.wire_type@)
}

/// The catalog of a release: a heading and a row for each topic.
pub open spec fn catalog_text(release: Seq<char>) -> Seq<Seq<char>> {
    seq![
        labelled("synapse_fbs release"@, release),
        row_text("topic"@, "id"@, "bytes"@, "wire type"@),
    ] + catalog().map_values(|topic: TopicInfo| topic_row(topic))
}

/// The catalog of a release, line by line.
pub fn catalog_lines(release: &str) -> (r: Vec<String>)
    ensures
        views(r@) == catalog_text(release@),
{
    let ghost head = seq![
        labelled("synapse_fbs release"@, release@),
        row_text("topic"@, "id"@, "bytes"@, "wire type"@),
    ];
    let ghost rows = catalog().map_values(|topic: TopicInfo| topic_row(topic));
    let mut r: Vec<String> = Vec::new();
    r.push(label("synapse_fbs release", release));
    r.push(row("topic", "id", "bytes", "wire type"));
    let all = TopicType::all();
    let mut i: usize = 0;
    assert(views(r@) =~= head + rows.take(0));
    while i < all.len()
        invariant
            i <= all@.len(),
            all@ == catalog().map_values(|topic: TopicInfo| type_of(topic)),
            rows == catalog().map_values(|topic: TopicInfo| topic_row(topic)),
            views(r@) == head + rows.take(i as int),
        decreases all.len() - i,
    {
        let ghost before = views(r@);
        let known = all[i];
        assert(known.topic == catalog()[i as int]);
        r.push(
            row(
                known.topic.name,
                number(known.topic.id as u64).as_str(),
                size_or_dash(known.topic).as_str(),
                or_dash(known.wire_type()),
            ),
        );
        assert(views(r@) =~= before.push(rows[i as int]));
        assert(rows.take(i + 1) =~= rows.take(i as int).push(rows[i as int]));
        assert(views(r@) =~= head + rows.take(i + 1));
        i = i + 1;
    }
    assert(rows.take(i as int) =~= rows);
    r
}

/// What is shown of a type: its catalog entry, its value contract and its schema.
pub open spec fn type_text(known: TopicType, release: Seq<char>, fbs: bool) -> Seq<Seq<char>> {
    let lines = seq![
        labelled("topic"@, known.topic.name@),
        labelled("id"@, decimal(known.topic.id as nat)),
        labelled("key"@, known.topic.key@),
        labelled("wire_type"@, known.topic.wire_type@),
        labelled("encoding"@, known.topic.encoding@),
        labelled("zenoh_value_contract"@, contract_text(known.topic)),
        labelled("schema_hash"@, "sha256-128:"@ + known.topic.schema_hash@),
        labelled("payload_size"@, size_text(known.topic)),
        labelled("schema_file"@, known.topic.schema_file@),
        labelled("schema_root_type"@, text_or_dash(known.schema.root_type)),
        labelled("schema_file_identifier"@, text_or_dash(known.schema.file_identifier)),
        labelled("bfbs_bytes"@, decimal(known.schema.bfbs@.len())),
        labelled("synapse_fbs"@, release),
        labelled("description"@, known.topic.description@),
    ];
    if fbs {
        lines + seq!["---"@, known.schema.fbs@]
    } else {
        lines
    }
}

/// What is shown of a type, line by line.
pub fn type_lines(known: TopicType, release: &str, fbs: bool) -> (r: Vec<String>)
    requires
        known.wf(),
    ensures
        views(r@) == type_text(known, release@, fbs),
{
    let mut hash = "sha256-128:".to_owned();
    hash.append(known.schema_hash());
    let mut r: Vec<String> = Vec::new();
    r.push(label("topic", known.topic.name));
    r.push(label("id", number(known.topic.id as u64).as_str()));
    r.push(label("key", known.topic.key));
    r.push(label("wire_type", or_dash(known.wire_type())));
    r.push(label("encoding", known.topic.encoding));
    r.push(label("zenoh_value_contract", known.zenoh_encoding().as_str()));
    r.push(label("schema_hash", hash.as_str()));
    r.push(label("payload_size", size_or_dash(known.topic).as_str()));
    r.push(label("schema_file", known.topic.schema_file));
    r.push(label("schema_root_type", or_dash(known.schema.root_type)));
    r.push(label("schema_file_identifier", or_dash(known.schema.file_identifier)));
    r.push(label("bfbs_bytes", number(known.schema.bfbs.len() as u64).as_str()));
    r.push(label("synapse_fbs", release));
    r.push(label("description", known.topic.description));
    assert(views(r@) =~= type_text(known, release@, false));
    if fbs {
        r.push("---".to_owned());
        r.push(known.schema.fbs.to_owned());
        assert(views(r@) =~= type_text(known, release@, true));
    }
    r
}

/// What a command about types prints, or how it fails.
pub open spec fn type_output(command: TypeCommand, release: Seq<char>) -> Result<
    Seq<Seq<char>>,
    Report,
> {
    match command {
        TypeCommand::List => Ok(catalog_text(release)),
        TypeCommand::Show { ty, fbs } => match opt_type_of(known_as(ty@)) {
            Some(known) => Ok(type_text(known, release, fbs)),
            None => Err(plainly("unknown Synapse topic '"@ + ty@ + "'"@)),
        },
    }
}

/// What a command about types prints.
pub fn run_type(command: TypeCommand, release: &str) -> (r: Result<Vec<String>, Error>)
    ensures
        match type_output(command, release@) {
            Ok(lines) => r is Ok && views(r->Ok_0@) == lines,
            Err(report) => r is Err && r->Err_0@ == report,
        },
        match command {
            TypeCommand::List => r is Ok && views(r->Ok_0@) == catalog_text(release@),
            TypeCommand::Show { ty, fbs } => match opt_type_of(known_as(ty@)) {
                Some(known) => r is Ok && views(r->Ok_0@) == type_text(known, release@, fbs),
                None => r is Err && r->Err_0@ == plainly(
                    "unknown Synapse topic '"@ + ty@ + "'"@,
                ),
            },
        },
{
    match command {
        TypeCommand::List => Ok(catalog_lines(release)),
        TypeCommand::Show { ty, fbs } => match TopicType::require(ty.as_str()) {
            Ok(known) => Ok(type_lines(known, release, fbs)),
            Err(error) => Err(error),
        },
    }
}

/// What is printed of a sample: its topic and type, and the payload decoded, or in
/// hexadecimal if there is no type to decode it by.
pub open spec fn sample_text(
    topic: Seq<char>,
    known: Option<TopicType>,
    payload: Seq<u8>,
) -> Seq<Seq<char>> {
    match known {
        Some(known) => seq![
            labelled("topic"@, topic),
            labelled("type"@, known.topic.wire_type@),
            match known.decoding(payload) {
                Ok(decoded) => decoded,
                Err(failure) => labelled(
                    "decode_error"@,
                    known.topic.name@ + ": "@ + failure.text(),
                ),
            },
            "---"@,
        ],
        None => seq![
            labelled("topic"@, topic),
            "type: unknown"@,
            labelled("payload"@, joined(payload.map_values(|b: u8| hex_pair(b)), " "@)),
            "---"@,
        ],
    }
}

fn sample_lines(topic: &str, known_type: Option<TopicType>, payload: &[u8]) -> (r: Vec<String>)
    requires
        known_type matches Some(known) ==> known.wf(),
    ensures
        views(r@) == sample_text(topic@, known_type, payload@),
{
    let mut r: Vec<String> = Vec::new();
    r.push(label("topic", topic));
    match known_type {
        Some(known) => {
            r.push(label("type", or_dash(known.wire_type())));
            match known.decode(payload) {
                Ok(decoded) => r.push(decoded),
                Err(error) => r.push(label("decode_error", error.message().as_str())),
            }
        },
        None => {
            r.push("type: unknown".to_owned());
            r.push(label("payload", hex_dump(payload).as_str()));
        },
    }
    r.push("---".to_owned());
    assert(views(r@) =~= sample_text(topic@, known_type, payload@));
    r
}

/// A sample as it is printed in JSON.
#[derive(Debug)]
pub struct EchoJson {
    pub topic: String,
    pub wire_type: Option<&'static str>,
    pub payload_base64: String,
    pub decoded: Option<String>,
}

/// Whether a JSON line tells of a sample. A payload that does not decode is left out.
pub open spec fn echoes(
    line: EchoJson,
    topic: Seq<char>,
    known: Option<TopicType>,
    payload: Seq<u8>,
) -> bool {
    &&& line.topic@ == topic
    &&& line.wire_type == match known {
        Some(known) => Some(known.topic.wire_type),
        None => None,
    }
    &&& line.payload_base64@ == base64_of(payload)
    &&& opt_view(line.decoded) == match known {
        Some(known) => match known.decoding(payload) {
            Ok(decoded) => Some(decoded),
            Err(_) => None,
        },
        None => None,
    }
}

fn echo_json(topic: &str, known_type: Option<TopicType>, payload: &[u8]) -> (r: EchoJson)
    requires
        known_type matches Some(known) ==> known.wf(),
    ensures
        echoes(r, topic@, known_type, payload@),
{
    let decoded = match known_type {
        Some(known) => match known.decode(payload) {
            Ok(decoded) => Some(decoded),
            Err(_) => None,
        },
        None => None,
    };
    EchoJson {
        topic: topic.to_owned(),
        wire_type: match known_type {
            Some(known) => known.wire_type(),
            None => None,
        },
        payload_base64: base64_text(payload),
        decoded,
    }
}

/// A sample as it is printed.
#[derive(Debug)]
pub enum SamplePrint {
    Lines(Vec<String>),
    Json(EchoJson),
}

/// Whether `print` is what is printed of a sample in a format.
pub open spec fn prints(
    print: SamplePrint,
    topic: Seq<char>,
    known_type: Option<TopicType>,
    payload: Seq<u8>,
    output: TopicOutput,
) -> bool {
    match output {
        TopicOutput::Debug => print matches SamplePrint::Lines(lines) && views(lines@)
            == sample_text(topic, known_type, payload),
        TopicOutput::Json => print matches SamplePrint::Json(line) && echoes(
            line,
            topic,
            known_type,
            payload,
        ),
    }
}

/// What is printed of a sample in a format.
pub fn print_sample(
    topic: &str,
    known_type: Option<TopicType>,
    payload: &[u8],
    output: TopicOutput,
) -> (r: SamplePrint)
    requires
        known_type matches Some(known) ==> known.wf(),
    ensures
        prints(r, topic@, known_type, payload@, output),
{
    match output {
        TopicOutput::Debug => SamplePrint::Lines(sample_lines(topic, known_type, payload)),
        TopicOutput::Json => SamplePrint::Json(echo_json(topic, known_type, payload)),
    }
}

/// How samples are echoed: in which format, as bare bytes, or only one.
#[derive(Clone, Copy, Debug)]
pub struct EchoOptions {
    pub output: TopicOutput,
    pub raw: bool,
    pub once: bool,
}

/// What is printed when a sample was received.
#[derive(Debug)]
pub enum EchoPrint {
    /// It was rejected: the warning about that, if one is due.
    Warning(Option<String>),
    /// Its bytes.
    Dump(String),
    /// The sample in a format.
    Sample(SamplePrint),
}

/// What is done when a sample was received.
#[derive(Debug)]
pub struct EchoStep {
    pub print: EchoPrint,
    pub goes_on: bool,
}

/// Whether `print` shows a sample that was accepted as one of a type.
pub open spec fn shows(
    print: EchoPrint,
    options: EchoOptions,
    topic: Seq<char>,
    known: TopicType,
    payload: Seq<u8>,
) -> bool {
    if options.raw {
        print matches EchoPrint::Dump(text) && text@ == joined(
            payload.map_values(|b: u8| hex_pair(b)),
            " "@,
        )
    } else {
        print matches EchoPrint::Sample(sample) && prints(
            sample,
            topic,
            Some(known),
            payload,
            options.output,
        )
    }
}

/// Echo a sample that was accepted or rejected. Only one that was accepted can be the last.
pub fn echo_intake(options: EchoOptions, topic: &str, intake: Intake, payload: &[u8]) -> (r:
    EchoStep)
    requires
        intake matches Intake::Accepted(known) ==> known.wf(),
    ensures
        match intake {
            Intake::Rejected(warning) => r.goes_on && r.print == EchoPrint::Warning(warning),
            Intake::Accepted(known) => r.goes_on == !options.once && shows(
                r.print,
                options,
                topic@,
                known,
                payload@,
            ),
        },
{
    let known = match intake {
        Intake::Accepted(known) => known,
        Intake::Rejected(warning) => return EchoStep {
            print: EchoPrint::Warning(warning),
            goes_on: true,
        },
    };
    let print = if options.raw {
        EchoPrint::Dump(hex_dump(payload))
    } else {
        EchoPrint::Sample(print_sample(topic, Some(known), payload, options.output))
    };
    EchoStep { print, goes_on: !options.once }
}

/// A sample as it is received.
pub struct Received {
    pub key: Seq<char>,
    pub encoding: Seq<char>,
    pub payload: Seq<u8>,
}

/// Whether a sample is let in: it has a valid value contract, of the type that is expected
/// if one is.
pub open spec fn lets_in(sample: Received, expected: Option<TopicType>) -> bool {
    value_type(sample.key, sample.encoding, expected) is Ok
}

/// Whether more samples are waited for after one.
pub open spec fn waits_after(sample: Received, expected: Option<TopicType>, once: bool) -> bool {
    !(once && lets_in(sample, expected))
}

/// Echo a sample that was received. It has to have a valid value contract, whatever the
/// options are.
pub fn echo_sample(
    options: EchoOptions,
    warnings: &mut ContractWarningThrottle,
    key: &str,
    encoding: &str,
    payload: &[u8],
    expected: Option<TopicType>,
    now_ns: u64,
) -> (r: EchoStep)
    requires
        old(warnings).wf(),
    ensures
        final(warnings).wf(),
        r.goes_on == waits_after(
            Received { key: key@, encoding: encoding@, payload: payload@ },
            expected,
            options.once,
        ),
        match value_type(key@, encoding@, expected) {
            Ok(known) => final(warnings)@ == old(warnings)@ && shows(
                r.print,
                options,
                key@,
                known,
                payload@,
            ),
            Err(report) => r.print matches EchoPrint::Warning(warning) && rejection(
                old(warnings)@,
                final(warnings)@,
                warning,
                key@,
                report,
                now_ns,
            ),
        },
{
    let intake = take_in(warnings, key, encoding, expected, now_ns);
    echo_intake(options, key, intake, payload)
}

/// The samples that are shown of those that are received one after the other.
pub open spec fn echoed(
    samples: Seq<Received>,
    expected: Option<TopicType>,
    once: bool,
) -> Seq<Received>
    decreases samples.len(),
{
    if samples.len() == 0 {
        seq![]
    } else {
        let shown = if lets_in(samples[0], expected) {
            seq![samples[0]]
        } else {
            seq![]
        };
        if waits_after(samples[0], expected, once) {
            shown + echoed(samples.drop_first(), expected, once)
        } else {
            shown
        }
    }
}

/// Exactly the samples that are let in are shown, in their order, and only the first of
/// them if only one is asked for. A sample that is rejected does not count for that.
pub proof fn exactly_the_accepted_are_echoed(
    samples: Seq<Received>,
    expected: Option<TopicType>,
    once: bool,
)
    ensures
        ({
            let accepted = samples.filter(|sample: Received| lets_in(sample, expected));
            echoed(samples, expected, once) == if once && accepted.len() > 0 {
                accepted.take(1)
            } else {
                accepted
            }
        }),
    decreases samples.len(),
{
    let pred = |sample: Received| lets_in(sample, expected);
    reveal(Seq::filter);
    if samples.len() == 0 {
        assert(samples.filter(pred) =~= seq![]);
    } else {
        let first = seq![samples[0]];
        let rest = samples.drop_first();
        exactly_the_accepted_are_echoed(rest, expected, once);
        assert(samples =~= first + rest);
        Seq::filter_distributes_over_add(first, rest, pred);
        assert(first.drop_last() =~= seq![]);
        assert(first.drop_last().filter(pred) =~= seq![]);
        if pred(samples[0]) {
            assert(first.filter(pred) =~= first);
            assert(samples.filter(pred).take(1) =~= first);
        } else {
            assert(first.filter(pred) =~= seq![]);
            assert(samples.filter(pred) =~= rest.filter(pred));
            assert(echoed(samples, expected, once) =~= echoed(rest, expected, once));
        }
    }
}

/// What is told of the type that was observed.
pub open spec fn observed_type_text(known: Option<TopicType>, release: Seq<char>) -> Seq<Seq<char>> {
    match known {
        Some(known) => seq![
            labelled("Type"@, known.topic.wire_type@),
            labelled("Schema"@, known.topic.schema_file@) + " (synapse_fbs "@ + release + ")"@,
            labelled("Encoding"@, contract_text(known.topic)),
        ],
        None => seq!["Type: not observed"@],
    }
}

/// What is told of an observation, but for the mean size of its samples.
pub open spec fn info_text(
    topic: Seq<char>,
    stats: TopicObservation,
    release: Seq<char>,
) -> Seq<Seq<char>> {
    seq![labelled("Topic"@, topic)] + observed_type_text(stats.known_type, release) + seq![
        labelled("Samples"@, decimal(stats.samples as nat)),
        labelled("Bytes"@, decimal(stats.bytes as nat)),
    ]
}

/// What is told of an observation, line by line, but for the mean size of its samples.
pub fn info_lines(topic: &str, stats: &TopicObservation, release: &str) -> (r: Vec<String>)
    requires
        stats.wf(),
    ensures
        views(r@) == info_text(topic@, *stats, release@),
{
    let mut r: Vec<String> = Vec::new();
    r.push(label("Topic", topic));
    match stats.known_type {
        Some(known) => {
            r.push(label("Type", or_dash(known.wire_type())));
            let mut schema = label("Schema", known.topic.schema_file);
            schema.append(" (synapse_fbs ");
            schema.append(release);
            schema.append(")");
            r.push(schema);
            r.push(label("Encoding", known.zenoh_encoding().as_str()));
        },
        None => r.push("Type: not observed".to_owned()),
    }
    r.push(label("Samples", number(stats.samples).as_str()));
    r.push(label("Bytes", number(stats.bytes).as_str()));
    assert(views(r@) =~= info_text(topic@, *stats, release@));
    r
}

/// The version of the program and of its schemas.
pub fn version_line(version: &str, release: &str) -> (r: String)
    ensures
        r@ == "csyn "@ + version@ + " (synapse_fbs "@ + release@ + ")"@,
{
    let mut line = "csyn ".to_owned();
    line.append(version);
    line.append(" (synapse_fbs ");
    line.append(release);
    line.append(")");
    line
}

/// The catalog has a line for every topic, in the order of their ids: its name, its id, the
/// size of its payload if that is fixed, and its wire type.
pub proof fn catalog_has_a_line_for_every_topic(release: Seq<char>, index: int)
    requires
        0 <= index < catalog().len(),
    ensures
        catalog_text(release).len() == catalog().len() + 2,
        catalog_text(release)[0] == "synapse_fbs release"@ + ": "@ + release,
        catalog_text(release)[index + 2] == padded_right(catalog()[index].name@, 24) + " "@
            + padded_left(decimal(catalog()[index].id as nat), 4) + " "@ + padded_left(
            match catalog()[index].payload_size {
                Some(size) => decimal(size as nat),
                None => "-"@,
            },
            6,
        ) + "  "@ + catalog()[index].wire_type@,
{
}

/// What is shown of a type has each of its values under a label, in this order, and its
/// schema behind them exactly if that is asked for.
pub proof fn type_is_shown_with_all_its_values(known: TopicType, release: Seq<char>, fbs: bool)
    ensures
        ({
            let lines = type_text(known, release, fbs);
            &&& lines.len() == if fbs {
                16nat
            } else {
                14nat
            }
            &&& lines[0] == "topic"@ + ": "@ + known.topic.name@
            &&& lines[1] == "id"@ + ": "@ + decimal(known.topic.id as nat)
            &&& lines[2] == "key"@ + ": "@ + known.topic.key@
            &&& lines[3] == "wire_type"@ + ": "@ + known.topic.wire_type@
            &&& lines[4] == "encoding"@ + ": "@ + known.topic.encoding@
            &&& lines[5] == "zenoh_value_contract"@ + ": "@ + contract_text(known.topic)
            &&& lines[6] == "schema_hash"@ + ": "@ + ("sha256-128:"@ + known.topic.schema_hash@)
            &&& lines[7] == "payload_size"@ + ": "@ + match known.topic.payload_size {
                Some(size) => decimal(size as nat),
                None => "-"@,
            }
            &&& lines[8] == "schema_file"@ + ": "@ + known.topic.schema_file@
            &&& lines[9] == "schema_root_type"@ + ": "@ + match known.schema.root_type {
                Some(text) => text@,
                None => "-"@,
            }
            &&& lines[10] == "schema_file_identifier"@ + ": "@ + match known.schema.file_identifier {
                Some(text) => text@,
                None => "-"@,
            }
            &&& lines[11] == "bfbs_bytes"@ + ": "@ + decimal(known.schema.bfbs@.len())
            &&& lines[12] == "synapse_fbs"@ + ": "@ + release
            &&& lines[13] == "description"@ + ": "@ + known.topic.description@
            &&& fbs ==> lines[15] == known.schema.fbs@
        }),
{
}

/// What is printed of a sample of a type tells its topic and wire type, and what it decodes
/// to, or why it does not.
pub proof fn sample_is_printed_decoded(topic: Seq<char>, known: TopicType, payload: Seq<u8>)
    ensures
        ({
            let lines = sample_text(topic, Some(known), payload);
            &&& lines.len() == 4
            &&& lines[0] == "topic"@ + ": "@ + topic
            &&& lines[1] == "type"@ + ": "@ + known.topic.wire_type@
            &&& known.decoding(payload) matches Ok(decoded) ==> lines[2] == decoded
            &&& known.decoding(payload) matches Err(failure) ==> lines[2] == "decode_error"@
                + ": "@ + (known.topic.name@ + ": "@ + failure.text())
            &&& lines[3] == "---"@
        }),
{
}

/// A sample that is shown is shown as it was asked for: its bytes as digits if they are to
/// be raw, else its lines, or a JSON line with its topic, wire type and payload, and what it
/// decodes to if it does.
pub proof fn sample_is_shown_as_asked(
    print: EchoPrint,
    options: EchoOptions,
    topic: Seq<char>,
    known: TopicType,
    payload: Seq<u8>,
)
    requires
        shows(print, options, topic, known, payload),
    ensures
        options.raw <==> print is Dump,
        print matches EchoPrint::Dump(text) ==> text@ == joined(
            payload.map_values(|b: u8| hex_pair(b)),
            " "@,
        ),
        !options.raw && options.output is Debug ==> (print matches EchoPrint::Sample(
            SamplePrint::Lines(lines),
        ) && views(lines@) == sample_text(topic, Some(known), payload)),
        !options.raw && options.output is Json ==> (print matches EchoPrint::Sample(
            SamplePrint::Json(line),
        ) && line.topic@ == topic && line.wire_type == Some(known.topic.wire_type)
            && line.payload_base64@ == base64_of(payload) && match known.decoding(payload) {
            Ok(decoded) => line.decoded is Some && line.decoded->Some_0@ == decoded,
            Err(_) => line.decoded is None,
        }),
{
}

/// What is told of an observation has its topic, the type that was settled, if one was, and
/// the number of samples and of their bytes.
pub proof fn observation_is_told_with_its_counts(
    topic: Seq<char>,
    stats: TopicObservation,
    release: Seq<char>,
)
    ensures
        ({
            let lines = info_text(topic, stats, release);
            &&& lines[0] == "Topic"@ + ": "@ + topic
            &&& lines[lines.len() - 2] == "Samples"@ + ": "@ + decimal(stats.samples as nat)
            &&& lines.last() == "Bytes"@ + ": "@ + decimal(stats.bytes as nat)
            &&& stats.known_type is None ==> lines.len() == 4 && lines[1]
                == "Type: not observed"@
            &&& stats.known_type matches Some(known) ==> {
                &&& lines.len() == 6
                &&& lines[1] == "Type"@ + ": "@ + known.topic.wire_type@
                &&& lines[2] == "Schema"@ + ": "@ + known.topic.schema_file@ + " (synapse_fbs "@
                    + release + ")"@
                &&& lines[3] == "Encoding"@ + ": "@ + contract_text(known.topic)
            }
        }),
{
}

/// The types are listed with the whole catalog; one is shown if a topic goes by the name,
/// with its schema as it is asked for, and refused by that name otherwise.
pub proof fn shown_type_is_the_one_that_was_named(command: TypeCommand, release: Seq<char>)
    ensures
        command is List ==> type_output(command, release) is Ok && type_output(
            command,
            release,
        )->Ok_0.len() == catalog().len() + 2,
        command matches TypeCommand::Show { ty, fbs } ==> match known_as(ty@) {
            Some(topic) => type_output(command, release) is Ok && type_output(
                command,
                release,
            )->Ok_0[0] == "topic"@ + ": "@ + topic.name@ && type_output(
                command,
                release,
            )->Ok_0.len() == if fbs {
                16nat
            } else {
                14nat
            },
            None => type_output(command, release) == Err::<Seq<Seq<char>>, Report>(
                Report { text: "unknown Synapse topic '"@ + ty@ + "'"@, cause: None },
            ),
        },
{
}

/// A sample is let in exactly if it has a valid value contract, of the type that is
/// expected if one is; and only after one that is let in, where only one is asked for, no
/// more are waited for.
pub proof fn echo_waits_until_a_sample_is_let_in(
    sample: Received,
    expected: Option<TopicType>,
    once: bool,
)
    ensures
        lets_in(sample, expected) <==> value_type(sample.key, sample.encoding, expected) is Ok,
        !waits_after(sample, expected, once) <==> once && value_type(
            sample.key,
            sample.encoding,
            expected,
        ) is Ok,
{
}

} // verus!
