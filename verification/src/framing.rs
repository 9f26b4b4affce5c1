//! The framing of an MCAP file: where its readers stand, and what they cannot be handed.
//!
//! A file starts with eight magic bytes. Each record is an opcode, the length of its
//! body in eight bytes, and the body. A chunk is a record whose body holds records.

use vstd::prelude::*;
use vstd::slice::*;
use vstd::utf8::*;

use crate::payload::{le_bytes, le_value, lemma_read_back, read_le, scalar_at};

verus! {

/// The opcode of the record that closes a file.
pub const FOOTER: u8 = 0x02;

/// The opcode of a chunk.
pub const CHUNK: u8 = 0x06;

/// The opcode of an attachment.
pub const ATTACHMENT: u8 = 0x09;

/// The opcode of the record that closes the data section.
pub const DATA_END: u8 = 0x0f;

/// Whether a file starts with the magic bytes `89 M C A P 0 CR LF`.
pub open spec fn has_magic(file: Seq<u8>) -> bool {
    &&& file.len() >= 8
    &&& file[0] == 0x89
    &&& file[1] == 0x4d
    &&& file[2] == 0x43
    &&& file[3] == 0x41
    &&& file[4] == 0x50
    &&& file[5] == 0x30
    &&& file[6] == 0x0d
    &&& file[7] == 0x0a
}

/// The length that the record at a place gives for its body.
pub open spec fn body_len(file: Seq<u8>, at: int) -> nat {
    le_value(file.subrange(at + 1, at + 9))
}

/// Whether the body of an attachment record holds its header (two times, a name and a
/// media type, and the length of the data) and then ends before the checksum.
pub open spec fn attachment_cut(body: Seq<u8>) -> bool {
    match scalar_at(body, 16, 4) {
        None => false,
        Some(name) => match scalar_at(body, 20 + name as int, 4) {
            None => false,
            Some(media_type) => {
                &&& 32 + name + media_type <= body.len() < 36 + name + media_type
                &&& valid_utf8(body.subrange(20, 20 + name as int))
                &&& valid_utf8(body.subrange(24 + name as int, 24 + name as int + media_type))
            },
        },
    }
}

/// Whether the record at a place is whole, and an attachment that is cut short of its
/// checksum. A reader cannot be handed such a record.
pub open spec fn cut_at(file: Seq<u8>, at: int) -> bool {
    &&& 0 <= at
    &&& at + 9 <= file.len()
    &&& file[at] == ATTACHMENT
    &&& at + 9 + body_len(file, at) <= file.len()
    &&& attachment_cut(file.subrange(at + 9, at + 9 + body_len(file, at)))
}

/// The place of the record behind the one at a place: the end of the file, if that one is
/// the footer or is not whole.
pub open spec fn place_after(file: Seq<u8>, at: int) -> int {
    if at < 0 || at + 9 > file.len() || file[at] == FOOTER || at + 9 + body_len(file, at)
        > file.len() {
        file.len() as int
    } else {
        at + 9 + body_len(file, at)
    }
}

/// Whether no attachment from a place on is cut short.
pub open spec fn records_sound_from(file: Seq<u8>, at: int) -> bool
    decreases file.len() - at,
{
    if at < 0 || at + 9 > file.len() {
        true
    } else {
        !cut_at(file, at) && records_sound_from(file, place_after(file, at))
    }
}

/// Whether a file can be read record by record to its end. What a reader takes for an
/// error, such as a missing end, it can be handed.
pub open spec fn records_readable(file: Seq<u8>) -> bool {
    has_magic(file) ==> records_sound_from(file, 8)
}

/// Where a stream of messages stands in a file: at the place of a record, and if that is
/// one of a chunk, with so many bytes of records left in the chunk, and the chunk's end.
pub struct Spot {
    pub at: int,
    pub chunk: Option<(nat, int)>,
}

/// What a stream of messages comes to at a spot.
pub enum Step {
    /// Something that it cannot be handed: an attachment cut short, an overlong length, or
    /// a record that leaves its chunk.
    Stuck,
    /// The end of the messages, or an error.
    Ended,
    /// A record, or the end of a chunk. The stream goes on at another spot, unless there is
    /// an error.
    Passes(Spot),
}

/// Whether a record length leaves no room for the opcode and the length themselves.
pub open spec fn overlong(len: nat) -> bool {
    len <= usize::MAX && len + 9 > usize::MAX
}

/// What a stream comes to at a chunk. A chunk begins with two times, the size and checksum
/// of its records, the name of a compression, and the size of its records as they are
/// stored. A compressed chunk is refused.
pub open spec fn chunk_step(file: Seq<u8>, at: int) -> Step {
    if at < 0 || at + 49 > file.len() {
        Step::Ended
    } else {
        let compression = le_value(file.subrange(at + 37, at + 41));
        let stored = le_value(file.subrange(at + 41, at + 49));
        if 40 + compression > usize::MAX {
            Step::Stuck
        } else if compression > 0 || body_len(file, at) < 40 + stored {
            Step::Ended
        } else {
            Step::Passes(
                Spot { at: at + 49, chunk: Some((stored, at + 9 + body_len(file, at))) },
            )
        }
    }
}

/// What a stream comes to at a whole record, behind which it goes on at `next`.
pub open spec fn record_step(file: Seq<u8>, at: int, next: Spot) -> Step {
    if cut_at(file, at) {
        Step::Stuck
    } else {
        Step::Passes(next)
    }
}

/// What a stream comes to at a spot.
pub open spec fn step(file: Seq<u8>, spot: Spot) -> Step {
    let at = spot.at;
    match spot.chunk {
        None => if at < 0 || at + 9 > file.len() || file[at] == FOOTER {
            Step::Ended
        } else if file[at] == CHUNK {
            chunk_step(file, at)
        } else if file[at] != DATA_END && overlong(body_len(file, at)) {
            Step::Stuck
        } else if at + 9 + body_len(file, at) > file.len() {
            Step::Ended
        } else {
            record_step(file, at, Spot { at: at + 9 + body_len(file, at), chunk: None })
        },
        Some((left, end)) => if left == 0 {
            if at <= end <= file.len() {
                Step::Passes(Spot { at: end, chunk: None })
            } else {
                Step::Ended
            }
        } else if at < 0 || at + 9 > file.len() {
            Step::Ended
        } else if overlong(body_len(file, at)) {
            Step::Stuck
        } else if at + 9 + body_len(file, at) > file.len() {
            Step::Ended
        } else if 9 + body_len(file, at) > left {
            Step::Stuck
        } else {
            record_step(
                file,
                at,
                Spot {
                    at: at + 9 + body_len(file, at),
                    chunk: Some(((left - 9 - body_len(file, at)) as nat, end)),
                },
            )
        },
    }
}

/// Whether a spot lies in a chunk, as a number.
pub open spec fn depth(spot: Spot) -> int {
    if spot.chunk is Some {
        1
    } else {
        0
    }
}

/// The place of the first thing, from a spot on, that a stream cannot be handed.
pub open spec fn stuck_from(file: Seq<u8>, spot: Spot) -> Option<int>
    decreases file.len() - spot.at, depth(spot),
{
    match step(file, spot) {
        Step::Stuck => Some(spot.at),
        Step::Ended => None,
        Step::Passes(next) => stuck_from(file, next),
    }
}

/// Where a stream starts: behind the magic bytes.
pub open spec fn first_spot() -> Spot {
    Spot { at: 8, chunk: None }
}

/// The place of the first thing in a file that a stream cannot be handed.
pub open spec fn stuck_place(file: Seq<u8>) -> Option<int> {
    if has_magic(file) {
        stuck_from(file, first_spot())
    } else {
        None
    }
}

/// Whether the messages of a file can be read to its end.
pub open spec fn messages_readable(file: Seq<u8>) -> bool {
    stuck_place(file) is None
}

/// A file up to the first thing that a stream cannot be handed.
pub open spec fn sound_part(file: Seq<u8>) -> Seq<u8> {
    match stuck_place(file) {
        Some(at) => file.take(at),
        None => file,
    }
}

proof fn lemma_part_from(file: Seq<u8>, spot: Spot, place: int)
    requires
        stuck_from(file, spot) == Some(place),
    ensures
        spot.at <= place <= file.len(),
        stuck_from(file.take(place), spot) is None,
    decreases file.len() - spot.at, depth(spot),
{
    let at = spot.at;
    if let Step::Passes(next) = step(file, spot) {
        lemma_part_from(file, next, place);
        let part = file.take(place);
        if !(spot.chunk is Some && spot.chunk->Some_0.0 == 0) {
            assert(part[at] == file[at]);
            assert(part.subrange(at + 1, at + 9) =~= file.subrange(at + 1, at + 9));
            if spot.chunk is None && file[at] == CHUNK {
                assert(part.subrange(at + 37, at + 41) =~= file.subrange(at + 37, at + 41));
                assert(part.subrange(at + 41, at + 49) =~= file.subrange(at + 41, at + 49));
            } else {
                let len = body_len(file, at);
                assert(part.subrange(at + 9, at + 9 + len) =~= file.subrange(
                    at + 9,
                    at + 9 + len,
                ));
            }
        }
        assert(step(part, spot) == step(file, spot));
    }
}

/// The sound part of a file can be read to its end.
pub proof fn sound_part_is_readable(file: Seq<u8>)
    ensures
        messages_readable(sound_part(file)),
        stuck_place(file) matches Some(at) ==> 8 <= at <= file.len(),
{
    if let Some(at) = stuck_place(file) {
        lemma_part_from(file, first_spot(), at);
    }
}

/// Whether a file starts with the magic bytes.
pub(crate) fn starts_with_magic(file: &[u8]) -> (r: bool)
    ensures
        r == has_magic(file@),
{
    file.len() >= 8 && file[0] == 0x89 && file[1] == 0x4d && file[2] == 0x43 && file[3] == 0x41
        && file[4] == 0x50 && file[5] == 0x30 && file[6] == 0x0d && file[7] == 0x0a
}

/// `std::str::from_utf8`: whether bytes are valid UTF-8.
#[verifier::external_body]
fn is_utf8(bytes: &[u8]) -> (r: bool)
    ensures
        r == valid_utf8(bytes@),
{
    std::str::from_utf8(bytes).is_ok()
}

fn is_attachment_cut(body: &[u8]) -> (r: bool)
    ensures
        r == attachment_cut(body@),
{
    let size: usize = body.len();
    if size < 20 {
        return false;
    }
    let name: u64 = read_le(body, 16, 4);
    if name > (size - 20) as u64 || size - 20 - (name as usize) < 4 {
        return false;
    }
    let at: usize = 20 + name as usize;
    let media_type: u64 = read_le(body, at, 4);
    if size - at < 12 || media_type > (size - at - 12) as u64 {
        return false;
    }
    let behind: usize = at + 4 + media_type as usize;
    size - behind - 8 < 4 && is_utf8(slice_subrange(body, 20, at)) && is_utf8(
        slice_subrange(body, at + 4, behind),
    )
}

/// Whether the record at a place is whole, and an attachment that is cut short.
pub(crate) fn is_cut_at(file: &[u8], at: usize) -> (r: bool)
    ensures
        r == cut_at(file@, at as int),
{
    let size: usize = file.len();
    if at > size || size - at < 9 || file[at] != ATTACHMENT {
        return false;
    }
    let len: u64 = read_le(file, at + 1, 8);
    if len > (size - at - 9) as u64 {
        return false;
    }
    is_attachment_cut(slice_subrange(file, at + 9, at + 9 + len as usize))
}

/// The place of the record behind the one at a place.
pub(crate) fn next_place(file: &[u8], at: usize) -> (r: usize)
    ensures
        r == place_after(file@, at as int),
{
    let size: usize = file.len();
    if at > size || size - at < 9 || file[at] == FOOTER {
        return size;
    }
    let len: u64 = read_le(file, at + 1, 8);
    if len > (size - at - 9) as u64 {
        return size;
    }
    at + 9 + len as usize
}

fn is_overlong(len: u64) -> (r: bool)
    ensures
        r == overlong(len as nat),
{
    len <= usize::MAX as u64 && len > (usize::MAX - 9) as u64
}

/// A [`Spot`] in a file that is in memory.
#[derive(Clone, Copy, Debug)]
struct ReadSpot {
    at: usize,
    chunk: Option<(u64, u128)>,
}

impl View for ReadSpot {
    type V = Spot;

    closed spec fn view(&self) -> Spot {
        Spot {
            at: self.at as int,
            chunk: match self.chunk {
                Some((left, end)) => Some((left as nat, end as int)),
                None => None,
            },
        }
    }
}

enum ReadStep {
    Stuck,
    Ended,
    Passes(ReadSpot),
}

spec fn step_view(step: ReadStep) -> Step {
    match step {
        ReadStep::Stuck => Step::Stuck,
        ReadStep::Ended => Step::Ended,
        ReadStep::Passes(spot) => Step::Passes(spot@),
    }
}

fn take_record(file: &[u8], at: usize, next: ReadSpot) -> (r: ReadStep)
    requires
        at + 9 <= file@.len(),
    ensures
        step_view(r) == record_step(file@, at as int, next@),
{
    if is_cut_at(file, at) {
        ReadStep::Stuck
    } else {
        ReadStep::Passes(next)
    }
}

fn take_chunk(file: &[u8], at: usize, len: u64) -> (r: ReadStep)
    requires
        at + 9 <= file@.len(),
        len == body_len(file@, at as int),
    ensures
        step_view(r) == chunk_step(file@, at as int),
{
    let size: usize = file.len();
    if size - at < 49 {
        return ReadStep::Ended;
    }
    let compression: u64 = read_le(file, at + 37, 4);
    let stored: u64 = read_le(file, at + 41, 8);
    if compression > (usize::MAX - 40) as u64 {
        return ReadStep::Stuck;
    }
    if compression > 0 || len < 40 || len - 40 < stored {
        return ReadStep::Ended;
    }
    let end: u128 = at as u128 + 9 + len as u128;
    ReadStep::Passes(ReadSpot { at: at + 49, chunk: Some((stored, end)) })
}

fn take_step(file: &[u8], spot: ReadSpot) -> (r: ReadStep)
    ensures
        step_view(r) == step(file@, spot@),
{
    let size: usize = file.len();
    let at: usize = spot.at;
    match spot.chunk {
        None => {
            if at > size || size - at < 9 || file[at] == FOOTER {
                return ReadStep::Ended;
            }
            let len: u64 = read_le(file, at + 1, 8);
            if file[at] == CHUNK {
                return take_chunk(file, at, len);
            }
            if file[at] != DATA_END && is_overlong(len) {
                return ReadStep::Stuck;
            }
            if len > (size - at - 9) as u64 {
                return ReadStep::Ended;
            }
            take_record(file, at, ReadSpot { at: at + 9 + len as usize, chunk: None })
        },
        Some((left, end)) => {
            if left == 0 {
                if at as u128 <= end && end <= size as u128 {
                    return ReadStep::Passes(ReadSpot { at: end as usize, chunk: None });
                }
                return ReadStep::Ended;
            }
            if at > size || size - at < 9 {
                return ReadStep::Ended;
            }
            let len: u64 = read_le(file, at + 1, 8);
            if is_overlong(len) {
                return ReadStep::Stuck;
            }
            if len > (size - at - 9) as u64 {
                return ReadStep::Ended;
            }
            if left < 9 || len > left - 9 {
                return ReadStep::Stuck;
            }
            take_record(
                file,
                at,
                ReadSpot { at: at + 9 + len as usize, chunk: Some((left - 9 - len, end)) },
            )
        },
    }
}

/// The place of the first thing in a file that a stream cannot be handed.
pub(crate) fn find_stuck(file: &[u8]) -> (r: Option<usize>)
    ensures
        r is Some <==> stuck_place(file@) is Some,
        r matches Some(at) ==> stuck_place(file@) == Some(at as int),
{
    if !starts_with_magic(file) {
        return None;
    }
    let mut here = ReadSpot { at: 8, chunk: None };
    loop
        invariant
            stuck_place(file@) == stuck_from(file@, here@),
        decreases file@.len() - here@.at, depth(here@),
    {
        match take_step(file, here) {
            ReadStep::Stuck => return Some(here.at),
            ReadStep::Ended => return None,
            ReadStep::Passes(next) => {
                here = next;
            },
        }
    }
}

/// Whether a record stands at a place of a file: its opcode, the length of its body in
/// eight bytes, and the body.
pub open spec fn stands_at(file: Seq<u8>, at: int, opcode: u8, body: Seq<u8>) -> bool {
    &&& 0 <= at
    &&& at + 9 + body.len() <= file.len()
    &&& file[at] == opcode
    &&& file.subrange(at + 1, at + 9) == le_bytes(body.len(), 8)
    &&& file.subrange(at + 9, at + 9 + body.len()) == body
}

/// A record is passed over by the nine bytes before its body and by the body. Only an
/// attachment can stop a reader there, and it does exactly if it is cut short. The footer
/// ends a file.
pub proof fn whole_records_are_passed_over(
    file: Seq<u8>,
    at: int,
    opcode: u8,
    body: Seq<u8>,
)
    requires
        stands_at(file, at, opcode, body),
        body.len() + 9 <= usize::MAX,
    ensures
        cut_at(file, at) <==> opcode == 0x09 && attachment_cut(body),
        place_after(file, at) == if opcode == 0x02 {
            file.len() as int
        } else {
            at + 9 + body.len()
        },
        opcode == 0x02 ==> step(file, Spot { at, chunk: None }) is Ended,
        opcode != 0x02 && opcode != 0x06 ==> step(file, Spot { at, chunk: None }) == if cut_at(
            file,
            at,
        ) {
            Step::Stuck
        } else {
            Step::Passes(Spot { at: at + 9 + body.len(), chunk: None })
        },
        forall|left: nat, end: int|
            left > 0 ==> #[trigger] step(file, Spot { at, chunk: Some((left, end)) }) == if cut_at(
                file,
                at,
            ) || 9 + body.len() > left {
                Step::Stuck
            } else {
                Step::Passes(
                    Spot {
                        at: at + 9 + body.len(),
                        chunk: Some(((left - 9 - body.len()) as nat, end)),
                    },
                )
            },
{
    lemma_read_back(body.len(), 8);
    assert(body_len(file, at) == body.len());
}

/// An attachment is cut short exactly if behind its two times, its name and media type,
/// which are text, and the length of its data, fewer than the four bytes of a checksum are
/// left.
pub proof fn attachment_needs_a_checksum(
    times: Seq<u8>,
    name: Seq<u8>,
    media_type: Seq<u8>,
    length: Seq<u8>,
    rest: Seq<u8>,
)
    requires
        times.len() == 16,
        name.len() < 0x1_0000_0000,
        media_type.len() < 0x1_0000_0000,
        length.len() == 8,
    ensures
        attachment_cut(
            times + le_bytes(name.len(), 4) + name + le_bytes(media_type.len(), 4) + media_type
                + length + rest,
        ) <==> rest.len() < 4 && valid_utf8(name) && valid_utf8(media_type),
{
    let n = name.len() as int;
    let m = media_type.len() as int;
    let body = times + le_bytes(name.len(), 4) + name + le_bytes(media_type.len(), 4) + media_type
        + length + rest;
    lemma_read_back(name.len(), 4);
    lemma_read_back(media_type.len(), 4);
    reveal_with_fuel(le_bytes, 5);
    assert(le_bytes(name.len(), 4).len() == 4);
    assert(le_bytes(media_type.len(), 4).len() == 4);
    assert(body.len() == 32 + n + m + rest.len());
    assert(body.subrange(16, 20) =~= le_bytes(name.len(), 4));
    assert(body.subrange(20, 20 + n) =~= name);
    assert(body.subrange(20 + n, 24 + n) =~= le_bytes(media_type.len(), 4));
    assert(body.subrange(24 + n, 24 + n + m) =~= media_type);
}

/// A file that is not MCAP stops no reader, and neither does one that ends behind its magic
/// bytes.
pub proof fn short_files_stop_no_reader(file: Seq<u8>)
    ensures
        !has_magic(file) || file.len() < 17 ==> stuck_place(file) is None && records_readable(file)
            && sound_part(file) == file,
        has_magic(file) ==> file.take(8) == seq![0x89u8, 0x4d, 0x43, 0x41, 0x50, 0x30, 0x0d, 0x0a],
{
    if has_magic(file) {
        assert(file.take(8) =~= seq![0x89u8, 0x4d, 0x43, 0x41, 0x50, 0x30, 0x0d, 0x0a]);
    }
}

/// A chunk that is not compressed is entered behind its header, with so many bytes of
/// records left as it says and the end that its length gives; it is left at that end when
/// none are left. A compressed chunk is not entered, nor one too short for its records.
pub proof fn plain_chunks_are_entered(
    file: Seq<u8>,
    at: int,
    len: nat,
    compression: nat,
    stored: nat,
    end: int,
)
    requires
        0 <= at,
        at + 49 <= file.len(),
        file[at] == 0x06,
        len <= u64::MAX,
        file.subrange(at + 1, at + 9) == le_bytes(len, 8),
        compression < 0x1_0000_0000,
        40 + compression <= usize::MAX,
        file.subrange(at + 37, at + 41) == le_bytes(compression, 4),
        stored <= u64::MAX,
        file.subrange(at + 41, at + 49) == le_bytes(stored, 8),
    ensures
        step(file, Spot { at, chunk: None }) == if compression == 0 && 40 + stored <= len {
            Step::Passes(Spot { at: at + 49, chunk: Some((stored, at + 9 + len)) })
        } else {
            Step::Ended
        },
        at <= end <= file.len() ==> step(file, Spot { at, chunk: Some((0, end)) }) == Step::Passes(
            Spot { at: end, chunk: None },
        ),
{
    lemma_read_back(len, 8);
    lemma_read_back(compression, 4);
    lemma_read_back(stored, 8);
}

} // verus!
