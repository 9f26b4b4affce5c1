//! Payload bytes: little-endian numbers, the one-field wrapper table of
//! fixed-layout topics, and the scalar slots of FlatBuffers root tables.

use vstd::arithmetic::power::*;
use vstd::prelude::*;
use vstd::slice::*;

use crate::error::Error;

verus! {

/// The `width` lowest bytes of a number, lowest first.
pub open spec fn le_bytes(value: nat, width: nat) -> Seq<u8>
    decreases width,
{
    if width == 0 {
        seq![]
    } else {
        seq![(value % 256) as u8] + le_bytes(value / 256, (width - 1) as nat)
    }
}

/// The number whose bytes, lowest first, are given.
pub open spec fn le_value(bytes: Seq<u8>) -> nat
    decreases bytes.len(),
{
    if bytes.len() == 0 {
        0
    } else {
        bytes[0] as nat + 256 * le_value(bytes.drop_first())
    }
}

/// The number that, as 32 bits in two's complement, stands for `-size`.
pub open spec fn negative32(size: nat) -> nat {
    ((0x1_0000_0000 - size % 0x1_0000_0000) % 0x1_0000_0000) as nat
}

/// The largest payload that a wrapper table can hold.
pub const WRAP_LIMIT: usize = 65531;

/// The rooted FlatBuffer with one table whose only field is the struct `payload`:
/// root offset, vtable offset, the struct, and the vtable behind it.
pub open spec fn wrapped(payload: Seq<u8>) -> Seq<u8> {
    let size = payload.len() + 4;
    le_bytes(4, 4) + le_bytes(negative32(size), 4) + payload + le_bytes(6, 2) + le_bytes(
        size % 65536,
        2,
    ) + le_bytes(4, 2)
}

/// Whether `bytes` is the wrapper of a struct of `size` bytes.
pub open spec fn is_wrapper(bytes: Seq<u8>, size: nat) -> bool {
    &&& bytes.len() == size + 14
    &&& bytes.subrange(0, 4) == le_bytes(4, 4)
    &&& bytes.subrange(4, 8) == le_bytes(negative32(size + 4), 4)
    &&& bytes.subrange(size as int + 8, size as int + 10) == le_bytes(6, 2)
    &&& bytes.subrange(size as int + 10, size as int + 12) == le_bytes((size + 4) % 65536, 2)
    &&& bytes.subrange(size as int + 12, size as int + 14) == le_bytes(4, 2)
}

/// The struct inside a wrapper.
pub open spec fn wrapper_content(bytes: Seq<u8>, size: nat) -> Seq<u8> {
    bytes.subrange(8, size as int + 8)
}

proof fn lemma_le_bytes_len(value: nat, width: nat)
    ensures
        le_bytes(value, width).len() == width,
    decreases width,
{
    if width > 0 {
        lemma_le_bytes_len(value / 256, (width - 1) as nat);
    }
}

proof fn lemma_le_value_bound(bytes: Seq<u8>)
    ensures
        bytes.len() <= 8 ==> le_value(bytes) <= u64::MAX,
        bytes.len() <= 4 ==> le_value(bytes) <= u32::MAX,
        bytes.len() <= 2 ==> le_value(bytes) <= u16::MAX,
{
    reveal_with_fuel(le_value, 9);
}

/// Unwrapping undoes wrapping: the wrapper of a payload is recognised under the
/// payload's size, and its content is the payload.
pub proof fn unwrap_of_wrap(payload: Seq<u8>)
    ensures
        is_wrapper(wrapped(payload), payload.len()),
        wrapper_content(wrapped(payload), payload.len()) == payload,
{
    let size = payload.len() + 4;
    let w = wrapped(payload);
    let n = payload.len() as int;
    lemma_le_bytes_len(4, 4);
    lemma_le_bytes_len(negative32(size), 4);
    lemma_le_bytes_len(6, 2);
    lemma_le_bytes_len(size % 65536, 2);
    lemma_le_bytes_len(4, 2);
    assert(w.subrange(0, 4) =~= le_bytes(4, 4));
    assert(w.subrange(4, 8) =~= le_bytes(negative32(size), 4));
    assert(w.subrange(8, n + 8) =~= payload);
    assert(w.subrange(n + 8, n + 10) =~= le_bytes(6, 2));
    assert(w.subrange(n + 10, n + 12) =~= le_bytes(size % 65536, 2));
    assert(w.subrange(n + 12, n + 14) =~= le_bytes(4, 2));
}

/// Wrapping undoes unwrapping: a recognised wrapper is the wrapper of its content,
/// so there is one wrapper for each payload.
pub proof fn wrap_of_unwrap(bytes: Seq<u8>, size: nat)
    requires
        is_wrapper(bytes, size),
    ensures
        wrapper_content(bytes, size).len() == size,
        wrapped(wrapper_content(bytes, size)) == bytes,
{
    let n = size as int;
    let content = wrapper_content(bytes, size);
    assert(bytes =~= bytes.subrange(0, 4) + bytes.subrange(4, 8) + content + bytes.subrange(
        n + 8,
        n + 10,
    ) + bytes.subrange(n + 10, n + 12) + bytes.subrange(n + 12, n + 14));
}

fn push_le(out: &mut Vec<u8>, value: u64, width: usize)
    ensures
        final(out)@ == old(out)@ + le_bytes(value as nat, width as nat),
    decreases width,
{
    let ghost start = out@;
    if width > 0 {
        out.push((value % 256) as u8);
        push_le(out, value / 256, width - 1);
    }
    assert(out@ =~= start + le_bytes(value as nat, width as nat));
}

/// The number in the `width` bytes at `start`.
pub fn read_le(bytes: &[u8], start: usize, width: usize) -> (r: u64)
    requires
        width <= 8,
        start + width <= bytes@.len(),
    ensures
        r == le_value(bytes@.subrange(start as int, start + width)),
{
    let ghost window = bytes@.subrange(start as int, start + width);
    let len: usize = bytes.len();
    let mut value: u64 = 0;
    let mut left: usize = width;
    assert(window.skip(left as int) =~= seq![]);
    while left > 0
        invariant
            left <= width <= 8,
            start + width <= bytes@.len(),
            bytes@.len() == len,
            window == bytes@.subrange(start as int, start + width),
            value == le_value(window.skip(left as int)),
        decreases left,
    {
        proof {
            let tail = window.skip(left - 1);
            assert(tail.drop_first() =~= window.skip(left as int));
            lemma_le_value_bound(tail);
        }
        left = left - 1;
        value = bytes[start + left] as u64 + 256 * value;
    }
    assert(window.skip(0) =~= window);
    value
}

fn has_le(bytes: &[u8], start: usize, value: u64, width: usize) -> (r: bool)
    requires
        start + width <= bytes@.len(),
    ensures
        r == (bytes@.subrange(start as int, start + width) == le_bytes(value as nat, width as nat)),
    decreases width,
{
    let ghost window = bytes@.subrange(start as int, start + width);
    let ghost want = le_bytes(value as nat, width as nat);
    proof {
        lemma_le_bytes_len(value as nat, width as nat);
    }
    if width == 0 {
        assert(window =~= want);
        return true;
    }
    assert(bytes.len() == bytes@.len());
    let rest = has_le(bytes, start + 1, value / 256, width - 1);
    proof {
        let rest_want = le_bytes(value as nat / 256, (width - 1) as nat);
        lemma_le_bytes_len(value as nat / 256, (width - 1) as nat);
        let rest_window = bytes@.subrange(start + 1, start + width);
        assert(window =~= seq![window[0]] + rest_window);
        assert(want =~= seq![(value % 256) as u8] + rest_want);
        assert(window.drop_first() =~= rest_window);
        assert(want.drop_first() =~= rest_want);
    }
    rest && bytes[start] == (value % 256) as u8
}

fn negative(size: usize) -> (r: u64)
    ensures
        r == negative32(size as nat),
{
    (0x1_0000_0000 - (size as u64) % 0x1_0000_0000) % 0x1_0000_0000
}

/// Wrap the struct of a fixed-layout topic in its one-field root table.
pub fn wrap_fixed_payload(payload: &[u8]) -> (r: Result<Vec<u8>, Error>)
    ensures
        payload@.len() <= WRAP_LIMIT ==> r is Ok && r->Ok_0@ == wrapped(payload@),
        payload@.len() > WRAP_LIMIT ==> r == Err::<Vec<u8>, Error>(Error::WrapTooLarge),
        r is Ok <==> payload@.len() + 4 <= u16::MAX,
{
    if payload.len() > WRAP_LIMIT {
        return Err(Error::WrapTooLarge);
    }
    let size: usize = payload.len() + 4;
    let mut output: Vec<u8> = Vec::with_capacity(payload.len() + 14);
    push_le(&mut output, 4, 4);
    push_le(&mut output, negative(size), 4);
    output.extend_from_slice(payload);
    push_le(&mut output, 6, 2);
    push_le(&mut output, (size as u64) % 65536, 2);
    push_le(&mut output, 4, 2);
    assert(output@ =~= wrapped(payload@));
    Ok(output)
}

/// The struct inside the wrapper of a fixed-layout topic with structs of
/// `expected` bytes.
pub fn unwrap_fixed_payload(payload: &[u8], expected: usize) -> (r: Result<&[u8], Error>)
    ensures
        expected + 14 > usize::MAX ==> r == Err::<&[u8], Error>(Error::UnwrapOverflow),
        expected + 14 <= usize::MAX && is_wrapper(payload@, expected as nat) ==> r is Ok
            && r->Ok_0@ == wrapper_content(payload@, expected as nat),
        expected + 14 <= usize::MAX && !is_wrapper(payload@, expected as nat) ==> r == Err::<
            &[u8],
            Error,
        >(Error::InvalidWrapper { actual: payload@.len() as usize, expected: (expected + 14) as usize }),
{
    if expected > usize::MAX - 14 {
        return Err(Error::UnwrapOverflow);
    }
    let size: usize = expected + 4;
    if payload.len() == expected + 14 && has_le(payload, 0, 4, 4) && has_le(
        payload,
        4,
        negative(size),
        4,
    ) && has_le(payload, expected + 8, 6, 2) && has_le(
        payload,
        expected + 10,
        (size as u64) % 65536,
        2,
    ) && has_le(payload, expected + 12, 4, 2) {
        Ok(slice_subrange(payload, 8, expected + 8))
    } else {
        Err(Error::InvalidWrapper { actual: payload.len(), expected: expected + 14 })
    }
}

/// Whether two runs of bytes are equal.
pub fn same_bytes(a: &[u8], b: &[u8]) -> (r: bool)
    ensures
        r == (a@ == b@),
{
    if a.len() != b.len() {
        return false;
    }
    let mut i: usize = 0;
    while i < a.len()
        invariant
            i <= a@.len(),
            a@.len() == b@.len(),
            forall|j: int| 0 <= j < i ==> a@[j] == b@[j],
        decreases a.len() - i,
    {
        if a[i] != b[i] {
            assert(a@[i as int] != b@[i as int]);
            return false;
        }
        i = i + 1;
    }
    assert(a@ =~= b@);
    true
}

/// A 32-bit number in two's complement.
pub open spec fn signed32(value: nat) -> int {
    if value >= 0x8000_0000 {
        value - 0x1_0000_0000
    } else {
        value as int
    }
}

/// The number at a place of a buffer, if the buffer reaches that far.
pub open spec fn scalar_at(buffer: Seq<u8>, at: int, width: nat) -> Option<nat> {
    if 0 <= at && at + width <= buffer.len() {
        Some(le_value(buffer.subrange(at, at + width)))
    } else {
        None
    }
}

/// The 64-bit field of a root table whose offset stands `slot` bytes into the
/// vtable. The buffer starts with the offset of the table; the table starts with
/// the distance back to its vtable; the vtable starts with its own size. There is
/// no field if the vtable ends before the slot, if the slot is zero, or if one of
/// these places lies outside the buffer.
pub open spec fn table_field(buffer: Seq<u8>, slot: nat) -> Option<nat> {
    match scalar_at(buffer, 0, 4) {
        None => None,
        Some(table) => match scalar_at(buffer, table as int, 4) {
            None => None,
            Some(distance) => {
                let vtable = table - signed32(distance);
                match (scalar_at(buffer, vtable, 2), scalar_at(buffer, vtable + slot, 2)) {
                    (Some(size), Some(offset)) => if slot + 2 > size || offset == 0 {
                        None
                    } else {
                        scalar_at(buffer, table as int + offset, 8)
                    },
                    _ => None,
                }
            },
        },
    }
}

fn read_scalar(buffer: &[u8], at: i64, width: usize) -> (r: Option<u64>)
    requires
        width <= 8,
        -0x1_0000_0000_0000 < at < 0x1_0000_0000_0000,
    ensures
        r is Some <==> scalar_at(buffer@, at as int, width as nat) is Some,
        r matches Some(v) ==> Some(v as nat) == scalar_at(buffer@, at as int, width as nat),
{
    if at < 0 || at as u64 > buffer.len() as u64 {
        return None;
    }
    let start: usize = at as usize;
    if width > buffer.len() - start {
        return None;
    }
    Some(read_le(buffer, start, width))
}

/// The 64-bit field of a root table at a slot of its vtable.
pub fn read_table_field(buffer: &[u8], slot: u16) -> (r: Option<u64>)
    ensures
        r is Some <==> table_field(buffer@, slot as nat) is Some,
        r matches Some(v) ==> Some(v as nat) == table_field(buffer@, slot as nat),
{
    let table: u64 = match read_scalar(buffer, 0, 4) {
        Some(v) => v,
        None => return None,
    };
    proof {
        lemma_le_value_bound(buffer@.subrange(0, 4));
    }
    let distance: u64 = match read_scalar(buffer, table as i64, 4) {
        Some(v) => v,
        None => return None,
    };
    proof {
        lemma_le_value_bound(buffer@.subrange(table as int, table + 4));
    }
    let back: i64 = if distance >= 0x8000_0000 {
        distance as i64 - 0x1_0000_0000
    } else {
        distance as i64
    };
    let vtable: i64 = table as i64 - back;
    let size: u64 = match read_scalar(buffer, vtable, 2) {
        Some(v) => v,
        None => return None,
    };
    let offset: u64 = match read_scalar(buffer, vtable + slot as i64, 2) {
        Some(v) => v,
        None => return None,
    };
    proof {
        lemma_le_value_bound(buffer@.subrange(vtable + slot, vtable + slot + 2));
    }
    if slot as u64 + 2 > size || offset == 0 {
        return None;
    }
    read_scalar(buffer, table as i64 + offset as i64, 8)
}

/// A number that fits in so many bytes is read back from them as it was written, and the
/// byte at each place is the number's digit to the base 256.
pub proof fn written_number_is_read_back(value: nat, width: nat)
    requires
        value < pow(256, width),
    ensures
        le_bytes(value, width).len() == width,
        le_value(le_bytes(value, width)) == value,
        forall|i: int|
            0 <= i < width ==> #[trigger] le_bytes(value, width)[i] == value as int / pow(
                256,
                i as nat,
            ) % 256,
    decreases width,
{
    reveal(pow);
    if width > 0 {
        let less = (width - 1) as nat;
        let rest = le_bytes(value / 256, less);
        assert(value / 256 < pow(256, less)) by (nonlinear_arith)
            requires
                value < pow(256, width),
                pow(256, width) == 256 * pow(256, less),
        ;
        written_number_is_read_back(value / 256, less);
        assert(le_bytes(value, width).drop_first() =~= rest);
        assert forall|i: int| 0 <= i < width implies #[trigger] le_bytes(value, width)[i]
            == value as int / pow(256, i as nat) % 256 by {
            if i > 0 {
                let power = pow(256, (i - 1) as nat);
                lemma_pow_positive(256, (i - 1) as nat);
                assert(rest[i - 1] == le_bytes(value, width)[i]);
                assert(value as int / 256 / power == value as int / (256 * power))
                    by (nonlinear_arith)
                    requires
                        power > 0,
                        value >= 0,
                {
                    vstd::arithmetic::div_mod::lemma_div_denominator(value as int, 256, power);
                }
            } else {
                assert(pow(256, 0) == 1);
                assert(le_bytes(value, width)[0] == (value % 256) as u8);
            }
        }
    }
}

pub(crate) proof fn lemma_read_back(value: nat, width: nat)
    requires
        width == 2 && value < 0x1_0000 || width == 4 && value < 0x1_0000_0000 || width == 8
            && value <= u64::MAX,
    ensures
        le_value(le_bytes(value, width)) == value,
{
    reveal(pow);
    reveal_with_fuel(pow, 9);
    written_number_is_read_back(value, width);
}

/// Whether a buffer lays out a root table with a 64-bit number at a slot: it begins with
/// the place of the table, the table with its distance from a vtable before or behind it,
/// the vtable with its size; at the slot it has the offset of the number in the table.
pub open spec fn lays_out(
    buffer: Seq<u8>,
    table: nat,
    vtable: int,
    size: nat,
    slot: nat,
    offset: nat,
    value: nat,
) -> bool {
    &&& table < 0x1_0000_0000
    &&& table + 4 <= buffer.len()
    &&& buffer.subrange(0, 4) == le_bytes(table, 4)
    &&& -0x8000_0000 <= table - vtable < 0x8000_0000
    &&& buffer.subrange(table as int, table as int + 4) == le_bytes(
        (if vtable <= table {
            table - vtable
        } else {
            0x1_0000_0000 + table - vtable
        }) as nat,
        4,
    )
    &&& 0 <= vtable
    &&& vtable + 2 <= buffer.len()
    &&& size < 0x1_0000
    &&& buffer.subrange(vtable, vtable + 2) == le_bytes(size, 2)
    &&& vtable + slot + 2 <= buffer.len()
    &&& offset < 0x1_0000
    &&& buffer.subrange(vtable + slot, vtable + slot + 2) == le_bytes(offset, 2)
    &&& value <= u64::MAX
    &&& table + offset + 8 <= buffer.len()
    &&& buffer.subrange(table as int + offset, table as int + offset + 8) == le_bytes(value, 8)
}

/// The 64-bit field of a root table is the number in all its eight bytes. There is none if
/// the vtable is too short for the slot or has zero there.
pub proof fn table_field_is_read_whole(
    buffer: Seq<u8>,
    table: nat,
    vtable: int,
    size: nat,
    slot: nat,
    offset: nat,
    value: nat,
)
    requires
        lays_out(buffer, table, vtable, size, slot, offset, value),
    ensures
        table_field(buffer, slot) == if slot + 2 <= size && offset > 0 {
            Some(value)
        } else {
            None
        },
{
    let distance = (if vtable <= table {
        table - vtable
    } else {
        0x1_0000_0000 + table - vtable
    }) as nat;
    lemma_read_back(table, 4);
    lemma_read_back(distance, 4);
    lemma_read_back(size, 2);
    lemma_read_back(offset, 2);
    lemma_read_back(value, 8);
    assert(scalar_at(buffer, 0, 4) == Some(table));
    assert(scalar_at(buffer, table as int, 4) == Some(distance));
    assert(table - signed32(distance) == vtable);
    assert(scalar_at(buffer, vtable, 2) == Some(size));
    assert(scalar_at(buffer, vtable + slot, 2) == Some(offset));
    assert(scalar_at(buffer, table as int + offset, 8) == Some(value));
}

/// The wrapper of a struct is a root table: the table is at the fourth byte, its vtable
/// stands behind the struct, has three entries, gives the table's size, and the struct as
/// the first field. A number at the struct's start is that field's.
pub proof fn wrapper_is_a_table_of_its_struct(payload: Seq<u8>)
    requires
        payload.len() + 4 <= u16::MAX,
    ensures
        ({
            let w = wrapped(payload);
            let n = payload.len() as int;
            &&& w.len() == n + 14
            &&& le_value(w.subrange(0, 4)) == 4
            &&& 0x1_0000_0000 - le_value(w.subrange(4, 8)) == (n + 8) - 4
            &&& w.subrange(8, n + 8) == payload
            &&& le_value(w.subrange(n + 8, n + 10)) == 6
            &&& le_value(w.subrange(n + 10, n + 12)) == n + 4
            &&& le_value(w.subrange(n + 12, n + 14)) == 4
        }),
        payload.len() >= 8 ==> table_field(wrapped(payload), 4) == Some(
            le_value(payload.subrange(0, 8)),
        ),
{
    unwrap_of_wrap(payload);
    lemma_wrapper_table(wrapped(payload), payload.len());
    if payload.len() >= 8 {
        let content = wrapper_content(wrapped(payload), payload.len());
        assert(content.subrange(0, 8) =~= wrapped(payload).subrange(8, 16));
    }
}

#[verifier::spinoff_prover]
proof fn lemma_wrapper_table(w: Seq<u8>, n: nat)
    requires
        is_wrapper(w, n),
        n + 4 <= u16::MAX,
    ensures
        le_value(w.subrange(0, 4)) == 4,
        0x1_0000_0000 - le_value(w.subrange(4, 8)) == n + 4,
        le_value(w.subrange(n as int + 8, n as int + 10)) == 6,
        le_value(w.subrange(n as int + 10, n as int + 12)) == n + 4,
        le_value(w.subrange(n as int + 12, n as int + 14)) == 4,
        n >= 8 ==> table_field(w, 4) == Some(le_value(w.subrange(8, 16))),
{
    assert(negative32(n + 4) == 0x1_0000_0000 - (n + 4));
    assert((n + 4) % 65536 == n + 4);
    lemma_read_back(4, 4);
    lemma_read_back(negative32(n + 4), 4);
    lemma_read_back(6, 2);
    lemma_read_back(n + 4, 2);
    lemma_read_back(4, 2);
    if n >= 8 {
        let first = w.subrange(8, 16);
        lemma_le_value_bound(first);
        lemma_written_back(first);
        assert(lays_out(w, 4, n as int + 8, 6, 4, 4, le_value(first)));
        table_field_is_read_whole(w, 4, n as int + 8, 6, 4, 4, le_value(first));
    }
}

/// Bytes are written back as they were read.
pub proof fn lemma_written_back(bytes: Seq<u8>)
    ensures
        le_bytes(le_value(bytes), bytes.len()) == bytes,
    decreases bytes.len(),
{
    if bytes.len() > 0 {
        let rest = bytes.drop_first();
        lemma_written_back(rest);
        let value = le_value(bytes);
        assert(value % 256 == bytes[0] && value / 256 == le_value(rest)) by {
            let tail = le_value(rest);
            assert(value == bytes[0] as nat + 256 * tail);
        }
        assert(le_bytes(value, bytes.len()) =~= seq![bytes[0]] + rest);
        assert(bytes =~= seq![bytes[0]] + rest);
    } else {
        assert(le_bytes(le_value(bytes), 0) =~= bytes);
    }
}

} // verus!
