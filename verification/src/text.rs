//! Text primitives: splitting, joining, numbers, padding, comparison.
//!
//! A string is modelled by the sequence of its characters, `s@`.

use vstd::prelude::*;
use vstd::string::*;
use vstd::utf8::*;

verus! {

/// `String::push` appends one character to the end of the string.
pub assume_specification[ String::push ](s: &mut String, ch: char)
    ensures
        final(s)@ == old(s)@.push(ch),
;

/// The characters of a list of strings.
pub open spec fn views(parts: Seq<String>) -> Seq<Seq<char>> {
    parts.map_values(|part: String| part@)
}

/// The characters of an optional string.
pub open spec fn opt_view(value: Option<String>) -> Option<Seq<char>> {
    match value {
        Some(text) => Some(text@),
        None => None,
    }
}

/// The hexadecimal digit, in lower case, of a value below sixteen.
pub open spec fn digit(value: int) -> char {
    if value == 0 { '0' }
    else if value == 1 { '1' }
    else if value == 2 { '2' }
    else if value == 3 { '3' }
    else if value == 4 { '4' }
    else if value == 5 { '5' }
    else if value == 6 { '6' }
    else if value == 7 { '7' }
    else if value == 8 { '8' }
    else if value == 9 { '9' }
    else if value == 10 { 'a' }
    else if value == 11 { 'b' }
    else if value == 12 { 'c' }
    else if value == 13 { 'd' }
    else if value == 14 { 'e' }
    else { 'f' }
}

/// The decimal digits of a number, without leading zeros.
pub open spec fn decimal(n: nat) -> Seq<char>
    decreases n,
{
    if n < 10 {
        seq![digit(n as int)]
    } else {
        decimal(n / 10).push(digit((n % 10) as int))
    }
}

/// The two hexadecimal digits of a byte.
pub open spec fn hex_pair(byte: u8) -> Seq<char> {
    seq![digit(byte as int / 16), digit(byte as int % 16)]
}

/// `parts` written one after the other with `separator` between them.
pub open spec fn joined(parts: Seq<Seq<char>>, separator: Seq<char>) -> Seq<char>
    decreases parts.len(),
{
    if parts.len() == 0 {
        seq![]
    } else if parts.len() == 1 {
        parts[0]
    } else {
        joined(parts.drop_last(), separator) + separator + parts.last()
    }
}

/// The pieces of `text` between the occurrences of `separator`. There is always
/// one piece more than there are separators.
pub open spec fn pieces(text: Seq<char>, separator: char) -> Seq<Seq<char>>
    decreases text.len(),
{
    if text.len() == 0 {
        seq![seq![]]
    } else {
        let before = pieces(text.drop_last(), separator);
        if text.last() == separator {
            before.push(seq![])
        } else {
            before.drop_last().push(before.last().push(text.last()))
        }
    }
}

/// `text` with every `from` replaced by `to`.
pub open spec fn replaced(text: Seq<char>, from: char, to: char) -> Seq<char> {
    text.map_values(|c: char| if c == from { to } else { c })
}

/// `n` spaces.
pub open spec fn spaces(n: nat) -> Seq<char> {
    Seq::new(n, |i: int| ' ')
}

/// `text` followed by as many spaces as it lacks to `width` characters.
pub open spec fn padded_right(text: Seq<char>, width: nat) -> Seq<char> {
    if text.len() < width {
        text + spaces((width - text.len()) as nat)
    } else {
        text
    }
}

/// `text` after as many spaces as it lacks to `width` characters.
pub open spec fn padded_left(text: Seq<char>, width: nat) -> Seq<char> {
    if text.len() < width {
        spaces((width - text.len()) as nat) + text
    } else {
        text
    }
}

/// Whether `text` begins with `prefix`.
pub open spec fn has_prefix(text: Seq<char>, prefix: Seq<char>) -> bool {
    prefix.len() <= text.len() && text.take(prefix.len() as int) == prefix
}

/// Whether `text` is 128 bits in lowercase hexadecimal.
pub open spec fn is_hex_128(text: Seq<char>) -> bool {
    &&& text.len() == 32
    &&& forall|i: int|
        0 <= i < text.len() ==> ('0' <= #[trigger] text[i] <= '9' || 'a' <= text[i] <= 'f')
}

/// An ASCII capital letter as the small one; any other character as it is.
pub open spec fn lower(c: char) -> char {
    if 'A' <= c && c <= 'Z' {
        (c as u8 + 32) as u8 as char
    } else {
        c
    }
}

/// Whether two strings agree when ASCII letters are taken without their case.
pub open spec fn same_ignoring_case(a: Seq<char>, b: Seq<char>) -> bool {
    a.map_values(|c: char| lower(c)) == b.map_values(|c: char| lower(c))
}

/// Lexicographic order of byte sequences.
pub open spec fn bytes_before(a: Seq<u8>, b: Seq<u8>) -> bool
    decreases a.len(),
{
    if b.len() == 0 {
        false
    } else if a.len() == 0 {
        true
    } else if a[0] != b[0] {
        a[0] < b[0]
    } else {
        bytes_before(a.drop_first(), b.drop_first())
    }
}

/// The order of strings: lexicographic on their UTF-8 bytes.
pub open spec fn before(a: Seq<char>, b: Seq<char>) -> bool {
    bytes_before(encode_utf8(a), encode_utf8(b))
}

/// How one string stands to another in the order [`before`].
#[derive(Clone, Copy, Debug, PartialEq, Eq, Structural)]
pub enum Place {
    Before,
    Same,
    After,
}

proof fn lemma_bytes_before_irreflexive(a: Seq<u8>)
    ensures
        !bytes_before(a, a),
    decreases a.len(),
{
    if a.len() > 0 {
        lemma_bytes_before_irreflexive(a.drop_first());
    }
}

proof fn lemma_bytes_before_transitive(a: Seq<u8>, b: Seq<u8>, c: Seq<u8>)
    requires
        bytes_before(a, b),
        bytes_before(b, c),
    ensures
        bytes_before(a, c),
    decreases a.len(),
{
    if a.len() > 0 && a[0] == b[0] && b[0] == c[0] {
        lemma_bytes_before_transitive(a.drop_first(), b.drop_first(), c.drop_first());
    }
}

proof fn lemma_bytes_before_total(a: Seq<u8>, b: Seq<u8>)
    ensures
        bytes_before(a, b) || bytes_before(b, a) || a == b,
    decreases a.len(),
{
    if a.len() > 0 && b.len() > 0 && a[0] == b[0] {
        lemma_bytes_before_total(a.drop_first(), b.drop_first());
        if a.drop_first() == b.drop_first() {
            assert(a =~= seq![a[0]] + a.drop_first());
            assert(b =~= seq![b[0]] + b.drop_first());
        }
    } else if a.len() == 0 && b.len() == 0 {
        assert(a =~= b);
    }
}

/// Two strings with the same UTF-8 bytes are the same string.
pub proof fn lemma_encoding_injective(a: Seq<char>, b: Seq<char>)
    requires
        encode_utf8(a) == encode_utf8(b),
    ensures
        a == b,
{
    encode_utf8_decode_utf8(a);
    encode_utf8_decode_utf8(b);
}

/// No string stands before itself.
pub proof fn before_irreflexive(a: Seq<char>)
    ensures
        !before(a, a),
{
    lemma_bytes_before_irreflexive(encode_utf8(a));
}

/// The order of strings is transitive.
pub proof fn before_transitive(a: Seq<char>, b: Seq<char>, c: Seq<char>)
    requires
        before(a, b),
        before(b, c),
    ensures
        before(a, c),
{
    lemma_bytes_before_transitive(encode_utf8(a), encode_utf8(b), encode_utf8(c));
}

/// Of two different strings one stands before the other.
pub proof fn before_total(a: Seq<char>, b: Seq<char>)
    ensures
        before(a, b) || before(b, a) || a == b,
{
    lemma_bytes_before_total(encode_utf8(a), encode_utf8(b));
    if encode_utf8(a) == encode_utf8(b) {
        lemma_encoding_injective(a, b);
    }
}

/// Compare two strings in the order [`before`].
pub fn place(a: &str, b: &str) -> (r: Place)
    ensures
        r == Place::Before <==> before(a@, b@),
        r == Place::Same <==> a@ == b@,
        r == Place::After <==> before(b@, a@),
{
    let x = a.as_bytes();
    let y = b.as_bytes();
    let mut i: usize = 0;
    proof {
        before_irreflexive(a@);
        if before(a@, b@) && before(b@, a@) {
            before_transitive(a@, b@, a@);
        }
        assert(x@.skip(0) =~= x@);
        assert(y@.skip(0) =~= y@);
    }
    while i < x.len() && i < y.len() && x[i] == y[i]
        invariant
            i <= x@.len(),
            i <= y@.len(),
            x@.take(i as int) == y@.take(i as int),
            bytes_before(x@, y@) == bytes_before(x@.skip(i as int), y@.skip(i as int)),
            bytes_before(y@, x@) == bytes_before(y@.skip(i as int), x@.skip(i as int)),
        decreases x.len() - i,
    {
        proof {
            assert(x@.skip(i as int).drop_first() =~= x@.skip(i + 1));
            assert(y@.skip(i as int).drop_first() =~= y@.skip(i + 1));
            assert(x@.take(i + 1) =~= x@.take(i as int).push(x@[i as int]));
            assert(y@.take(i + 1) =~= y@.take(i as int).push(y@[i as int]));
        }
        i = i + 1;
    }
    if i == y.len() {
        if i == x.len() {
            proof {
                assert(x@.take(i as int) =~= x@);
                assert(y@.take(i as int) =~= y@);
                lemma_encoding_injective(a@, b@);
            }
            Place::Same
        } else {
            Place::After
        }
    } else if i == x.len() || x[i] < y[i] {
        Place::Before
    } else {
        Place::After
    }
}

/// Whether two strings are equal.
pub fn same(a: &str, b: &str) -> (r: bool)
    ensures
        r == (a@ == b@),
{
    place(a, b) == Place::Same
}

/// The characters of a string, one by one.
pub fn chars_of(text: &str) -> (r: Vec<char>)
    ensures
        r@ == text@,
{
    let mut r: Vec<char> = Vec::new();
    for c in it: text.chars()
        invariant
            r@ == it.seq().take(it.index() as int),
            it.seq() == text@,
    {
        r.push(c);
        assert(it.seq().take(it.index() + 1) =~= it.seq().take(it.index() as int).push(c));
    }
    assert(text@.take(text@.len() as int) =~= text@);
    r
}

/// Whether `wanted` occurs in `text`.
pub fn contains_char(text: &str, wanted: char) -> (r: bool)
    ensures
        r == text@.contains(wanted),
{
    let chars = chars_of(text);
    let mut i: usize = 0;
    while i < chars.len()
        invariant
            i <= chars@.len(),
            chars@ == text@,
            forall|j: int| 0 <= j < i ==> chars@[j] != wanted,
        decreases chars.len() - i,
    {
        if chars[i] == wanted {
            assert(text@[i as int] == wanted);
            return true;
        }
        i = i + 1;
    }
    false
}

fn lower_char(c: char) -> (r: char)
    ensures
        r == lower(c),
{
    if 'A' <= c && c <= 'Z' {
        (c as u8 + 32) as char
    } else {
        c
    }
}

/// Whether two strings agree when ASCII letters are taken without their case.
pub fn equal_ignoring_case(a: &str, b: &str) -> (r: bool)
    ensures
        r == same_ignoring_case(a@, b@),
{
    let x = chars_of(a);
    let y = chars_of(b);
    let ghost p = a@.map_values(|c: char| lower(c));
    let ghost q = b@.map_values(|c: char| lower(c));
    if x.len() != y.len() {
        assert(p.len() != q.len());
        return false;
    }
    let mut i: usize = 0;
    while i < x.len()
        invariant
            i <= x@.len(),
            x@.len() == y@.len(),
            x@ == a@,
            y@ == b@,
            p == a@.map_values(|c: char| lower(c)),
            q == b@.map_values(|c: char| lower(c)),
            forall|j: int| 0 <= j < i ==> p[j] == q[j],
        decreases x.len() - i,
    {
        if lower_char(x[i]) != lower_char(y[i]) {
            assert(p[i as int] != q[i as int]);
            return false;
        }
        i = i + 1;
    }
    assert(p =~= q);
    true
}

fn digit_char(value: u8) -> (r: char)
    requires
        value < 16,
    ensures
        r == digit(value as int),
{
    match value {
        0 => '0',
        1 => '1',
        2 => '2',
        3 => '3',
        4 => '4',
        5 => '5',
        6 => '6',
        7 => '7',
        8 => '8',
        9 => '9',
        10 => 'a',
        11 => 'b',
        12 => 'c',
        13 => 'd',
        14 => 'e',
        _ => 'f',
    }
}

/// A number in decimal.
pub fn number(n: u64) -> (r: String)
    ensures
        r@ == decimal(n as nat),
    decreases n,
{
    let mut r = if n < 10 {
        String::new()
    } else {
        number(n / 10)
    };
    r.push(digit_char((n % 10) as u8));
    assert(r@ =~= decimal(n as nat));
    r
}

/// The bytes as pairs of hexadecimal digits with a space between the pairs.
pub fn hex_dump(bytes: &[u8]) -> (r: String)
    ensures
        r@ == joined(bytes@.map_values(|b: u8| hex_pair(b)), " "@),
{
    let mut r = String::new();
    let ghost pairs = bytes@.map_values(|b: u8| hex_pair(b));
    let mut i: usize = 0;
    assert(pairs.take(0) =~= seq![]);
    while i < bytes.len()
        invariant
            i <= bytes@.len(),
            pairs == bytes@.map_values(|b: u8| hex_pair(b)),
            r@ == joined(pairs.take(i as int), " "@),
        decreases bytes.len() - i,
    {
        let ghost start = r@;
        if i > 0 {
            r.append(" ");
        }
        let byte: u8 = bytes[i];
        r.push(digit_char(byte / 16));
        r.push(digit_char(byte % 16));
        proof {
            assert(pairs.take(i + 1).drop_last() =~= pairs.take(i as int));
            assert(pairs.take(i + 1).last() == hex_pair(byte));
            if i > 0 {
                assert(r@ =~= start + " "@ + hex_pair(byte));
            } else {
                assert(r@ =~= hex_pair(byte));
            }
        }
        i = i + 1;
    }
    assert(pairs.take(i as int) =~= pairs);
    r
}

/// The strings of `parts` with `separator` between them.
pub fn join(parts: &Vec<String>, separator: &str) -> (r: String)
    ensures
        r@ == joined(views(parts@), separator@),
{
    let mut r = String::new();
    let ghost all = views(parts@);
    let mut i: usize = 0;
    assert(all.take(0) =~= seq![]);
    while i < parts.len()
        invariant
            i <= parts@.len(),
            all == views(parts@),
            r@ == joined(all.take(i as int), separator@),
        decreases parts.len() - i,
    {
        let ghost start = r@;
        if i > 0 {
            r.append(separator);
        }
        r.append(parts[i].as_str());
        proof {
            assert(all.take(i + 1).drop_last() =~= all.take(i as int));
            assert(all.take(i + 1).last() == parts@[i as int]@);
            if i == 0 {
                assert(r@ =~= parts@[i as int]@);
            }
        }
        i = i + 1;
    }
    assert(all.take(i as int) =~= all);
    r
}

/// There is always at least one piece.
pub proof fn lemma_pieces_nonempty(text: Seq<char>, separator: char)
    ensures
        pieces(text, separator).len() >= 1,
    decreases text.len(),
{
    if text.len() > 0 {
        lemma_pieces_nonempty(text.drop_last(), separator);
    }
}

/// A label with a text behind it.
pub open spec fn labelled(name: Seq<char>, text: Seq<char>) -> Seq<char> {
    name + ": "@ + text
}

/// A label with a text behind it.
pub fn label(name: &str, text: &str) -> (r: String)
    ensures
        r@ == labelled(name@, text@),
{
    let mut line = name.to_owned();
    line.append(": ");
    line.append(text);
    line
}

/// A copy of an optional string.
pub fn copy_text(value: &Option<String>) -> (r: Option<String>)
    ensures
        opt_view(r) == opt_view(*value),
{
    match value {
        Some(text) => Some(text.clone()),
        None => None,
    }
}

/// Split `text` at every `separator`.
pub fn split(text: &str, separator: char) -> (r: Vec<String>)
    ensures
        views(r@) == pieces(text@, separator),
        r@.len() >= 1,
{
    let chars = chars_of(text);
    let mut done: Vec<String> = Vec::new();
    let mut current = String::new();
    let mut i: usize = 0;
    proof {
        assert(chars@.take(0) =~= seq![]);
        assert(views(done@).push(current@) =~= pieces(chars@.take(0), separator));
    }
    while i < chars.len()
        invariant
            i <= chars@.len(),
            chars@ == text@,
            views(done@).push(current@) == pieces(chars@.take(i as int), separator),
        decreases chars.len() - i,
    {
        let c: char = chars[i];
        let ghost whole = chars@.take(i + 1);
        let ghost before = pieces(chars@.take(i as int), separator);
        proof {
            assert(whole.drop_last() =~= chars@.take(i as int));
            assert(whole.last() == c);
            assert(before.drop_last() =~= views(done@));
            assert(before.last() == current@);
        }
        if c == separator {
            let ghost had = done@;
            done.push(current);
            current = String::new();
            proof {
                assert(views(done@) =~= views(had).push(before.last()));
                assert(views(done@).push(current@) =~= before.push(seq![]));
            }
        } else {
            current.push(c);
            assert(views(done@).push(current@) =~= before.drop_last().push(before.last().push(c)));
        }
        i = i + 1;
    }
    let ghost had = done@;
    let ghost last = current@;
    done.push(current);
    proof {
        assert(chars@.take(i as int) =~= text@);
        assert(views(done@) =~= views(had).push(last));
    }
    done
}

/// `text` with every `from` replaced by `to`.
pub fn replace_char(text: &str, from: char, to: char) -> (r: String)
    ensures
        r@ == replaced(text@, from, to),
{
    let chars = chars_of(text);
    let mut r = String::new();
    let mut i: usize = 0;
    while i < chars.len()
        invariant
            i <= chars@.len(),
            chars@ == text@,
            r@ == replaced(text@, from, to).take(i as int),
        decreases chars.len() - i,
    {
        if chars[i] == from {
            r.push(to);
        } else {
            r.push(chars[i]);
        }
        i = i + 1;
        assert(r@ =~= replaced(text@, from, to).take(i as int));
    }
    assert(r@ =~= replaced(text@, from, to));
    r
}

fn push_spaces(text: &mut String, count: usize)
    ensures
        final(text)@ == old(text)@ + spaces(count as nat),
{
    let ghost start = text@;
    let mut i: usize = 0;
    assert(text@ =~= start + spaces(0));
    while i < count
        invariant
            i <= count,
            text@ == start + spaces(i as nat),
        decreases count - i,
    {
        text.push(' ');
        i = i + 1;
        assert(text@ =~= start + spaces(i as nat));
    }
}

/// `text` filled up with spaces on the right to `width` characters.
pub fn pad_right(text: &str, width: usize) -> (r: String)
    ensures
        r@ == padded_right(text@, width as nat),
{
    let mut r = text.to_owned();
    let len = chars_of(text).len();
    if len < width {
        push_spaces(&mut r, width - len);
    }
    r
}

/// `text` filled up with spaces on the left to `width` characters.
pub fn pad_left(text: &str, width: usize) -> (r: String)
    ensures
        r@ == padded_left(text@, width as nat),
{
    let mut r = String::new();
    let len = chars_of(text).len();
    if len < width {
        push_spaces(&mut r, width - len);
    }
    r.append(text);
    proof {
        if len < width {
            assert(r@ =~= padded_left(text@, width as nat));
        } else {
            assert(r@ =~= text@);
        }
    }
    r
}

/// The number that decimal digits write out.
pub open spec fn digits_value(text: Seq<char>) -> nat
    decreases text.len(),
{
    if text.len() == 0 {
        0
    } else {
        10 * digits_value(text.drop_last()) + (text.last() as nat - '0' as nat) as nat
    }
}

/// A number is written with decimal digits that read as it, none of them a leading zero.
pub proof fn decimal_reads_as_its_number(n: nat)
    ensures
        digits_value(decimal(n)) == n,
        decimal(n).len() >= 1,
        forall|i: int| 0 <= i < decimal(n).len() ==> '0' <= #[trigger] decimal(n)[i] <= '9',
        decimal(n)[0] == '0' ==> n == 0 && decimal(n).len() == 1,
    decreases n,
{
    if n < 10 {
        assert(decimal(n).drop_last() =~= seq![]);
        assert(digits_value(decimal(n).drop_last()) == 0);
    } else {
        decimal_reads_as_its_number(n / 10);
        let start = decimal(n / 10);
        assert(decimal(n).drop_last() =~= start);
        assert(decimal(n)[0] == start[0]);
        assert forall|i: int| 0 <= i < decimal(n).len() implies '0' <= #[trigger] decimal(n)[i]
            <= '9' by {
            if i < start.len() {
                assert(decimal(n)[i] == start[i]);
            }
        }
    }
}

/// The value of a hexadecimal digit in lower case.
pub open spec fn hex_value(c: char) -> int {
    if '0' <= c <= '9' {
        c as int - '0' as int
    } else {
        c as int - 'a' as int + 10
    }
}

/// A byte is written with two lowercase hexadecimal digits that read as it, the higher
/// first.
pub proof fn hex_pair_reads_as_its_byte(byte: u8)
    ensures
        hex_pair(byte).len() == 2,
        16 * hex_value(hex_pair(byte)[0]) + hex_value(hex_pair(byte)[1]) == byte,
        forall|i: int|
            0 <= i < 2 ==> ('0' <= #[trigger] hex_pair(byte)[i] <= '9' || 'a' <= hex_pair(byte)[i]
                <= 'f'),
{
}

/// A text of 128 bits in hexadecimal has 32 digits, each of them one in lower case.
pub proof fn hex_128_has_32_lowercase_digits(text: Seq<char>)
    ensures
        is_hex_128(text) <==> text.len() == 32 && forall|i: int|
            0 <= i < 32 ==> "0123456789abcdef"@.contains(#[trigger] text[i]),
{
    reveal_strlit("0123456789abcdef");
    let digits = "0123456789abcdef"@;
    assert forall|c: char| digits.contains(c) <==> ('0' <= c <= '9' || 'a' <= c <= 'f') by {
        if '0' <= c <= '9' {
            assert(digits[c as int - '0' as int] == c);
        } else if 'a' <= c <= 'f' {
            assert(digits[c as int - 'a' as int + 10] == c);
        } else if digits.contains(c) {
            let i = digits.index_of(c);
            assert(digits[i] == c);
        }
    }
}

/// Two runs of parts, neither of them empty, are joined as one: the separator stands
/// between them, and nowhere else. A part alone is joined as it is.
pub proof fn joined_runs_meet_at_a_separator(
    a: Seq<Seq<char>>,
    b: Seq<Seq<char>>,
    separator: Seq<char>,
)
    ensures
        a.len() > 0 && b.len() > 0 ==> joined(a + b, separator) == joined(a, separator) + separator
            + joined(b, separator),
        a.len() == 1 ==> joined(a, separator) == a[0],
        a.len() == 0 ==> joined(a, separator).len() == 0,
    decreases b.len(),
{
    if a.len() > 0 && b.len() > 0 {
        let all = a + b;
        assert(all.last() == b.last());
        assert(all.drop_last() =~= a + b.drop_last());
        if b.len() == 1 {
            assert(all.drop_last() =~= a);
        } else {
            joined_runs_meet_at_a_separator(a, b.drop_last(), separator);
            assert(joined(all, separator) =~= joined(a, separator) + separator + joined(
                b,
                separator,
            ));
        }
    }
}

/// Splitting and joining undo each other: the pieces of a text, with the separator between
/// them, are the text, and none of them has the separator in it.
pub proof fn pieces_make_up_the_text(text: Seq<char>, separator: char)
    ensures
        joined(pieces(text, separator), seq![separator]) == text,
        forall|i: int|
            0 <= i < pieces(text, separator).len() ==> !(#[trigger] pieces(
                text,
                separator,
            )[i]).contains(separator),
        pieces(text, separator).len() >= 1,
    decreases text.len(),
{
    let all = pieces(text, separator);
    let between = seq![separator];
    if text.len() == 0 {
        assert(joined(all, between) =~= text);
    } else {
        let start = text.drop_last();
        let before = pieces(start, separator);
        let c = text.last();
        pieces_make_up_the_text(start, separator);
        assert(text =~= start.push(c));
        if c == separator {
            assert(all.drop_last() =~= before);
            assert(joined(all, between) =~= start.push(c));
            assert forall|i: int| 0 <= i < all.len() implies !(#[trigger] all[i]).contains(
                separator,
            ) by {
                if i < before.len() {
                    assert(all[i] == before[i]);
                }
            }
        } else {
            let last = before.last();
            assert(all.drop_last() =~= before.drop_last());
            assert(all.last() == last.push(c));
            assert(before =~= before.drop_last().push(last));
            if before.len() == 1 {
                assert(joined(all, between) =~= start.push(c));
            } else {
                assert(joined(all, between) =~= joined(before.drop_last(), between) + between
                    + last.push(c));
                assert(joined(all, between) =~= start.push(c));
            }
            assert forall|i: int| 0 <= i < all.len() implies !(#[trigger] all[i]).contains(
                separator,
            ) by {
                if i < before.len() - 1 {
                    assert(all[i] == before[i]);
                } else {
                    assert(!before[before.len() - 1].contains(separator));
                    let piece = last.push(c);
                    if piece.contains(separator) {
                        let k = piece.index_of(separator);
                        assert(last[k] == separator);
                    }
                }
            }
        }
    }
}

/// Parts without a separator in them are the pieces of the text that they are joined to.
pub proof fn joined_parts_are_the_pieces(parts: Seq<Seq<char>>, separator: char)
    requires
        parts.len() > 0,
        forall|i: int| 0 <= i < parts.len() ==> !(#[trigger] parts[i]).contains(separator),
    ensures
        pieces(joined(parts, seq![separator]), separator) == parts,
    decreases parts.len(), parts.last().len(),
{
    let between = seq![separator];
    let text = joined(parts, between);
    let last = parts.last();
    let rest = parts.drop_last();
    if last.len() > 0 {
        let shorter = rest.push(last.drop_last());
        assert forall|i: int| 0 <= i < shorter.len() implies !(#[trigger] shorter[i]).contains(
            separator,
        ) by {
            if i < rest.len() {
                assert(shorter[i] == parts[i]);
            } else if last.drop_last().contains(separator) {
                let k = last.drop_last().index_of(separator);
                assert(last[k] == separator);
            }
        }
        joined_parts_are_the_pieces(shorter, separator);
        assert(shorter.drop_last() =~= rest);
        assert(joined(shorter, between) =~= text.drop_last());
        assert(text.last() == last.last());
        assert(last.contains(last.last()));
        assert(parts[parts.len() - 1] == last);
        assert(last.drop_last().push(last.last()) =~= last);
        assert(rest.push(last) =~= parts);
        assert(pieces(text, separator) =~= parts);
    } else if parts.len() > 1 {
        assert forall|i: int| 0 <= i < rest.len() implies !(#[trigger] rest[i]).contains(
            separator,
        ) by {
            assert(rest[i] == parts[i]);
        }
        joined_parts_are_the_pieces(rest, separator);
        assert(text.drop_last() =~= joined(rest, between));
        assert(last =~= seq![]);
        assert(pieces(text, separator) =~= parts);
    } else {
        assert(text =~= seq![]);
        assert(pieces(text, separator) =~= parts);
    }
}

/// Replacing a character changes that one and no other.
pub proof fn only_the_wanted_character_is_replaced(text: Seq<char>, from: char, to: char)
    ensures
        replaced(text, from, to).len() == text.len(),
        forall|i: int|
            0 <= i < text.len() ==> (text[i] == from ==> #[trigger] replaced(text, from, to)[i]
                == to),
        forall|i: int|
            0 <= i < text.len() ==> (text[i] != from ==> #[trigger] replaced(text, from, to)[i]
                == text[i]),
        from != to ==> !replaced(text, from, to).contains(from),
{
}

/// A text that is filled up has the width, or its own length if that is more; it stands at
/// one end, and there are only spaces at the other.
pub proof fn padding_keeps_the_text(text: Seq<char>, width: nat)
    ensures
        ({
            let right = padded_right(text, width);
            let left = padded_left(text, width);
            &&& right.len() == if text.len() < width {
                width
            } else {
                text.len()
            }
            &&& left.len() == right.len()
            &&& right.take(text.len() as int) == text
            &&& forall|i: int| text.len() <= i < right.len() ==> #[trigger] right[i] == ' '
            &&& left.skip(left.len() - text.len()) == text
            &&& forall|i: int| 0 <= i < left.len() - text.len() ==> #[trigger] left[i] == ' '
        }),
{
    let right = padded_right(text, width);
    let left = padded_left(text, width);
    assert(right.take(text.len() as int) =~= text);
    assert(left.skip(left.len() - text.len()) =~= text);
}

/// Whether two characters are the same, or the two cases of an ASCII letter.
pub open spec fn case_of(a: char, b: char) -> bool {
    ||| a == b
    ||| 'A' <= a <= 'Z' && b as int == a as int + 32
    ||| 'A' <= b <= 'Z' && a as int == b as int + 32
}

/// Two strings agree without case exactly if they are as long, and each character of one
/// is that of the other or the other case of it.
pub proof fn ignoring_case_ignores_only_case(a: Seq<char>, b: Seq<char>)
    ensures
        same_ignoring_case(a, b) <==> a.len() == b.len() && forall|i: int|
            0 <= i < a.len() ==> case_of(#[trigger] a[i], b[i]),
{
    let p = a.map_values(|c: char| lower(c));
    let q = b.map_values(|c: char| lower(c));
    assert forall|c: char, d: char| #[trigger] case_of(c, d) == (lower(c) == lower(d)) by {
        lemma_lower(c);
        lemma_lower(d);
    }
    if same_ignoring_case(a, b) {
        assert(p == q);
        assert(a.len() == p.len() && b.len() == q.len());
        assert forall|i: int| 0 <= i < a.len() implies case_of(#[trigger] a[i], b[i]) by {
            assert(p[i] == lower(a[i]));
            assert(q[i] == lower(b[i]));
            assert(case_of(a[i], b[i]) == (lower(a[i]) == lower(b[i])));
        }
    }
    if a.len() == b.len() && forall|i: int| 0 <= i < a.len() ==> case_of(#[trigger] a[i], b[i]) {
        assert forall|i: int| 0 <= i < p.len() implies p[i] == q[i] by {
            assert(case_of(a[i], b[i]));
        }
        assert(p =~= q);
    }
}

proof fn lemma_lower(c: char)
    ensures
        lower(c) as int == if 'A' <= c <= 'Z' {
            c as int + 32
        } else {
            c as int
        },
{
    if 'A' <= c <= 'Z' {
        assert(c as u8 == c as int) by {
            let code = c as u32;
            assert(code <= 90);
        }
    }
}

/// Whether the first difference of two byte sequences is at a place: they agree before it,
/// and there the first has ended or has the smaller byte.
pub open spec fn smaller_at(a: Seq<u8>, b: Seq<u8>, at: int) -> bool {
    &&& 0 <= at <= a.len()
    &&& at < b.len()
    &&& a.take(at) == b.take(at)
    &&& at < a.len() ==> a[at] < b[at]
}

/// One string stands before another exactly if at the first difference of their UTF-8
/// bytes it has ended or has the smaller byte.
pub proof fn strings_are_ordered_by_the_first_difference(a: Seq<char>, b: Seq<char>)
    ensures
        before(a, b) <==> exists|at: int| smaller_at(encode_utf8(a), encode_utf8(b), at),
{
    lemma_first_difference(encode_utf8(a), encode_utf8(b));
}

proof fn lemma_first_difference(a: Seq<u8>, b: Seq<u8>)
    ensures
        bytes_before(a, b) <==> exists|at: int| smaller_at(a, b, at),
    decreases a.len(),
{
    if b.len() == 0 {
    } else if a.len() == 0 {
        assert(a.take(0) =~= b.take(0));
        assert(smaller_at(a, b, 0));
    } else if a[0] != b[0] {
        if a[0] < b[0] {
            assert(a.take(0) =~= b.take(0));
            assert(smaller_at(a, b, 0));
        }
        assert forall|at: int| smaller_at(a, b, at) implies at == 0 by {
            if at > 0 {
                assert(a.take(at)[0] == b.take(at)[0]);
            }
        }
    } else {
        let x = a.drop_first();
        let y = b.drop_first();
        lemma_first_difference(x, y);
        if bytes_before(x, y) {
            let at = choose|at: int| smaller_at(x, y, at);
            assert forall|i: int| 0 <= i < at + 1 implies a[i] == b[i] by {
                if i > 0 {
                    assert(x.take(at)[i - 1] == y.take(at)[i - 1]);
                }
            }
            assert(a.take(at + 1) =~= b.take(at + 1));
            assert(smaller_at(a, b, at + 1));
        }
        if exists|at: int| smaller_at(a, b, at) {
            let at = choose|at: int| smaller_at(a, b, at);
            assert(at > 0);
            assert forall|i: int| 0 <= i < at - 1 implies x[i] == y[i] by {
                assert(a.take(at)[i + 1] == b.take(at)[i + 1]);
            }
            assert(x.take(at - 1) =~= y.take(at - 1));
            assert(smaller_at(x, y, at - 1));
        }
    }
}

/// The pieces of two texts with a separator between them are those of the one and then
/// those of the other. A text without the separator is a single piece.
pub proof fn pieces_of_texts_that_meet(a: Seq<char>, b: Seq<char>, separator: char)
    ensures
        pieces(a + seq![separator] + b, separator) == pieces(a, separator) + pieces(b, separator),
        !a.contains(separator) ==> pieces(a, separator) == seq![a],
    decreases b.len(),
{
    let text = a + seq![separator] + b;
    lemma_pieces_nonempty(b, separator);
    if !a.contains(separator) {
        assert(joined(seq![a], seq![separator]) == a);
        joined_parts_are_the_pieces(seq![a], separator);
    }
    if b.len() == 0 {
        assert(text.drop_last() =~= a);
        assert(pieces(b, separator) =~= seq![seq![]]);
        assert(pieces(text, separator) =~= pieces(a, separator) + pieces(b, separator));
    } else {
        let rest = b.drop_last();
        assert(text.drop_last() =~= a + seq![separator] + rest);
        assert(text.last() == b.last());
        pieces_of_texts_that_meet(a, rest, separator);
        lemma_pieces_nonempty(rest, separator);
        let p = pieces(a, separator);
        let q = pieces(rest, separator);
        assert((p + q).last() == q.last());
        assert((p + q).drop_last() =~= p + q.drop_last());
        assert(pieces(text, separator) =~= p + pieces(b, separator));
    }
}

/// A dump of bytes has two digits for each, which read as it, and a space between.
pub proof fn dump_reads_as_the_bytes(bytes: Seq<u8>, index: int)
    requires
        0 <= index < bytes.len(),
    ensures
        ({
            let text = joined(bytes.map_values(|b: u8| hex_pair(b)), " "@);
            &&& text.len() == 3 * bytes.len() - 1
            &&& 16 * hex_value(text[3 * index]) + hex_value(text[3 * index + 1]) == bytes[index]
            &&& index < bytes.len() - 1 ==> text[3 * index + 2] == ' '
        }),
    decreases bytes.len(),
{
    reveal_strlit(" ");
    let pairs = bytes.map_values(|b: u8| hex_pair(b));
    let text = joined(pairs, " "@);
    hex_pair_reads_as_its_byte(bytes[index]);
    if bytes.len() > 1 {
        let before = bytes.drop_last();
        assert(before.map_values(|b: u8| hex_pair(b)) =~= pairs.drop_last());
        let k = if index < before.len() {
            index
        } else {
            index - 1
        };
        dump_reads_as_the_bytes(before, k);
        assert(pairs.last() == hex_pair(bytes.last()));
        if index < before.len() {
            assert(before[index] == bytes[index]);
        } else {
            assert(bytes[index] == bytes.last());
        }
    } else {
        assert(pairs[0] == hex_pair(bytes[0]));
    }
}

/// A list of strings is viewed string by string, and an optional string as one that is
/// there or not.
pub proof fn strings_are_viewed_as_they_are(parts: Seq<String>, text: String, index: int)
    requires
        0 <= index < parts.len(),
    ensures
        views(parts).len() == parts.len(),
        views(parts)[index] == parts[index]@,
        opt_view(Some(text)) == Some(text@),
        opt_view(None) is None,
        labelled(text@, parts[index]@) == text@ + ": "@ + parts[index]@,
        has_prefix(text@ + parts[index]@, text@),
        has_prefix(parts[index]@, text@) ==> exists|rest: Seq<char>|
            parts[index]@ == #[trigger] (text@ + rest),
{
    assert((text@ + parts[index]@).take(text@.len() as int) =~= text@);
    if has_prefix(parts[index]@, text@) {
        let rest = parts[index]@.skip(text@.len() as int);
        assert(parts[index]@ =~= text@ + rest);
    }
}

} // verus!
