//! Text handling shared by the decoders: comparison, trimming, splitting and
//! the reading of decimal and hexadecimal numbers.

use vstd::prelude::*;
use vstd::string::StringSliceAdditionalSpecFns;
use vstd::utf8::encode_utf8_decode_utf8;

verus! {

/// Whether two strings hold the same characters.
pub fn same_text(a: &str, b: &str) -> (same: bool)
    ensures
        same == (a@ == b@),
{
    let x = a.as_bytes();
    let y = b.as_bytes();
    proof {
        encode_utf8_decode_utf8(a@);
        encode_utf8_decode_utf8(b@);
    }
    if x.len() != y.len() {
        return false;
    }
    let mut i: usize = 0;
    while i < x.len()
        invariant
            i <= x.len(),
            x.len() == y.len(),
            x@ == a.spec_bytes(),
            y@ == b.spec_bytes(),
            forall|j: int| 0 <= j < i ==> x@[j] == y@[j],
        decreases x.len() - i,
    {
        if x[i] != y[i] {
            return false;
        }
        i += 1;
    }
    assert(x@ =~= y@);
    true
}

/// The characters of a string, in order.
pub fn chars_of(s: &str) -> (chars: Vec<char>)
    ensures
        chars@ == s@,
{
    let mut chars: Vec<char> = Vec::new();
    for c in it: s.chars()
        invariant
            it.seq() == s@,
            chars@ == s@.take(it.index() as int),
    {
        chars.push(c);
        assert(s@.take(it.index() + 1) =~= s@.take(it.index() as int).push(c));
    }
    assert(s@.take(s@.len() as int) =~= s@);
    chars
}

/// White space as Unicode defines it, which is what trimming removes.
pub open spec fn is_space(c: char) -> bool {
    let n = c as u32;
    (0x09 <= n <= 0x0D) || n == 0x20 || n == 0x85 || n == 0xA0 || n == 0x1680 || (0x2000 <= n
        <= 0x200A) || n == 0x2028 || n == 0x2029 || n == 0x202F || n == 0x205F || n == 0x3000
}

/// Executable form of [`is_space`].
pub fn space(c: char) -> (yes: bool)
    ensures
        yes == is_space(c),
{
    let n: u32 = c as u32;
    (0x09 <= n && n <= 0x0D) || n == 0x20 || n == 0x85 || n == 0xA0 || n == 0x1680 || (0x2000 <= n
        && n <= 0x200A) || n == 0x2028 || n == 0x2029 || n == 0x202F || n == 0x205F || n == 0x3000
}

/// The text without its leading white space.
pub open spec fn trim_start(s: Seq<char>) -> Seq<char>
    decreases s.len(),
{
    if s.len() > 0 && is_space(s[0]) {
        trim_start(s.skip(1))
    } else {
        s
    }
}

/// The text without its trailing white space.
pub open spec fn trim_end(s: Seq<char>) -> Seq<char>
    decreases s.len(),
{
    if s.len() > 0 && is_space(s.last()) {
        trim_end(s.drop_last())
    } else {
        s
    }
}

/// The text without the white space around it.
pub open spec fn trim(s: Seq<char>) -> Seq<char> {
    trim_end(trim_start(s))
}

/// Finds the part of `chars[from..to]` that is left after trimming: the
/// result `(a, b)` bounds it.
pub fn trim_range(chars: &Vec<char>, from: usize, to: usize) -> (range: (usize, usize))
    requires
        from <= to <= chars.len(),
    ensures
        from <= range.0 <= range.1 <= to,
        chars@.subrange(range.0 as int, range.1 as int) == trim(
            chars@.subrange(from as int, to as int),
        ),
{
    let mut a: usize = from;
    while a < to && space(chars[a])
        invariant
            from <= a <= to <= chars.len(),
            trim_start(chars@.subrange(a as int, to as int)) == trim_start(
                chars@.subrange(from as int, to as int),
            ),
        decreases to - a,
    {
        assert(chars@.subrange(a as int, to as int).skip(1) =~= chars@.subrange(
            a + 1,
            to as int,
        ));
        a += 1;
    }
    let mut b: usize = to;
    while a < b && space(chars[b - 1])
        invariant
            a <= b <= to <= chars.len(),
            trim_end(chars@.subrange(a as int, b as int)) == trim_end(
                chars@.subrange(a as int, to as int),
            ),
        decreases b - a,
    {
        assert(chars@.subrange(a as int, b as int).drop_last() =~= chars@.subrange(
            a as int,
            b - 1,
        ));
        b -= 1;
    }
    (a, b)
}

/// Whether the character is one of `0` to `9`.
pub open spec fn is_digit(c: char) -> bool {
    48 <= c as u32 <= 57
}

/// What a decimal digit stands for; zero for any other character.
pub open spec fn digit(c: char) -> nat {
    if is_digit(c) {
        (c as u32 - 48) as nat
    } else {
        0
    }
}

/// Whether the text is made of decimal digits only.
pub open spec fn all_digits(s: Seq<char>) -> bool {
    forall|i: int| 0 <= i < s.len() ==> is_digit(#[trigger] s[i])
}

/// The number that a run of decimal digits writes.
pub open spec fn digits_value(s: Seq<char>) -> nat
    decreases s.len(),
{
    if s.len() == 0 {
        0
    } else {
        digits_value(s.drop_last()) * 10 + digit(s.last())
    }
}

/// A beginning of a run of digits writes no larger number than the whole.
pub proof fn lemma_digits_value_grows(s: Seq<char>, k: int)
    requires
        0 <= k <= s.len(),
    ensures
        digits_value(s.take(k)) <= digits_value(s),
    decreases s.len(),
{
    if k == s.len() {
        assert(s.take(k) =~= s);
    } else {
        lemma_digits_value_grows(s.drop_last(), k);
        assert(s.drop_last().take(k) =~= s.take(k));
    }
}

/// The number written by a non-empty run of digits, if it is at most `limit`.
pub open spec fn bounded_digits(s: Seq<char>, limit: nat) -> Option<nat> {
    if s.len() > 0 && all_digits(s) && digits_value(s) <= limit {
        Some(digits_value(s))
    } else {
        None
    }
}

/// Reads `chars[from..to]` as a run of decimal digits that writes a number
/// of at most `limit`.
pub fn read_digits(chars: &Vec<char>, from: usize, to: usize, limit: u64) -> (number: Option<u64>)
    requires
        from <= to <= chars.len(),
        limit <= 0xFFFF_FFFF_FFFF,
    ensures
        match bounded_digits(chars@.subrange(from as int, to as int), limit as nat) {
            Some(n) => number == Some(n as u64),
            None => number is None,
        },
{
    if from == to {
        return None;
    }
    let ghost body = chars@.subrange(from as int, to as int);
    let mut value: u64 = 0;
    let mut i: usize = from;
    while i < to
        invariant
            from <= i <= to <= chars.len(),
            limit <= 0xFFFF_FFFF_FFFF,
            body == chars@.subrange(from as int, to as int),
            all_digits(body.take(i - from)),
            value == digits_value(body.take(i - from)),
            value <= limit,
        decreases to - i,
    {
        let n: u32 = chars[i] as u32;
        if n < 48 || n > 57 {
            assert(!is_digit(body[i - from]));
            return None;
        }
        let ghost before = body.take(i - from);
        let ghost now = body.take(i - from + 1);
        assert(now.drop_last() =~= before);
        assert(now.last() == chars@[i as int]);
        value = value * 10 + (n - 48) as u64;
        assert(value == digits_value(now));
        assert(all_digits(now)) by {
            assert forall|j: int| 0 <= j < now.len() implies is_digit(#[trigger] now[j]) by {
                if j < before.len() {
                    assert(now[j] == before[j]);
                }
            }
        }
        if value > limit {
            proof {
                lemma_digits_value_grows(body, i - from + 1);
            }
            return None;
        }
        i += 1;
    }
    assert(body.take(to - from) =~= body);
    Some(value)
}

/// The digits of an unsigned number: the text without a leading `+`.
pub open spec fn unsigned_digits(s: Seq<char>) -> Seq<char> {
    if s.len() > 0 && s[0] == '+' {
        s.skip(1)
    } else {
        s
    }
}

/// The unsigned 32-bit number that the text writes in decimal: an optional
/// `+`, then at least one digit and nothing else, of a value that fits.
pub open spec fn u32_of(s: Seq<char>) -> Option<u32> {
    match bounded_digits(unsigned_digits(s), u32::MAX as nat) {
        Some(n) => Some(n as u32),
        None => None,
    }
}

/// The signed 32-bit number that the text writes in decimal: an optional
/// `+` or `-`, then at least one digit and nothing else, of a value that fits.
pub open spec fn i32_of(s: Seq<char>) -> Option<i32> {
    if s.len() > 0 && s[0] == '-' {
        match bounded_digits(s.skip(1), 0x8000_0000) {
            Some(n) => Some((-(n as int)) as i32),
            None => None,
        }
    } else {
        match bounded_digits(unsigned_digits(s), i32::MAX as nat) {
            Some(n) => Some(n as i32),
            None => None,
        }
    }
}

/// Reads `chars[from..to]` as an unsigned 32-bit decimal number.
pub fn parse_u32_in(chars: &Vec<char>, from: usize, to: usize) -> (number: Option<u32>)
    requires
        from <= to <= chars.len(),
    ensures
        number == u32_of(chars@.subrange(from as int, to as int)),
{
    let ghost s = chars@.subrange(from as int, to as int);
    let mut start: usize = from;
    if from < to && chars[from] == '+' {
        start = from + 1;
    }
    assert(chars@.subrange(start as int, to as int) =~= unsigned_digits(s));
    match read_digits(chars, start, to, 0xFFFF_FFFF) {
        Some(n) => Some(n as u32),
        None => None,
    }
}

/// Reads a whole text as an unsigned 32-bit decimal number.
pub fn parse_u32(text: &str) -> (number: Option<u32>)
    ensures
        number == u32_of(text@),
{
    let chars = chars_of(text);
    assert(chars@.subrange(0, chars@.len() as int) =~= chars@);
    parse_u32_in(&chars, 0, chars.len())
}

/// Reads a whole text as a signed 32-bit decimal number.
pub fn parse_i32(text: &str) -> (number: Option<i32>)
    ensures
        number == i32_of(text@),
{
    let chars = chars_of(text);
    let len = chars.len();
    if len > 0 && chars[0] == '-' {
        assert(chars@.subrange(1, len as int) =~= chars@.skip(1));
        match read_digits(&chars, 1, len, 0x8000_0000) {
            Some(n) => {
                if n == 0x8000_0000 {
                    Some(i32::MIN)
                } else {
                    Some(-(n as i32))
                }
            },
            None => None,
        }
    } else {
        let mut start: usize = 0;
        if len > 0 && chars[0] == '+' {
            start = 1;
        }
        assert(chars@.subrange(start as int, len as int) =~= unsigned_digits(chars@));
        match read_digits(&chars, start, len, 0x7FFF_FFFF) {
            Some(n) => Some(n as i32),
            None => None,
        }
    }
}

/// What a hexadecimal digit stands for, if the character is one.
pub open spec fn hex_digit(c: char) -> Option<u8> {
    let n = c as u32;
    if 48 <= n <= 57 {
        Some((n - 48) as u8)
    } else if 65 <= n <= 70 {
        Some((n - 55) as u8)
    } else if 97 <= n <= 102 {
        Some((n - 87) as u8)
    } else {
        None
    }
}

/// The byte that two hexadecimal digits write, if both are digits.
pub open spec fn hex_byte(high: char, low: char) -> Option<u8> {
    match (hex_digit(high), hex_digit(low)) {
        (Some(h), Some(l)) => Some((h * 16 + l) as u8),
        _ => None,
    }
}

/// Executable form of [`hex_digit`].
pub fn read_hex_digit(c: char) -> (value: Option<u8>)
    ensures
        value == hex_digit(c),
{
    let n: u32 = c as u32;
    if 48 <= n && n <= 57 {
        Some((n - 48) as u8)
    } else if 65 <= n && n <= 70 {
        Some((n - 55) as u8)
    } else if 97 <= n && n <= 102 {
        Some((n - 87) as u8)
    } else {
        None
    }
}

/// Executable form of [`hex_byte`].
pub fn read_hex_byte(high: char, low: char) -> (value: Option<u8>)
    ensures
        value == hex_byte(high, low),
{
    match (read_hex_digit(high), read_hex_digit(low)) {
        (Some(h), Some(l)) => Some(h * 16 + l),
        _ => None,
    }
}

/// The place of the first separator in a text, or the text's length if it
/// has none.
pub open spec fn first_of(s: Seq<char>, separator: char) -> int
    decreases s.len(),
{
    if s.len() == 0 || s[0] == separator {
        0
    } else {
        1 + first_of(s.skip(1), separator)
    }
}

/// The pieces into which the separators cut a text. A text without a
/// separator is one piece; the empty text is one empty piece.
pub open spec fn split(s: Seq<char>, separator: char) -> Seq<Seq<char>>
    decreases s.len(),
{
    let k = first_of(s, separator);
    if k < 0 || k >= s.len() {
        seq![s]
    } else {
        seq![s.take(k)] + split(s.skip(k + 1), separator)
    }
}

/// Finds the end of the piece of `chars[from..to]` that starts at `from`:
/// the place of the first separator, or `to`.
pub fn piece_end(chars: &Vec<char>, from: usize, to: usize, separator: char) -> (end: usize)
    requires
        from <= to <= chars.len(),
    ensures
        from <= end <= to,
        end - from == first_of(chars@.subrange(from as int, to as int), separator),
{
    let mut end: usize = from;
    let ghost s = chars@.subrange(from as int, to as int);
    assert(s.skip(0) =~= s);
    while end < to && chars[end] != separator
        invariant
            from <= end <= to <= chars.len(),
            s == chars@.subrange(from as int, to as int),
            first_of(s, separator) == (end - from) + first_of(s.skip(end - from), separator),
        decreases to - end,
    {
        assert(s.skip(end - from).skip(1) =~= s.skip(end - from + 1));
        end += 1;
    }
    end
}

/// The pieces of a list of ranges of `chars`.
pub open spec fn pieces_of(chars: Seq<char>, ranges: Seq<(usize, usize)>) -> Seq<Seq<char>> {
    Seq::new(ranges.len(), |i: int| chars.subrange(ranges[i].0 as int, ranges[i].1 as int))
}

/// Cuts `chars[from..to]` at every separator, and gives the range of each
/// piece.
pub fn split_ranges(chars: &Vec<char>, from: usize, to: usize, separator: char) -> (ranges: Vec<
    (usize, usize),
>)
    requires
        from <= to <= chars.len(),
    ensures
        pieces_of(chars@, ranges@) == split(chars@.subrange(from as int, to as int), separator),
        forall|i: int|
            0 <= i < ranges@.len() ==> from <= (#[trigger] ranges@[i]).0 <= ranges@[i].1 <= to,
{
    let mut ranges: Vec<(usize, usize)> = Vec::new();
    let mut start: usize = from;
    assert(pieces_of(chars@, ranges@) =~= Seq::<Seq<char>>::empty());
    loop
        invariant
            from <= start <= to <= chars.len(),
            forall|i: int|
                0 <= i < ranges@.len() ==> from <= (#[trigger] ranges@[i]).0 <= ranges@[i].1 <= to,
            pieces_of(chars@, ranges@) + split(chars@.subrange(start as int, to as int), separator)
                == split(chars@.subrange(from as int, to as int), separator),
        decreases to - start,
    {
        let ghost tail = chars@.subrange(start as int, to as int);
        let ghost before = pieces_of(chars@, ranges@);
        let end = piece_end(chars, start, to, separator);
        ranges.push((start, end));
        assert(tail.take(end - start) =~= chars@.subrange(start as int, end as int));
        if end >= to {
            assert(tail.take(end - start) =~= tail);
            assert(pieces_of(chars@, ranges@) =~= before + seq![tail]);
            return ranges;
        }
        assert(tail.skip(end - start + 1) =~= chars@.subrange(end + 1, to as int));
        assert(pieces_of(chars@, ranges@) =~= before + seq![tail.take(end - start)]);
        assert(pieces_of(chars@, ranges@) + split(chars@.subrange(end + 1, to as int), separator)
            =~= before + split(tail, separator));
        start = end + 1;
    }
}

} // verus!
