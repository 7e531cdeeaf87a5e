//! Strings as sequences of characters.

use vstd::prelude::*;

verus! {

/// The characters of `s`, in order.
pub fn chars_of(s: &str) -> (chars: Vec<char>)
    ensures
        chars@ == s@,
{
    let mut chars: Vec<char> = Vec::new();
    for c in it: s.chars()
        invariant
            it.seq() == s@,
            chars@ == it.seq().take(it.index() as int),
    {
        assert(it.seq().take(it.index() + 1) == it.seq().take(it.index() as int).push(c));
        chars.push(c);
    }
    assert(chars@ == s@.take(s@.len() as int));
    chars
}

/// `Iterator::collect` into a `String`: the string has exactly the
/// characters it was given, in their order.
#[verifier::external_body]
pub(crate) fn string_of(chars: &Vec<char>) -> (s: String)
    ensures
        s@ == chars@,
{
    chars.iter().collect()
}

/// Whether two strings hold the same characters.
pub fn same_text(a: &str, b: &str) -> (same: bool)
    ensures
        same == (a@ == b@),
{
    let x: String = a.to_owned();
    let y: String = b.to_owned();
    x == y
}

/// Whether two vectors hold the same characters.
pub fn same_chars(a: &Vec<char>, b: &Vec<char>) -> (same: bool)
    ensures
        same == (a@ == b@),
{
    if a.len() != b.len() {
        return false;
    }
    let mut i: usize = 0;
    while i < a.len()
        invariant
            i <= a@.len(),
            a@.len() == b@.len(),
            a@.take(i as int) == b@.take(i as int),
        decreases a@.len() - i,
    {
        if a[i] != b[i] {
            return false;
        }
        assert(a@.take(i + 1) == a@.take(i as int).push(a@[i as int]));
        assert(b@.take(i + 1) == b@.take(i as int).push(b@[i as int]));
        i = i + 1;
    }
    assert(a@ == a@.take(a@.len() as int));
    assert(b@ == b@.take(b@.len() as int));
    true
}

/// The characters of `v` from `from` up to `to`.
pub fn slice_of(v: &Vec<char>, from: usize, to: usize) -> (part: Vec<char>)
    requires
        from <= to <= v@.len(),
    ensures
        part@ == v@.subrange(from as int, to as int),
{
    let mut part: Vec<char> = Vec::new();
    let mut i: usize = from;
    while i < to
        invariant
            from <= i <= to <= v@.len(),
            part@ == v@.subrange(from as int, i as int),
        decreases to - i,
    {
        part.push(v[i]);
        assert(v@.subrange(from as int, i + 1) == v@.subrange(from as int, i as int).push(
            v@[i as int],
        ));
        i = i + 1;
    }
    part
}

/// The position of the first `c` in `s` at or after `from`, or the length
/// of `s` where there is none.
pub open spec fn find_char(s: Seq<char>, c: char, from: int) -> int
    decreases s.len() - from,
{
    if from >= s.len() {
        s.len() as int
    } else if s[from] == c {
        from
    } else {
        find_char(s, c, from + 1)
    }
}

/// What `find_char` finds lies between `from` and the end, is a `c` where
/// it lies before the end, and no `c` lies before it.
pub proof fn lemma_find_char(s: Seq<char>, c: char, from: int)
    requires
        0 <= from <= s.len(),
    ensures
        from <= find_char(s, c, from) <= s.len(),
        find_char(s, c, from) < s.len() ==> s[find_char(s, c, from)] == c,
        forall|i: int| from <= i < find_char(s, c, from) ==> s[i] != c,
    decreases s.len() - from,
{
    if from < s.len() && s[from] != c {
        lemma_find_char(s, c, from + 1);
    }
}

/// Looking for a character in what follows position `k` is looking for it
/// from `k` on.
pub proof fn lemma_find_char_skip(s: Seq<char>, c: char, k: int, from: int)
    requires
        0 <= k <= s.len(),
        0 <= from <= s.len() - k,
    ensures
        find_char(s.skip(k), c, from) == find_char(s, c, k + from) - k,
    decreases s.len() - k - from,
{
    if from < s.len() - k && s[k + from] != c {
        lemma_find_char_skip(s, c, k, from + 1);
    }
}

/// The position of the first `c` in `v` at or after `from`, or the length
/// of `v`.
pub fn position_of(v: &Vec<char>, c: char, from: usize) -> (at: usize)
    requires
        from <= v@.len(),
    ensures
        at == find_char(v@, c, from as int),
        from <= at <= v@.len(),
{
    let mut i: usize = from;
    while i < v.len() && v[i] != c
        invariant
            from <= i <= v@.len(),
            find_char(v@, c, from as int) == find_char(v@, c, i as int),
        decreases v@.len() - i,
    {
        i = i + 1;
    }
    i
}

/// Whether `needle` occurs in `hay` at position `at`.
pub open spec fn occurs_at(hay: Seq<char>, needle: Seq<char>, at: int) -> bool {
    0 <= at && at + needle.len() <= hay.len() && hay.subrange(at, at + needle.len()) == needle
}

/// Whether `needle` occurs somewhere in `hay`; the empty text occurs in
/// every text.
pub open spec fn contains_text(hay: Seq<char>, needle: Seq<char>) -> bool {
    exists|at: int| occurs_at(hay, needle, at)
}

fn matches_at(hay: &Vec<char>, needle: &Vec<char>, at: usize) -> (found: bool)
    requires
        at + needle@.len() <= hay@.len(),
    ensures
        found == occurs_at(hay@, needle@, at as int),
{
    assert(hay@.len() == hay.len());
    let mut j: usize = 0;
    while j < needle.len()
        invariant
            j <= needle@.len(),
            at + needle@.len() <= hay@.len() <= usize::MAX,
            hay@.subrange(at as int, at + j) == needle@.take(j as int),
        decreases needle@.len() - j,
    {
        if hay[at + j] != needle[j] {
            assert(hay@.subrange(at as int, at + needle@.len())[j as int] != needle@[j as int]);
            return false;
        }
        assert(hay@.subrange(at as int, at + j + 1) == hay@.subrange(at as int, at + j).push(
            hay@[at + j],
        ));
        assert(needle@.take(j + 1) == needle@.take(j as int).push(needle@[j as int]));
        j = j + 1;
    }
    assert(needle@.take(needle@.len() as int) == needle@);
    true
}

/// Whether `needle` occurs somewhere in `hay`.
pub fn contains_chars(hay: &Vec<char>, needle: &Vec<char>) -> (found: bool)
    ensures
        found == contains_text(hay@, needle@),
{
    if needle.len() > hay.len() {
        return false;
    }
    let last: usize = hay.len() - needle.len();
    let mut at: usize = 0;
    loop
        invariant
            at <= last,
            last == hay@.len() - needle@.len(),
            forall|k: int| 0 <= k < at ==> !occurs_at(hay@, needle@, k),
        decreases last - at,
    {
        if matches_at(hay, needle, at) {
            return true;
        }
        if at == last {
            return false;
        }
        at = at + 1;
    }
}

/// Whether `c` is one of the ten decimal digits.
pub open spec fn is_digit(c: char) -> bool {
    '0' <= c <= '9'
}

/// The number that the decimal digits `digits` write.
pub open spec fn decimal_value(digits: Seq<char>) -> int
    decreases digits.len(),
{
    if digits.len() == 0 {
        0
    } else {
        10 * decimal_value(digits.drop_last()) + (digits.last() as int - '0' as int)
    }
}

/// What remains of a number's text once an optional leading plus sign is
/// taken off.
pub open spec fn unsigned_body(s: Seq<char>) -> Seq<char> {
    if s.len() > 0 && s[0] == '+' {
        s.skip(1)
    } else {
        s
    }
}

/// The value of `s` as an unsigned 32-bit number in decimal notation: an
/// optional plus sign, then one digit or more, writing a number that fits.
pub open spec fn parsed_u32(s: Seq<char>) -> Option<u32> {
    let body = unsigned_body(s);
    if body.len() > 0 && (forall|i: int| 0 <= i < body.len() ==> is_digit(#[trigger] body[i]))
        && decimal_value(body) <= u32::MAX {
        Some(decimal_value(body) as u32)
    } else {
        None
    }
}

/// A number's value does not go down as digits are added to it.
pub proof fn lemma_decimal_value_grows(digits: Seq<char>, k: int)
    requires
        0 <= k <= digits.len(),
        forall|i: int| 0 <= i < digits.len() ==> is_digit(#[trigger] digits[i]),
    ensures
        0 <= decimal_value(digits.take(k)) <= decimal_value(digits),
    decreases digits.len() - k,
{
    if k == digits.len() {
        assert(digits.take(k) == digits);
        lemma_decimal_value_nonneg(digits);
    } else {
        lemma_decimal_value_grows(digits, k + 1);
        assert(digits.take(k + 1).drop_last() == digits.take(k));
        lemma_decimal_value_nonneg(digits.take(k));
    }
}

proof fn lemma_decimal_value_nonneg(digits: Seq<char>)
    requires
        forall|i: int| 0 <= i < digits.len() ==> is_digit(#[trigger] digits[i]),
    ensures
        0 <= decimal_value(digits),
    decreases digits.len(),
{
    if digits.len() > 0 {
        lemma_decimal_value_nonneg(digits.drop_last());
    }
}

/// Reads `s` as an unsigned 32-bit number in decimal notation.
pub fn parse_u32(s: &Vec<char>) -> (value: Option<u32>)
    ensures
        value == parsed_u32(s@),
{
    let start: usize = if s.len() > 0 && s[0] == '+' {
        1
    } else {
        0
    };
    if start == s.len() {
        return None;
    }
    let ghost body = unsigned_body(s@);
    assert(body == s@.skip(start as int));
    let mut value: u64 = 0;
    let mut i: usize = start;
    while i < s.len()
        invariant
            start <= i <= s@.len(),
            body == s@.skip(start as int),
            body == unsigned_body(s@),
            forall|k: int| 0 <= k < i - start ==> is_digit(#[trigger] body[k]),
            value == decimal_value(body.take(i - start)),
            value <= u32::MAX,
        decreases s@.len() - i,
    {
        let c: char = s[i];
        if c < '0' || c > '9' {
            assert(!is_digit(body[i - start]));
            return None;
        }
        let digit: u64 = (c as u32 - '0' as u32) as u64;
        assert(body.take(i - start + 1).drop_last() == body.take(i - start));
        let next: u64 = value * 10 + digit;
        if next > u32::MAX as u64 {
            proof {
                if forall|k: int| 0 <= k < body.len() ==> is_digit(#[trigger] body[k]) {
                    lemma_decimal_value_grows(body, i - start + 1);
                }
            }
            return None;
        }
        value = next;
        i = i + 1;
    }
    assert(body.take(body.len() as int) == body);
    Some(value as u32)
}

/// The lower-case form of an ASCII capital letter; any other character
/// unchanged.
pub open spec fn lower_char(c: char) -> char {
    if 'A' <= c <= 'Z' {
        ((c as u8) + 32) as char
    } else {
        c
    }
}

/// `s` with its ASCII capital letters in lower case.
pub open spec fn ascii_lower(s: Seq<char>) -> Seq<char> {
    Seq::new(s.len(), |i: int| lower_char(s[i]))
}

/// The lower-case form of an ASCII capital letter; any other character
/// unchanged.
pub fn to_lower_char(c: char) -> (lower: char)
    ensures
        lower == lower_char(c),
{
    if 'A' <= c && c <= 'Z' {
        ((c as u8) + 32) as char
    } else {
        c
    }
}

/// `s` with its ASCII capital letters in lower case.
pub fn to_ascii_lower(s: &Vec<char>) -> (lower: Vec<char>)
    ensures
        lower@ == ascii_lower(s@),
{
    let mut lower: Vec<char> = Vec::new();
    let mut i: usize = 0;
    while i < s.len()
        invariant
            i <= s@.len(),
            lower@.len() == i,
            forall|k: int| 0 <= k < i ==> lower@[k] == lower_char(s@[k]),
        decreases s@.len() - i,
    {
        lower.push(to_lower_char(s[i]));
        i = i + 1;
    }
    lower
}


/// The character that writes the decimal digit `digit`.
pub open spec fn digit_char(digit: int) -> char {
    ('0' as int + digit) as char
}

/// The decimal notation of `n`, without leading zeros.
pub open spec fn decimal_text(n: nat) -> Seq<char>
    decreases n,
{
    if n < 10 {
        seq![digit_char(n as int)]
    } else {
        decimal_text(n / 10).push(digit_char((n % 10) as int))
    }
}

/// The decimal notation of a number is read back as that number.
pub proof fn lemma_decimal_text_value(n: nat)
    ensures
        decimal_text(n).len() > 0,
        forall|i: int| 0 <= i < decimal_text(n).len() ==> is_digit(#[trigger] decimal_text(n)[i]),
        decimal_value(decimal_text(n)) == n,
    decreases n,
{
    let text = decimal_text(n);
    assert(digit_char((n % 10) as int) as int - '0' as int == n % 10);
    assert(text.last() == digit_char((n % 10) as int));
    if n < 10 {
        assert(text.drop_last() == Seq::<char>::empty());
        assert(decimal_value(text.drop_last()) == 0);
    } else {
        lemma_decimal_text_value(n / 10);
        assert(text.drop_last() == decimal_text(n / 10));
    }
    assert(decimal_value(text) == 10 * decimal_value(text.drop_last()) + (text.last() as int
        - '0' as int));
}

/// Writes `n` in decimal notation behind what `out` holds.
pub fn push_decimal(out: &mut Vec<char>, n: u64)
    ensures
        final(out)@ == old(out)@ + decimal_text(n as nat),
    decreases n,
{
    if n >= 10 {
        push_decimal(out, n / 10);
    }
    let digit: u8 = (n % 10) as u8;
    out.push((('0' as u8) + digit) as char);
}

/// The decimal notation of `n`, with a minus sign before a negative
/// number.
pub open spec fn signed_text(n: int) -> Seq<char> {
    if n < 0 {
        seq!['-'] + decimal_text((-n) as nat)
    } else {
        decimal_text(n as nat)
    }
}

/// Writes `n` in decimal notation behind what `out` holds, with a minus
/// sign where it is negative.
pub fn push_signed(out: &mut Vec<char>, n: i64)
    ensures
        final(out)@ == old(out)@ + signed_text(n as int),
{
    if n < 0 {
        out.push('-');
        push_decimal(out, (-(n + 1)) as u64 + 1);
    } else {
        push_decimal(out, n as u64);
    }
}

/// Writes `text` behind what `out` holds.
pub fn push_text(out: &mut Vec<char>, text: &str)
    ensures
        final(out)@ == old(out)@ + text@,
{
    let mut chars: Vec<char> = chars_of(text);
    out.append(&mut chars);
}


/// The views of the vectors of `parts`.
pub open spec fn texts(parts: Seq<Vec<char>>) -> Seq<Seq<char>> {
    parts.map_values(|part: Vec<char>| part@)
}

/// The parts into which `text` falls at its commas.
pub open spec fn all_fields(text: Seq<char>) -> Seq<Seq<char>>
    decreases text.len(),
{
    if find_char(text, ',', 0) < 0 || find_char(text, ',', 0) >= text.len() {
        seq![text]
    } else {
        seq![text.take(find_char(text, ',', 0))] + all_fields(
            text.skip(find_char(text, ',', 0) + 1),
        )
    }
}

/// Splits `text` at its commas.
pub fn split_all(text: &Vec<char>) -> (parts: Vec<Vec<char>>)
    ensures
        texts(parts@) == all_fields(text@),
{
    let mut parts: Vec<Vec<char>> = Vec::new();
    let mut start: usize = 0;
    assert(text@.skip(0) == text@);
    assert(texts(parts@) + all_fields(text@) == all_fields(text@));
    loop
        invariant
            start <= text@.len(),
            all_fields(text@) == texts(parts@) + all_fields(text@.skip(start as int)),
        decreases text@.len() - start,
    {
        let ghost rest = text@.skip(start as int);
        let at: usize = position_of(text, ',', start);
        proof {
            lemma_find_char_skip(text@, ',', start as int, 0);
            lemma_find_char(text@, ',', start as int);
        }
        let ghost before = parts@;
        if at == text.len() {
            let last: Vec<char> = slice_of(text, start, at);
            assert(last@ == rest);
            parts.push(last);
            assert(texts(parts@) == texts(before) + seq![rest]);
            return parts;
        }
        let part: Vec<char> = slice_of(text, start, at);
        assert(part@ == rest.take(find_char(rest, ',', 0)));
        assert(text@.skip(at + 1) == rest.skip(find_char(rest, ',', 0) + 1));
        parts.push(part);
        assert(texts(parts@) == texts(before) + seq![part@]);
        start = at + 1;
    }
}

/// The first `c` from `from` on is at `at`, where no `c` stands between
/// the two and `at` is a `c` or the end.
pub proof fn lemma_find_char_is(s: Seq<char>, c: char, from: int, at: int)
    requires
        0 <= from <= at <= s.len(),
        forall|i: int| from <= i < at ==> s[i] != c,
        at < s.len() ==> s[at] == c,
    ensures
        find_char(s, c, from) == at,
    decreases at - from,
{
    if from < at {
        lemma_find_char_is(s, c, from + 1, at);
    }
}

/// A text that is made of two texts with a comma between them falls into
/// the parts of the one followed by the parts of the other.
pub proof fn lemma_all_fields_of_joined(text: Seq<char>, more: Seq<char>)
    ensures
        all_fields(text + seq![','] + more) == all_fields(text) + all_fields(more),
        all_fields(text).len() >= 1,
    decreases text.len(),
{
    let joined = text + seq![','] + more;
    let at = find_char(text, ',', 0);
    lemma_find_char(text, ',', 0);
    assert forall|i: int| 0 <= i < at implies joined[i] != ',' by {
        assert(joined[i] == text[i]);
    }
    if at < text.len() {
        assert(joined[at] == text[at]);
    } else {
        assert(joined[at] == ',');
    }
    lemma_find_char_is(joined, ',', 0, at);
    assert(joined.take(at) == text.take(at));
    if at < text.len() {
        assert(joined.skip(at + 1) == text.skip(at + 1) + seq![','] + more);
        lemma_all_fields_of_joined(text.skip(at + 1), more);
    } else {
        assert(joined.skip(at + 1) == more);
        assert(text.take(at) == text);
    }
}

} // verus!
