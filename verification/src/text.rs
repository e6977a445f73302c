//! Strings as sequences of characters.

use vstd::prelude::*;

verus! {

/// `String::push` appends one character.
pub assume_specification[ String::push ](s: &mut String, c: char)
    ensures
        final(s)@ == old(s)@.push(c),
;

/// A character is its code point.
pub proof fn lemma_char_code(c: char, code: u32)
    requires
        c as u32 == code,
    ensures
        c == code as char,
        c as int == code,
        code < 0xd800 || 0xe000 <= code <= 0x10ffff,
{
}

/// The code point of a character.
pub fn char_code(c: char) -> (code: u32)
    ensures
        code as int == c as int,
        c == code as char,
        code < 0xd800 || 0xe000 <= code <= 0x10ffff,
{
    c as u32
}

/// The characters of a string.
pub fn chars_of(s: &str) -> (v: Vec<char>)
    ensures
        v@ == s@,
{
    let mut v: Vec<char> = Vec::new();
    for c in it: s.chars()
        invariant
            v@ == it.seq().take(it.index()),
            it.seq() == s@,
    {
        v.push(c);
    }
    v
}

/// The string made of the given characters.
pub fn string_of(v: &[char]) -> (s: String)
    ensures
        s@ == v@,
{
    let mut s = String::new();
    let mut i: usize = 0;
    while i < v.len()
        invariant
            i <= v.len(),
            s@ == v@.take(i as int),
        decreases v.len() - i,
    {
        s.push(v[i]);
        i += 1;
    }
    s
}

/// The lower-case mapping of a character outside ASCII.
pub uninterp spec fn unicode_lowercase(c: char) -> Seq<char>;

/// `char::to_lowercase`: the characters of the Unicode lower-case mapping of `c`.
#[verifier::external_body]
fn unicode_lower(c: char) -> (v: Vec<char>)
    ensures
        v@ == unicode_lowercase(c),
{
    c.to_lowercase().collect()
}

/// The text that bytes hold when what is not UTF-8 reads as U+FFFD.
pub uninterp spec fn lossy_text(bytes: Seq<u8>) -> Seq<char>;

/// `String::from_utf8_lossy`: the text of the bytes. Bytes that are UTF-8 give the
/// text that they encode; of other bytes only that the text is a function of them
/// is claimed.
#[verifier::external_body]
fn decode_lossily(bytes: &[u8]) -> (s: String)
    ensures
        s@ == lossy_text(bytes@),
        vstd::utf8::valid_utf8(bytes@) ==> s@ == vstd::utf8::decode_utf8(bytes@),
{
    String::from_utf8_lossy(bytes).into_owned()
}

/// The text of bytes: the one that they encode, if they are UTF-8.
pub open spec fn bytes_text(bytes: Seq<u8>) -> Seq<char> {
    if vstd::utf8::valid_utf8(bytes) {
        vstd::utf8::decode_utf8(bytes)
    } else {
        lossy_text(bytes)
    }
}

/// The text of bytes.
pub fn text_of_bytes(bytes: &[u8]) -> (s: String)
    ensures
        s@ == bytes_text(bytes@),
{
    decode_lossily(bytes)
}

/// The bytes of a text read as the text.
pub proof fn lemma_bytes_text(s: Seq<char>)
    ensures
        bytes_text(vstd::utf8::encode_utf8(s)) == s,
{
    vstd::utf8::encode_utf8_valid_utf8(s);
    vstd::utf8::encode_utf8_decode_utf8(s);
}

/// The message for bytes that are not UTF-8.
pub uninterp spec fn utf8_fault(bytes: Seq<u8>) -> Seq<char>;

/// `str::from_utf8`: the text that UTF-8 bytes encode, and for other bytes what is
/// wrong with them, of which only that it is a function of them is claimed.
#[verifier::external_body]
pub(crate) fn utf8_text(bytes: &[u8]) -> (r: Result<String, String>)
    ensures
        match r {
            Ok(text) => vstd::utf8::valid_utf8(bytes@) && text@ == vstd::utf8::decode_utf8(bytes@),
            Err(fault) => !vstd::utf8::valid_utf8(bytes@) && fault@ == utf8_fault(bytes@),
        },
{
    std::str::from_utf8(bytes).map(|text| text.to_owned()).map_err(|e| e.to_string())
}

/// An ASCII capital as its small letter, any other character as it is.
pub open spec fn ascii_lower(c: char) -> char {
    if 'A' <= c && c <= 'Z' {
        (c as u32 + 32) as char
    } else {
        c
    }
}

/// The small letter of an ASCII capital, any other character as it is.
pub fn to_ascii_lower(c: char) -> (r: char)
    ensures
        r == ascii_lower(c),
{
    if 'A' <= c && c <= 'Z' {
        ((c as u8) + 32) as char
    } else {
        c
    }
}

/// A character in lower case.
pub open spec fn lowered_char(c: char) -> Seq<char> {
    if (c as u32) < 128 {
        seq![ascii_lower(c)]
    } else {
        unicode_lowercase(c)
    }
}

/// A text in lower case, character by character.
pub open spec fn lowered(s: Seq<char>) -> Seq<char>
    decreases s.len(),
{
    if s.len() == 0 {
        Seq::empty()
    } else {
        lowered(s.drop_last()) + lowered_char(s.last())
    }
}

/// The characters of a text in lower case.
pub fn lower_chars(s: &[char]) -> (v: Vec<char>)
    ensures
        v@ == lowered(s@),
{
    let mut v: Vec<char> = Vec::new();
    let mut i: usize = 0;
    while i < s.len()
        invariant
            i <= s.len(),
            v@ == lowered(s@.take(i as int)),
        decreases s.len() - i,
    {
        let c = s[i];
        let ghost before = v@;
        proof {
            assert(s@.take(i as int + 1).drop_last() =~= s@.take(i as int));
            assert(s@.take(i as int + 1).last() == c);
        }
        if char_code(c) < 128 {
            v.push(to_ascii_lower(c));
        } else {
            let mut more = unicode_lower(c);
            v.append(&mut more);
        }
        assert(v@ =~= before + lowered_char(c));
        i += 1;
    }
    assert(s@.take(s@.len() as int) =~= s@);
    v
}

/// All characters are ASCII.
pub open spec fn is_plain(s: Seq<char>) -> bool {
    forall|i: int| 0 <= i < s.len() ==> (#[trigger] s[i] as u32) < 128
}

/// ASCII in lower case has as many characters, each of them ASCII.
pub proof fn lemma_plain_lowered(s: Seq<char>)
    requires
        is_plain(s),
    ensures
        lowered(s).len() == s.len(),
        is_plain(lowered(s)),
        forall|i: int| 0 <= i < s.len() ==> #[trigger] lowered(s)[i] == ascii_lower(s[i]),
    decreases s.len(),
{
    if s.len() > 0 {
        let front = s.drop_last();
        assert forall|i: int| 0 <= i < front.len() implies (#[trigger] front[i] as u32) < 128 by {
            assert(front[i] == s[i]);
        }
        lemma_plain_lowered(front);
        assert((s[s.len() - 1] as u32) < 128);
        assert(lowered_char(s.last()) == seq![ascii_lower(s.last())]);
    }
}

/// How many bytes a character takes in UTF-8.
pub open spec fn char_width(c: char) -> int {
    if (c as u32) < 0x80 {
        1
    } else if (c as u32) < 0x800 {
        2
    } else if (c as u32) < 0x1_0000 {
        3
    } else {
        4
    }
}

/// How many bytes a character takes in UTF-8.
fn width_of(c: char) -> (n: u128)
    ensures
        n == char_width(c),
{
    let code: u32 = char_code(c);
    if code < 0x80 {
        1
    } else if code < 0x800 {
        2
    } else if code < 0x1_0000 {
        3
    } else {
        4
    }
}

/// How many bytes the first `i` characters take in UTF-8.
pub open spec fn bytes_before(s: Seq<char>, i: int) -> int
    decreases i,
{
    if i <= 0 {
        0
    } else {
        bytes_before(s, i - 1) + char_width(s[i - 1])
    }
}

/// How many bytes the first `i` characters take in UTF-8.
pub fn count_bytes(s: &[char], i: usize) -> (n: u128)
    requires
        i <= s.len(),
    ensures
        n == bytes_before(s@, i as int),
        n <= 4 * i,
{
    let mut n: u128 = 0;
    let mut k: usize = 0;
    while k < i
        invariant
            k <= i <= s.len(),
            n == bytes_before(s@, k as int),
            n <= 4 * k,
        decreases i - k,
    {
        n = n + width_of(s[k]);
        k += 1;
    }
    n
}

/// More characters take more bytes.
pub proof fn lemma_bytes_grow(s: Seq<char>, i: int, j: int)
    requires
        0 <= i <= j,
    ensures
        j - i <= bytes_before(s, j) - bytes_before(s, i) <= 4 * (j - i),
    decreases j - i,
{
    if i < j {
        lemma_bytes_grow(s, i, j - 1);
    }
}

/// The place between two characters, from the `i`th on, that lies so many bytes
/// further on in UTF-8.
pub open spec fn place_behind(s: Seq<char>, i: int, bytes: int) -> Option<int>
    decreases s.len() - i,
{
    if bytes == 0 {
        Some(i)
    } else if bytes < 0 || i >= s.len() {
        None
    } else {
        place_behind(s, i + 1, bytes - char_width(s[i]))
    }
}

/// The place between two characters that a count of bytes in UTF-8 leads to.
pub open spec fn place_at(s: Seq<char>, bytes: int) -> Option<int> {
    place_behind(s, 0, bytes)
}

/// As many bytes as were asked for stand in front of the place.
pub proof fn lemma_place_behind(s: Seq<char>, i: int, bytes: int)
    requires
        0 <= i <= s.len(),
    ensures
        place_behind(s, i, bytes) matches Some(k) ==> i <= k <= s.len() && bytes_before(s, k)
            == bytes_before(s, i) + bytes,
    decreases s.len() - i,
{
    if bytes > 0 && i < s.len() {
        lemma_place_behind(s, i + 1, bytes - char_width(s[i]));
    }
}

/// The place between two characters that a count of bytes in UTF-8 leads to.
pub fn find_place(s: &[char], bytes: u128) -> (r: Option<usize>)
    ensures
        match r {
            Some(k) => k <= s.len() && place_at(s@, bytes as int) == Some(k as int),
            None => place_at(s@, bytes as int) is None,
        },
{
    let mut i: usize = 0;
    let mut left: u128 = bytes;
    while left > 0
        invariant
            i <= s.len(),
            place_at(s@, bytes as int) == place_behind(s@, i as int, left as int),
        decreases s.len() - i,
    {
        if i >= s.len() {
            return None;
        }
        let width: u128 = width_of(s[i]);
        if width > left {
            assert(place_behind(s@, i as int + 1, left - width) is None);
            return None;
        }
        left = left - width;
        i += 1;
    }
    Some(i)
}

/// In ASCII every character takes one byte.
pub proof fn lemma_plain_bytes(s: Seq<char>, i: int)
    requires
        is_plain(s),
        0 <= i <= s.len(),
    ensures
        bytes_before(s, i) == i,
    decreases i,
{
    if i > 0 {
        lemma_plain_bytes(s, i - 1);
        assert((s[i - 1] as u32) < 128);
    }
}

/// In ASCII a count of bytes is a count of characters.
pub proof fn lemma_plain_place(s: Seq<char>, i: int, bytes: int)
    requires
        is_plain(s),
        0 <= i,
        0 <= bytes <= s.len() - i,
    ensures
        place_behind(s, i, bytes) == Some(i + bytes),
    decreases bytes,
{
    if bytes > 0 {
        assert((s[i] as u32) < 128);
        lemma_plain_place(s, i + 1, bytes - 1);
    }
}

/// The decimal digit of a number below ten.
pub open spec fn digit(n: nat) -> char {
    (48 + n) as char
}

/// The decimal digits of a natural number.
pub open spec fn digits(n: nat) -> Seq<char>
    decreases n,
{
    if n < 10 {
        seq![digit(n)]
    } else {
        digits(n / 10).push(digit(n % 10))
    }
}

/// The decimal text of an integer.
pub open spec fn decimal(n: int) -> Seq<char> {
    if n < 0 {
        seq!['-'] + digits((-n) as nat)
    } else {
        digits(n as nat)
    }
}

/// `itoa::Buffer::format`: the decimal digits of an integer, without leading
/// zeros, behind a minus sign where it is negative.
#[verifier::external_body]
pub(crate) fn decimal_text(n: i128) -> (s: String)
    ensures
        s@ == decimal(n as int),
{
    itoa::Buffer::new().format(n).to_owned()
}

/// The number that decimal digits stand for.
pub open spec fn digits_value(s: Seq<char>) -> nat
    decreases s.len(),
{
    if s.len() == 0 {
        0
    } else {
        (10 * digits_value(s.drop_last()) + (s.last() as int - 48)) as nat
    }
}

pub open spec fn is_digit(c: char) -> bool {
    '0' <= c && c <= '9'
}

/// The digits of a number are digits, and stand for the number.
pub proof fn lemma_digits(n: nat)
    ensures
        digits(n).len() > 0,
        forall|i: int| 0 <= i < digits(n).len() ==> is_digit(#[trigger] digits(n)[i]),
        digits_value(digits(n)) == n,
    decreases n,
{
    if n < 10 {
        assert(digits(n).drop_last() =~= Seq::<char>::empty());
        assert(digits_value(Seq::<char>::empty()) == 0);
    } else {
        lemma_digits(n / 10);
        assert(digits(n).drop_last() =~= digits(n / 10));
    }
}

/// The digits of a number are as many as its size asks for.
pub proof fn lemma_digits_len(n: nat)
    requires
        n <= 0xffff_ffff_ffff_ffff,
    ensures
        digits(n).len() <= 20,
{
    reveal_with_fuel(digits, 21);
}

/// The characters that Unicode counts as white space.
pub open spec fn is_whitespace(c: char) -> bool {
    let code = c as int;
    9 <= code <= 13 || code == 0x20 || code == 0x85 || code == 0xa0 || code == 0x1680 || 0x2000
        <= code <= 0x200a || code == 0x2028 || code == 0x2029 || code == 0x202f || code == 0x205f
        || code == 0x3000
}

/// Whether Unicode counts the character as white space.
pub fn whitespace(c: char) -> (b: bool)
    ensures
        b == is_whitespace(c),
{
    let code: u32 = char_code(c);
    (9 <= code && code <= 13) || code == 0x20 || code == 0x85 || code == 0xa0 || code == 0x1680 || (
    0x2000 <= code && code <= 0x200a) || code == 0x2028 || code == 0x2029 || code == 0x202f || code
        == 0x205f || code == 0x3000
}

/// Two texts are the same when ASCII capitals and small letters count as equal.
pub open spec fn same_ignoring_case(a: Seq<char>, b: Seq<char>) -> bool {
    a.len() == b.len() && forall|i: int|
        0 <= i < a.len() ==> ascii_lower(#[trigger] a[i]) == ascii_lower(b[i])
}

/// Whether two texts are the same when ASCII capitals and small letters count as
/// equal.
pub fn eq_ignoring_case(a: &[char], b: &[char]) -> (r: bool)
    ensures
        r == same_ignoring_case(a@, b@),
{
    if a.len() != b.len() {
        return false;
    }
    let mut i: usize = 0;
    while i < a.len()
        invariant
            i <= a.len() == b.len(),
            forall|j: int| 0 <= j < i ==> ascii_lower(#[trigger] a@[j]) == ascii_lower(b@[j]),
        decreases a.len() - i,
    {
        if to_ascii_lower(a[i]) != to_ascii_lower(b[i]) {
            assert(ascii_lower(a@[i as int]) != ascii_lower(b@[i as int]));
            return false;
        }
        i += 1;
    }
    true
}

/// Whether two texts are the same.
pub fn eq_chars(a: &[char], b: &[char]) -> (r: bool)
    ensures
        r == (a@ == b@),
{
    if a.len() != b.len() {
        return false;
    }
    let mut i: usize = 0;
    while i < a.len()
        invariant
            i <= a.len() == b.len(),
            forall|j: int| 0 <= j < i ==> a@[j] == b@[j],
        decreases a.len() - i,
    {
        if a[i] != b[i] {
            return false;
        }
        i += 1;
    }
    assert(a@ =~= b@);
    true
}

/// Whether two strings are the same.
pub fn eq_str(a: &str, b: &str) -> (r: bool)
    ensures
        r == (a@ == b@),
{
    a.to_owned() == b.to_owned()
}

/// Appends characters to a string.
pub fn push_chars(s: &mut String, more: &[char])
    ensures
        final(s)@ == old(s)@ + more@,
{
    let ghost before = s@;
    let mut i: usize = 0;
    assert(before + more@.take(0) =~= before);
    while i < more.len()
        invariant
            i <= more.len(),
            s@ == before + more@.take(i as int),
        decreases more.len() - i,
    {
        s.push(more[i]);
        assert(s@ =~= before + more@.take(i as int + 1));
        i += 1;
    }
    assert(more@.take(more@.len() as int) =~= more@);
}

/// Appends the decimal text of an integer to a string.
pub fn push_decimal(s: &mut String, n: i128)
    ensures
        final(s)@ == old(s)@ + decimal(n as int),
{
    let text = decimal_text(n);
    s.append(text.as_str());
}

} // verus!
