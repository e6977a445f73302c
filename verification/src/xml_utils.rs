//! Low-level XML helpers.

use vstd::prelude::*;
use crate::text::{chars_of, string_of};

verus! {

/// The control characters that XML text cannot hold.
pub open spec fn is_control(c: char) -> bool {
    (c as int) < 0x20 && c as int != 9 && c as int != 10 && c as int != 13
}

/// The characters that XML text is cut down to where it holds a control
/// character.
pub open spec fn is_kept(c: char) -> bool {
    c as int == 9 || c as int == 10 || c as int == 13 || 0x20 <= c as int <= 0xd7ff || 0xe000
        <= c as int <= 0xfffd
}

/// The text holds a control character.
pub open spec fn has_control(s: Seq<char>) -> bool {
    exists|i: int| 0 <= i < s.len() && is_control(#[trigger] s[i])
}

/// The five characters that XML has entities for, each with its entity.
pub open spec fn entity(c: char) -> Seq<char> {
    if c == '&' {
        seq!['&', 'a', 'm', 'p', ';']
    } else if c == '<' {
        seq!['&', 'l', 't', ';']
    } else if c == '>' {
        seq!['&', 'g', 't', ';']
    } else if c == '"' {
        seq!['&', 'q', 'u', 'o', 't', ';']
    } else if c == '\'' {
        seq!['&', 'a', 'p', 'o', 's', ';']
    } else {
        seq![c]
    }
}

/// The text with an entity for each character that has one.
pub open spec fn with_entities(s: Seq<char>) -> Seq<char>
    decreases s.len(),
{
    if s.len() == 0 {
        Seq::empty()
    } else {
        with_entities(s.drop_last()) + entity(s.last())
    }
}

/// Text as it stands in an XML element: with entities, and, where it holds a
/// control character, without characters that XML text cannot hold.
pub open spec fn escaped_text(s: Seq<char>) -> Seq<char> {
    if has_control(s) {
        with_entities(s.filter(|c: char| is_kept(c)))
    } else {
        with_entities(s)
    }
}

fn control(c: char) -> (b: bool)
    ensures
        b == is_control(c),
{
    let v: u32 = crate::text::char_code(c);
    v < 0x20 && v != 9 && v != 10 && v != 13
}

fn kept(c: char) -> (b: bool)
    ensures
        b == is_kept(c),
{
    let v: u32 = crate::text::char_code(c);
    v == 9 || v == 10 || v == 13 || (0x20 <= v && v <= 0xd7ff) || (0xe000 <= v && v <= 0xfffd)
}

/// Whether the text holds a control character.
pub fn has_invalid_control_chars(s: &[char]) -> (b: bool)
    ensures
        b == has_control(s@),
{
    let mut i: usize = 0;
    while i < s.len()
        invariant
            i <= s.len(),
            forall|j: int| 0 <= j < i ==> !is_control(#[trigger] s@[j]),
        decreases s.len() - i,
    {
        if control(s[i]) {
            return true;
        }
        i += 1;
    }
    false
}

/// The text without characters that XML text cannot hold.
pub fn strip_invalid_control_chars(s: &[char]) -> (v: Vec<char>)
    ensures
        v@ == s@.filter(|c: char| is_kept(c)),
{
    let mut v: Vec<char> = Vec::new();
    let mut i: usize = 0;
    assert(s@.take(0).filter(|c: char| is_kept(c)) =~= Seq::<char>::empty()) by {
        reveal(Seq::filter);
    }
    while i < s.len()
        invariant
            i <= s.len(),
            v@ == s@.take(i as int).filter(|c: char| is_kept(c)),
        decreases s.len() - i,
    {
        proof {
            reveal(Seq::filter);
            assert(s@.take(i as int + 1).drop_last() =~= s@.take(i as int));
        }
        if kept(s[i]) {
            v.push(s[i]);
        }
        i += 1;
    }
    assert(s@.take(s@.len() as int) =~= s@);
    v
}

/// Appends a character, as its entity where it has one.
pub fn push_entity(out: &mut String, c: char)
    ensures
        final(out)@ == old(out)@ + entity(c),
{
    let ghost before = out@;
    proof {
        reveal_strlit("&amp;");
        reveal_strlit("&lt;");
        reveal_strlit("&gt;");
        reveal_strlit("&quot;");
        reveal_strlit("&apos;");
    }
    if c == '&' {
        out.append("&amp;");
    } else if c == '<' {
        out.append("&lt;");
    } else if c == '>' {
        out.append("&gt;");
    } else if c == '"' {
        out.append("&quot;");
    } else if c == '\'' {
        out.append("&apos;");
    } else {
        out.push(c);
    }
    assert(out@ =~= before + entity(c));
}

/// Appends text with an entity for each character that has one.
pub fn push_entities(out: &mut String, s: &[char])
    ensures
        final(out)@ == old(out)@ + with_entities(s@),
{
    let ghost before = out@;
    let mut i: usize = 0;
    assert(before + with_entities(s@.take(0)) =~= before);
    while i < s.len()
        invariant
            i <= s.len(),
            out@ == before + with_entities(s@.take(i as int)),
        decreases s.len() - i,
    {
        push_entity(out, s[i]);
        proof {
            assert(s@.take(i as int + 1).drop_last() =~= s@.take(i as int));
            assert(out@ =~= before + with_entities(s@.take(i as int + 1)));
        }
        i += 1;
    }
    assert(s@.take(s@.len() as int) =~= s@);
}

/// Escapes text for use inside an XML element.
pub fn escape_xml_text(s: &str) -> (r: String)
    ensures
        r@ == escaped_text(s@),
{
    let chars = chars_of(s);
    let mut out = String::new();
    if has_invalid_control_chars(&chars) {
        let clean = strip_invalid_control_chars(&chars);
        push_entities(&mut out, &clean);
    } else {
        push_entities(&mut out, &chars);
    }
    out
}

/// The value of a digit in a base up to sixteen.
pub open spec fn digit_value(c: char, base: nat) -> Option<nat> {
    let v = if '0' <= c && c <= '9' {
        c as int - 48
    } else if 'a' <= c && c <= 'f' {
        c as int - 87
    } else if 'A' <= c && c <= 'F' {
        c as int - 55
    } else {
        16
    };
    if v < base {
        Some(v as nat)
    } else {
        None
    }
}

/// The number that digits of a base stand for, where all of them are digits.
pub open spec fn radix_value(s: Seq<char>, base: nat) -> Option<nat>
    decreases s.len(),
{
    if s.len() == 0 {
        Some(0)
    } else {
        match (radix_value(s.drop_last(), base), digit_value(s.last(), base)) {
            (Some(high), Some(low)) => Some(high * base + low),
            _ => None,
        }
    }
}

/// The 32-bit number that digits of a base stand for.
pub open spec fn radix_u32(s: Seq<char>, base: nat) -> Option<nat> {
    if s.len() == 0 {
        None
    } else {
        match radix_value(s, base) {
            Some(n) => if n <= u32::MAX {
                Some(n)
            } else {
                None
            },
            None => None,
        }
    }
}

pub fn digit_of(c: char, base: u32) -> (r: Option<u32>)
    requires
        base <= 16,
    ensures
        match r {
            Some(d) => digit_value(c, base as nat) == Some(d as nat) && d < base,
            None => digit_value(c, base as nat) is None,
        },
{
    let code: u32 = crate::text::char_code(c);
    let v: u32 = if 48 <= code && code <= 57 {
        code - 48
    } else if 97 <= code && code <= 102 {
        code - 87
    } else if 65 <= code && code <= 70 {
        code - 55
    } else {
        16
    };
    if v < base {
        Some(v)
    } else {
        None
    }
}

pub proof fn lemma_radix_grows(s: Seq<char>, k: int, base: nat)
    requires
        0 <= k <= s.len(),
        base > 0,
    ensures
        radix_value(s.take(k), base) is None ==> radix_value(s, base) is None,
        radix_value(s, base) matches Some(n) ==> radix_value(s.take(k), base) matches Some(m) && m
            <= n,
    decreases s.len() - k,
{
    if k < s.len() {
        lemma_radix_grows(s, k + 1, base);
        assert(s.take(k + 1).drop_last() =~= s.take(k));
        match (radix_value(s.take(k), base), radix_value(s.take(k + 1), base)) {
            (Some(m), Some(n)) => {
                assert(n >= m) by (nonlinear_arith)
                    requires
                        n >= m * base,
                        base > 0,
                ;
            },
            _ => {},
        }
    } else {
        assert(s.take(k) =~= s);
    }
}

/// The 32-bit number that digits of a base stand for.
pub fn parse_radix(s: &[char], base: u32) -> (r: Option<u32>)
    requires
        0 < base <= 16,
    ensures
        match r {
            Some(n) => radix_u32(s@, base as nat) == Some(n as nat),
            None => radix_u32(s@, base as nat) is None,
        },
{
    if s.len() == 0 {
        return None;
    }
    let mut value: u32 = 0;
    let mut i: usize = 0;
    while i < s.len()
        invariant
            i <= s.len(),
            0 < base <= 16,
            s.len() > 0,
            radix_value(s@.take(i as int), base as nat) == Some(value as nat),
        decreases s.len() - i,
    {
        proof {
            assert(s@.take(i as int + 1).drop_last() =~= s@.take(i as int));
            lemma_radix_grows(s@, i as int + 1, base as nat);
        }
        let d: u32 = match digit_of(s[i], base) {
            Some(d) => d,
            None => return None,
        };
        assert(value * base <= 0xffff_ffff * 16) by (nonlinear_arith)
            requires
                value <= 0xffff_ffff,
                base <= 16,
        ;
        let next: u64 = value as u64 * base as u64 + d as u64;
        if next > 0xffff_ffff {
            return None;
        }
        value = next as u32;
        i += 1;
    }
    assert(s@.take(s@.len() as int) =~= s@);
    Some(value)
}

/// The offset of the first `c` from `from` on.
pub open spec fn find_char(s: Seq<char>, c: char, from: int) -> Option<int>
    decreases s.len() - from,
{
    if from >= s.len() {
        None
    } else if s[from] == c {
        Some(from)
    } else {
        find_char(s, c, from + 1)
    }
}

/// The first offset of a character is where it stands, and not before.
pub proof fn lemma_find_char(s: Seq<char>, c: char, from: int)
    requires
        0 <= from,
    ensures
        match find_char(s, c, from) {
            Some(at) => from <= at < s.len() && s[at] == c && forall|j: int|
                from <= j < at ==> s[j] != c,
            None => forall|j: int| from <= j < s.len() ==> s[j] != c,
        },
    decreases s.len() - from,
{
    if from < s.len() && s[from] != c {
        lemma_find_char(s, c, from + 1);
    }
}

/// The offset of the first `c` from `from` on.
pub fn index_of(s: &[char], c: char, from: usize) -> (r: Option<usize>)
    ensures
        match r {
            Some(at) => find_char(s@, c, from as int) == Some(at as int) && from <= at < s.len()
                && s@[at as int] == c,
            None => find_char(s@, c, from as int) is None,
        },
{
    let mut i: usize = from;
    while i < s.len()
        invariant
            from <= i,
            find_char(s@, c, from as int) == find_char(s@, c, i as int),
        decreases s.len() - i,
    {
        if s[i] == c {
            return Some(i);
        }
        i += 1;
    }
    None
}

/// The character that the code point in digits of a base stands for.
pub open spec fn char_of_digits(s: Seq<char>, base: nat) -> Option<char> {
    match radix_u32(s, base) {
        Some(n) => if crate::utf16::is_scalar(n as int) {
            Some(n as char)
        } else {
            None
        },
        None => None,
    }
}

/// Digits with an optional plus sign in front of at least one of them.
pub open spec fn without_plus(s: Seq<char>) -> Seq<char> {
    if s.len() > 1 && s[0] == '+' {
        s.skip(1)
    } else {
        s
    }
}

/// The character that a numeric reference at the start of the text stands for, and
/// the length of the reference: `&#`, `x` before hexadecimal digits, the digits,
/// `;`.
pub open spec fn reference_at(s: Seq<char>) -> Option<(char, int)> {
    if s.len() > 1 && s[0] == '&' && s[1] == '#' {
        match find_char(s, ';', 0) {
            None => None,
            Some(semi) => {
                let code = if s.len() > 2 && (s[2] == 'x' || s[2] == 'X') {
                    char_of_digits(without_plus(s.subrange(3, semi)), 16)
                } else {
                    char_of_digits(s.subrange(2, semi), 10)
                };
                match code {
                    Some(c) => Some((c, semi + 1)),
                    None => None,
                }
            },
        }
    } else {
        None
    }
}

/// The pattern stands at this offset of the text.
pub open spec fn stands_at(s: Seq<char>, pattern: Seq<char>, at: int) -> bool {
    0 <= at && at + pattern.len() <= s.len() && s.subrange(at, at + pattern.len()) == pattern
}

/// The character whose entity stands at the start of the text, and the length of
/// the entity.
pub open spec fn entity_at(s: Seq<char>) -> Option<(char, int)> {
    if stands_at(s, entity('&'), 0) {
        Some(('&', 5))
    } else if stands_at(s, entity('<'), 0) {
        Some(('<', 4))
    } else if stands_at(s, entity('>'), 0) {
        Some(('>', 4))
    } else if stands_at(s, entity('"'), 0) {
        Some(('"', 6))
    } else if stands_at(s, entity('\''), 0) {
        Some(('\'', 6))
    } else {
        None
    }
}

/// The character that an entity or a numeric reference at the start of the text
/// stands for, and its length.
pub open spec fn escape_at(s: Seq<char>) -> Option<(char, int)> {
    match entity_at(s) {
        Some(found) => Some(found),
        None => reference_at(s),
    }
}

/// XML text as the characters it stands for. Each entity and each numeric reference
/// is read once, from left to right; what it stands for is not read again.
pub open spec fn unescaped_text(s: Seq<char>) -> Seq<char>
    decreases s.len(),
{
    if s.len() == 0 {
        Seq::empty()
    } else {
        proof {
            lemma_find_char(s, ';', 0);
        }
        match escape_at(s) {
            Some((c, n)) => seq![c] + unescaped_text(s.skip(n)),
            None => seq![s[0]] + unescaped_text(s.skip(1)),
        }
    }
}

/// Whether the pattern stands at this offset.
pub fn matches_at(s: &[char], pattern: &[char], at: usize) -> (b: bool)
    ensures
        b == stands_at(s@, pattern@, at as int),
{
    if pattern.len() > s.len() || at > s.len() - pattern.len() {
        return false;
    }
    let mut i: usize = 0;
    while i < pattern.len()
        invariant
            i <= pattern.len(),
            at + pattern.len() <= s.len(),
            forall|j: int| 0 <= j < i ==> s@[at + j] == pattern@[j],
        decreases pattern.len() - i,
    {
        if s[at + i] != pattern[i] {
            assert(s@.subrange(at as int, at + pattern@.len())[i as int] != pattern@[i as int]);
            return false;
        }
        i += 1;
    }
    assert(s@.subrange(at as int, at + pattern@.len()) =~= pattern@);
    true
}

/// The numeric reference at an offset of the text, with its length.
fn read_reference(s: &[char], at: usize) -> (r: Option<(char, usize)>)
    requires
        at < s.len(),
    ensures
        match r {
            Some((c, n)) => reference_at(s@.skip(at as int)) == Some((c, n as int)) && 0 < n && at
                + n <= s.len(),
            None => reference_at(s@.skip(at as int)) is None,
        },
{
    let ghost rest = s@.skip(at as int);
    if at + 1 >= s.len() || s[at] != '&' || s[at + 1] != '#' {
        return None;
    }
    let semi: usize = match index_of(s, ';', at) {
        Some(semi) => semi,
        None => {
            proof {
                lemma_find_shift(s@, ';', at as int, 0);
            }
            return None;
        },
    };
    proof {
        lemma_find_shift(s@, ';', at as int, 0);
        lemma_find_char(s@, ';', at as int);
    }
    let code: Option<u32> = if at + 2 < s.len() && (s[at + 2] == 'x' || s[at + 2] == 'X') {
        assert(rest[2] == s@[at + 2]);
        let start: usize = if semi - (at + 3) > 1 && s[at + 3] == '+' {
            at + 4
        } else {
            at + 3
        };
        assert(without_plus(rest.subrange(3, semi - at)) =~= s@.subrange(start as int, semi as int))
            by {
            if semi - (at + 3) >= 1 {
                assert(rest.subrange(3, semi - at)[0] == s@[at + 3]);
            }
        }
        parse_radix(vstd::slice::slice_subrange(s, start, semi), 16)
    } else {
        assert(rest.subrange(2, semi - at) =~= s@.subrange(at + 2, semi as int));
        parse_radix(vstd::slice::slice_subrange(s, at + 2, semi), 10)
    };
    match code {
        Some(n) => match char::from_u32(n) {
            Some(c) => {
                proof {
                    crate::text::lemma_char_code(c, n);
                }
                Some((c, semi + 1 - at))
            },
            None => None,
        },
        None => None,
    }
}

proof fn lemma_find_shift(s: Seq<char>, c: char, at: int, from: int)
    requires
        0 <= at <= s.len(),
        0 <= from,
    ensures
        find_char(s.skip(at), c, from) == (match find_char(s, c, at + from) {
            Some(p) => Some(p - at),
            None => None::<int>,
        }),
    decreases s.len() - at - from,
{
    if at + from < s.len() && s[at + from] != c {
        lemma_find_shift(s, c, at, from + 1);
    }
}

/// Whether a pattern stands at an offset of the text.
fn stands_behind(s: &[char], at: usize, pattern: Vec<char>) -> (b: bool)
    requires
        at <= s.len(),
    ensures
        b == stands_at(s@.skip(at as int), pattern@, 0),
{
    let found = matches_at(s, &pattern, at);
    proof {
        let n = pattern@.len() as int;
        if at + n <= s@.len() {
            assert(s@.skip(at as int).subrange(0, n) =~= s@.subrange(at as int, at + n));
        }
    }
    found
}

/// The entity at an offset of the text, with its length.
fn read_entity(s: &[char], at: usize) -> (r: Option<(char, usize)>)
    requires
        at < s.len(),
    ensures
        match r {
            Some((c, n)) => entity_at(s@.skip(at as int)) == Some((c, n as int)) && 0 < n && at + n
                <= s.len(),
            None => entity_at(s@.skip(at as int)) is None,
        },
{
    if stands_behind(s, at, vec!['&', 'a', 'm', 'p', ';']) {
        Some(('&', 5))
    } else if stands_behind(s, at, vec!['&', 'l', 't', ';']) {
        Some(('<', 4))
    } else if stands_behind(s, at, vec!['&', 'g', 't', ';']) {
        Some(('>', 4))
    } else if stands_behind(s, at, vec!['&', 'q', 'u', 'o', 't', ';']) {
        Some(('"', 6))
    } else if stands_behind(s, at, vec!['&', 'a', 'p', 'o', 's', ';']) {
        Some(('\'', 6))
    } else {
        None
    }
}

/// The entity or numeric reference at an offset of the text, with its length.
fn read_escape(s: &[char], at: usize) -> (r: Option<(char, usize)>)
    requires
        at < s.len(),
    ensures
        match r {
            Some((c, n)) => escape_at(s@.skip(at as int)) == Some((c, n as int)) && 0 < n && at + n
                <= s.len(),
            None => escape_at(s@.skip(at as int)) is None,
        },
{
    match read_entity(s, at) {
        Some(found) => Some(found),
        None => read_reference(s, at),
    }
}

/// Reads the five predefined XML entities and numeric character references.
pub fn unescape_xml(s: &str) -> (r: String)
    ensures
        r@ == unescaped_text(s@),
{
    let chars = chars_of(s);
    let out = unescape_chars(&chars);
    string_of(&out)
}

/// Reads the five predefined XML entities and numeric character references.
pub fn unescape_chars(s: &[char]) -> (r: Vec<char>)
    ensures
        r@ == unescaped_text(s@),
{
    let mut out: Vec<char> = Vec::new();
    let mut i: usize = 0;
    assert(s@.skip(0) =~= s@);
    assert(out@ + unescaped_text(s@) =~= unescaped_text(s@));
    while i < s.len()
        invariant
            i <= s.len(),
            unescaped_text(s@) == out@ + unescaped_text(s@.skip(i as int)),
        decreases s.len() - i,
    {
        let ghost rest = s@.skip(i as int);
        let ghost before = out@;
        match read_escape(s, i) {
            Some((c, n)) => {
                out.push(c);
                assert(rest.skip(n as int) =~= s@.skip(i + n));
                assert(out@ + unescaped_text(rest.skip(n as int)) =~= before + unescaped_text(rest));
                i += n;
            },
            None => {
                out.push(s[i]);
                assert(rest.skip(1) =~= s@.skip(i + 1));
                assert(out@ + unescaped_text(rest.skip(1)) =~= before + unescaped_text(rest));
                i += 1;
            },
        }
    }
    assert(out@ + unescaped_text(s@.skip(i as int)) =~= out@);
    out
}

/// The text with its entities, from its first character on.
spec fn escaped_front(s: Seq<char>) -> Seq<char>
    decreases s.len(),
{
    if s.len() == 0 {
        Seq::empty()
    } else {
        entity(s[0]) + escaped_front(s.skip(1))
    }
}

proof fn lemma_escaped_front(s: Seq<char>)
    ensures
        with_entities(s) == escaped_front(s),
    decreases s.len(),
{
    if s.len() > 0 {
        lemma_escaped_front(s.drop_last());
        lemma_front_append(s.drop_last(), s.last());
        assert(s.drop_last().push(s.last()) =~= s);
    }
}

proof fn lemma_front_append(s: Seq<char>, c: char)
    ensures
        escaped_front(s.push(c)) == escaped_front(s) + entity(c),
    decreases s.len(),
{
    if s.len() == 0 {
        assert(s.push(c).skip(1) =~= Seq::<char>::empty());
        assert(escaped_front(s.push(c).skip(1)) =~= Seq::<char>::empty());
        assert(escaped_front(s.push(c)) =~= escaped_front(s) + entity(c));
    } else {
        lemma_front_append(s.skip(1), c);
        assert(s.push(c).skip(1) =~= s.skip(1).push(c));
        assert(escaped_front(s.push(c)) =~= escaped_front(s) + entity(c));
    }
}

/// What a character is escaped as reads as the character.
proof fn lemma_entity_reads(c: char, rest: Seq<char>)
    ensures
        unescaped_text(entity(c) + rest) == seq![c] + unescaped_text(rest),
{
    let e = entity(c);
    let s = e + rest;
    let n = e.len() as int;
    assert(s.skip(n) =~= rest);
    assert(s.subrange(0, n) =~= e);
    assert(s[0] == e[0]);
    if c == '&' || c == '<' || c == '>' || c == '"' || c == '\'' {
        assert(stands_at(s, e, 0));
        assert(s[1] == e[1] && s[2] == e[2]);
        lemma_not_there(s, '&', c);
        lemma_not_there(s, '<', c);
        lemma_not_there(s, '>', c);
        lemma_not_there(s, '"', c);
        lemma_not_there(s, '\'', c);
    } else {
        lemma_nothing_at(s);
    }
}

/// Only one entity stands at the start of a text.
proof fn lemma_not_there(s: Seq<char>, c: char, other: char)
    requires
        c == '&' || c == '<' || c == '>' || c == '"' || c == '\'',
        other == '&' || other == '<' || other == '>' || other == '"' || other == '\'',
        stands_at(s, entity(other), 0),
    ensures
        stands_at(s, entity(c), 0) ==> c == other,
{
    if stands_at(s, entity(c), 0) {
        let a = entity(c);
        let b = entity(other);
        assert(s.subrange(0, a.len() as int)[1] == s[1] && s.subrange(0, a.len() as int)[2]
            == s[2]);
        assert(s.subrange(0, b.len() as int)[1] == s[1] && s.subrange(0, b.len() as int)[2]
            == s[2]);
        assert(a[1] == b[1] && a[2] == b[2]);
    }
}

/// Nothing is escaped where no `&` stands.
pub proof fn lemma_nothing_at(s: Seq<char>)
    requires
        s.len() > 0,
        s[0] != '&',
    ensures
        escape_at(s) is None,
{
    assert forall|c: char|
        (c == '&' || c == '<' || c == '>' || c == '"' || c == '\'') implies !(#[trigger] stands_at(
        s,
        entity(c),
        0,
    )) by {
        if stands_at(s, entity(c), 0) {
            assert(s.subrange(0, entity(c).len() as int)[0] == s[0]);
        }
    }
    assert(!stands_at(s, entity('&'), 0));
    assert(!stands_at(s, entity('<'), 0));
    assert(!stands_at(s, entity('>'), 0));
    assert(!stands_at(s, entity('"'), 0));
    assert(!stands_at(s, entity('\''), 0));
}

proof fn lemma_front_reads(s: Seq<char>)
    ensures
        unescaped_text(escaped_front(s)) == s,
    decreases s.len(),
{
    if s.len() > 0 {
        lemma_front_reads(s.skip(1));
        lemma_entity_reads(s[0], escaped_front(s.skip(1)));
        assert(seq![s[0]] + s.skip(1) =~= s);
    } else {
        assert(unescaped_text(escaped_front(s)) =~= s);
    }
}

/// Unescaping an escaped text gives the text back, unless it holds a control
/// character.
pub proof fn law_escape_round_trip(s: Seq<char>)
    requires
        !has_control(s),
    ensures
        unescaped_text(escaped_text(s)) == s,
{
    lemma_escaped_front(s);
    lemma_front_reads(s);
}

/// Different texts have different texts with entities.
pub proof fn lemma_entities_tell_apart(a: Seq<char>, b: Seq<char>)
    requires
        with_entities(a) == with_entities(b),
    ensures
        a == b,
{
    lemma_escaped_front(a);
    lemma_escaped_front(b);
    lemma_escaped_apart(a, b);
}

proof fn lemma_escaped_apart(a: Seq<char>, b: Seq<char>)
    requires
        escaped_front(a) == escaped_front(b),
    ensures
        a == b,
    decreases a.len(),
{
    if a.len() == 0 {
        if b.len() > 0 {
            assert(escaped_front(b).len() > 0);
        }
        assert(a =~= b);
    } else if b.len() == 0 {
        assert(escaped_front(a).len() > 0);
    } else {
        let x = entity(a[0]);
        let y = entity(b[0]);
        let more_a = escaped_front(a.skip(1));
        let more_b = escaped_front(b.skip(1));
        assert((x + more_a)[0] == (y + more_b)[0]);
        if x.len() > 1 && y.len() > 1 {
            assert((x + more_a)[1] == (y + more_b)[1]);
            assert((x + more_a)[2] == (y + more_b)[2]);
            assert((x + more_a)[1] == x[1] && (y + more_b)[1] == y[1]);
            assert((x + more_a)[2] == x[2] && (y + more_b)[2] == y[2]);
        }
        assert(a[0] == b[0]);
        assert(more_a =~= (x + more_a).skip(x.len() as int));
        assert(more_b =~= (y + more_b).skip(y.len() as int));
        lemma_escaped_apart(a.skip(1), b.skip(1));
        assert(seq![a[0]] + a.skip(1) =~= a);
        assert(seq![b[0]] + b.skip(1) =~= b);
    }
}

/// A text without characters that have entities stays as it is.
pub proof fn lemma_plain_with_entities(s: Seq<char>)
    requires
        forall|i: int| 0 <= i < s.len() ==> entity(#[trigger] s[i]) == seq![s[i]],
    ensures
        with_entities(s) == s,
    decreases s.len(),
{
    if s.len() > 0 {
        let some = s.drop_last();
        assert forall|i: int| 0 <= i < some.len() implies entity(#[trigger] some[i]) == seq![
            some[i],
        ] by {
            assert(some[i] == s[i]);
        }
        lemma_plain_with_entities(some);
        assert(entity(s[s.len() - 1]) == seq![s.last()]);
        assert(some + seq![s.last()] =~= s);
    } else {
        assert(with_entities(s) =~= s);
    }
}

/// The letters of the column with the given number, counted from one: `A` to `Z`,
/// then `AA`, `AB` and so on.
pub open spec fn column_letters(n: nat) -> Seq<char>
    decreases n,
{
    if n == 0 {
        Seq::empty()
    } else {
        column_letters(((n - 1) / 26) as nat).push((65 + (n - 1) % 26) as char)
    }
}

/// The number, counted from one, of the column with the given capitals.
pub open spec fn column_number(letters: Seq<char>) -> nat
    decreases letters.len(),
{
    if letters.len() == 0 {
        0
    } else {
        (26 * column_number(letters.drop_last()) + (letters.last() as int - 64)) as nat
    }
}

/// All characters are ASCII capitals, and there is one at least.
pub open spec fn is_column_name(letters: Seq<char>) -> bool {
    letters.len() > 0 && forall|i: int| 0 <= i < letters.len() ==> is_capital(#[trigger] letters[i])
}

pub open spec fn is_capital(c: char) -> bool {
    'A' <= c && c <= 'Z'
}

/// The zero-based index of a column as its letters.
pub fn column_index_to_letter(col_index: usize) -> (s: String)
    requires
        col_index < usize::MAX,
    ensures
        s@ == column_letters((col_index + 1) as nat),
{
    let mut n: usize = col_index + 1;
    let mut letters: Vec<char> = Vec::new();
    assert(column_letters(n as nat) + letters@ =~= column_letters(n as nat));
    while n > 0
        invariant
            column_letters((col_index + 1) as nat) == column_letters(n as nat) + letters@,
        decreases n,
    {
        let rem: usize = (n - 1) % 26;
        let c = (65 + rem as u8) as char;
        let ghost before = letters@;
        letters.insert(0, c);
        assert(column_letters(n as nat) + before =~= column_letters(((n - 1) / 26) as nat)
            + letters@);
        n = (n - 1) / 26;
    }
    assert(column_letters(0) + letters@ =~= letters@);
    string_of(&letters)
}

proof fn lemma_column_grows(letters: Seq<char>, k: int)
    requires
        0 <= k <= letters.len(),
        forall|i: int| 0 <= i < letters.len() ==> is_capital(#[trigger] letters[i]),
    ensures
        column_number(letters.take(k)) <= column_number(letters),
    decreases letters.len() - k,
{
    if k < letters.len() {
        lemma_column_grows(letters, k + 1);
        assert(letters.take(k + 1).drop_last() =~= letters.take(k));
        assert(is_capital(letters[k]));
    } else {
        assert(letters.take(k) =~= letters);
    }
}

/// The zero-based index of the column with the given letters. `None` where they
/// are not all capitals, there is none, or the index does not fit.
pub fn try_column_letter_to_index(letter: &str) -> (r: Option<usize>)
    ensures
        match r {
            Some(index) => is_column_name(letter@) && index + 1 == column_number(letter@) <= usize::MAX,
            None => !is_column_name(letter@) || column_number(letter@) > usize::MAX,
        },
{
    let chars = chars_of(letter);
    column_index_of(&chars)
}

/// The zero-based index of the column with the given letters.
pub fn column_index_of(chars: &[char]) -> (r: Option<usize>)
    ensures
        match r {
            Some(index) => is_column_name(chars@) && index + 1 == column_number(chars@) <= usize::MAX,
            None => !is_column_name(chars@) || column_number(chars@) > usize::MAX,
        },
{
    if chars.len() == 0 {
        return None;
    }
    let mut i: usize = 0;
    while i < chars.len()
        invariant
            i <= chars.len(),
            forall|j: int| 0 <= j < i ==> is_capital(#[trigger] chars@[j]),
        decreases chars.len() - i,
    {
        if !('A' <= chars[i] && chars[i] <= 'Z') {
            assert(!is_capital(chars@[i as int]));
            return None;
        }
        i += 1;
    }
    let mut column: usize = 0;
    i = 0;
    while i < chars.len()
        invariant
            i <= chars.len(),
            is_column_name(chars@),
            column == column_number(chars@.take(i as int)),
            i > 0 ==> column > 0,
        decreases chars.len() - i,
    {
        proof {
            assert(chars@.take(i as int + 1).drop_last() =~= chars@.take(i as int));
            lemma_column_grows(chars@, i as int + 1);
            assert(is_capital(chars@[i as int]));
        }
        let d: usize = (crate::text::char_code(chars[i]) - 64) as usize;
        column = match column.checked_mul(26) {
            Some(n) => match n.checked_add(d) {
                Some(n) => n,
                None => return None,
            },
            None => return None,
        };
        i += 1;
    }
    assert(chars@.take(chars@.len() as int) =~= chars@);
    Some(column - 1)
}

/// The zero-based index of the column with the given letters, which have to be
/// capitals.
pub fn column_letter_to_index(letter: &str) -> (index: usize)
    requires
        is_column_name(letter@),
        column_number(letter@) <= usize::MAX,
    ensures
        index + 1 == column_number(letter@),
{
    match try_column_letter_to_index(letter) {
        Some(index) => index,
        None => 0,
    }
}

/// The letters of a column name the column.
pub proof fn law_column_round_trip(n: nat)
    requires
        n > 0,
    ensures
        is_column_name(column_letters(n)),
        column_number(column_letters(n)) == n,
    decreases n,
{
    let high = ((n - 1) / 26) as nat;
    let letters = column_letters(n);
    assert(letters.drop_last() =~= column_letters(high));
    if high > 0 {
        law_column_round_trip(high);
    }
    assert forall|i: int| 0 <= i < letters.len() implies is_capital(#[trigger] letters[i]) by {
        if i < letters.len() - 1 {
            assert(letters[i] == column_letters(high)[i]);
        }
    }
    assert(column_number(Seq::<char>::empty()) == 0);
}

/// The letters of the column with a given number are the only capitals that name
/// it.
pub proof fn law_column_letters_are_unique(letters: Seq<char>)
    requires
        is_column_name(letters),
    ensures
        column_letters(column_number(letters)) == letters,
    decreases letters.len(),
{
    let init = letters.drop_last();
    assert(is_capital(letters.last()));
    if init.len() > 0 {
        assert(is_column_name(init)) by {
            assert forall|i: int| 0 <= i < init.len() implies is_capital(#[trigger] init[i]) by {
                assert(init[i] == letters[i]);
            }
        }
        law_column_letters_are_unique(init);
    } else {
        assert(init =~= Seq::<char>::empty());
        assert(column_number(init) == 0);
        assert(column_letters(0) =~= init);
    }
    let n = column_number(letters);
    let d = letters.last() as int - 65;
    assert(0 <= d < 26);
    assert(n - 1 == 26 * column_number(init) + d);
    assert((n - 1) / 26 == column_number(init) && (n - 1) % 26 == d);
    assert(column_letters(n) == init.push((65 + d) as char));
    assert(init.push(letters.last()) =~= letters);
}

/// The predicate has called every item of the row empty.
pub open spec fn called_empty<T, P: Fn(&T) -> bool>(row: Seq<T>, is_empty: P) -> bool {
    forall|i: int| 0 <= i < row.len() ==> is_empty.ensures((&#[trigger] row[i],), true)
}

/// The predicate has called an item of the row not empty.
pub open spec fn called_full<T, P: Fn(&T) -> bool>(row: Seq<T>, is_empty: P) -> bool {
    exists|i: int| 0 <= i < row.len() && is_empty.ensures((&#[trigger] row[i],), false)
}

/// Removes trailing rows that hold only items that the predicate calls empty.
pub fn trim_trailing_empty_rows<T, P: Fn(&T) -> bool>(rows: Vec<Vec<T>>, is_empty: P) -> (r: Vec<
    Vec<T>,
>)
    requires
        forall|item: &T| is_empty.requires((item,)),
    ensures
        r.len() <= rows.len(),
        r@ == rows@.take(r.len() as int),
        forall|i: int| r.len() <= i < rows.len() ==> called_empty((#[trigger] rows@[i])@, is_empty),
        r.len() > 0 ==> called_full(rows@[r.len() - 1]@, is_empty),
{
    let mut rows = rows;
    let ghost all = rows@;
    let mut end: usize = rows.len();
    while end > 0
        invariant
            end <= rows.len(),
            rows@ == all,
            forall|item: &T| is_empty.requires((item,)),
            forall|i: int| end <= i < rows.len() ==> called_empty((#[trigger] all[i])@, is_empty),
        ensures
            end > 0 ==> called_full(all[end - 1]@, is_empty),
        decreases end,
    {
        let row = &rows[end - 1];
        let mut i: usize = 0;
        let mut full = false;
        while i < row.len()
            invariant
                i <= row.len(),
                forall|item: &T| is_empty.requires((item,)),
                !full ==> forall|j: int|
                    0 <= j < i ==> is_empty.ensures((&#[trigger] row@[j],), true),
                full ==> called_full(row@, is_empty),
            decreases row.len() - i,
        {
            if !full && !is_empty(&row[i]) {
                full = true;
            }
            i += 1;
        }
        if full {
            break;
        }
        end -= 1;
    }
    rows.truncate(end);
    rows
}

} // verus!
