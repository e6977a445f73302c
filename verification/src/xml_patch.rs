//! Finding and replacing pieces of an XML document in place.
//!
//! Everything that is not replaced stays as it is, letter for letter: the
//! document is never taken apart and written anew.

use vstd::prelude::*;
use crate::text::{
    chars_of, count_bytes, decimal_text, eq_ignoring_case, find_place, lower_chars, whitespace,
};
use crate::xml_tags::{slashes_start, word_bounds};
use crate::xml_utils::{escape_xml_text, index_of, matches_at};

verus! {

/// The text with what stands from `start` to `end` replaced.
pub open spec fn spliced(s: Seq<char>, start: int, end: int, new: Seq<char>) -> Seq<char> {
    s.take(start) + new + s.skip(end)
}

/// The text with what stands from `start` to `end` replaced.
pub fn splice(s: &[char], start: usize, end: usize, new: &[char]) -> (r: Vec<char>)
    requires
        start <= end <= s.len(),
    ensures
        r@ == spliced(s@, start as int, end as int, new@),
{
    let mut r: Vec<char> = Vec::new();
    push_all(&mut r, vstd::slice::slice_subrange(s, 0, start));
    push_all(&mut r, new);
    push_all(&mut r, vstd::slice::slice_subrange(s, end, s.len()));
    assert(r@ =~= spliced(s@, start as int, end as int, new@));
    r
}

/// Appends characters.
pub fn push_all(r: &mut Vec<char>, more: &[char])
    ensures
        final(r)@ == old(r)@ + more@,
{
    let ghost before = r@;
    let mut i: usize = 0;
    assert(before + more@.take(0) =~= before);
    while i < more.len()
        invariant
            i <= more.len(),
            r@ == before + more@.take(i as int),
        decreases more.len() - i,
    {
        r.push(more[i]);
        assert(r@ =~= before + more@.take(i as int + 1));
        i += 1;
    }
    assert(more@.take(more@.len() as int) =~= more@);
}

/// Appends the characters of a string.
pub fn push_text(r: &mut Vec<char>, more: &str)
    ensures
        final(r)@ == old(r)@ + more@,
{
    let chars = chars_of(more);
    push_all(r, &chars);
}

/// The offset of the first occurrence of a pattern from `from` on.
pub open spec fn find_text(s: Seq<char>, pattern: Seq<char>, from: int) -> Option<int>
    decreases s.len() + 1 - from,
{
    if from > s.len() {
        None
    } else if crate::xml_utils::stands_at(s, pattern, from) {
        Some(from)
    } else {
        find_text(s, pattern, from + 1)
    }
}

/// The offset of the first occurrence is where the pattern stands, and not before.
pub proof fn lemma_find_text(s: Seq<char>, pattern: Seq<char>, from: int)
    requires
        0 <= from,
    ensures
        match find_text(s, pattern, from) {
            Some(at) => from <= at && crate::xml_utils::stands_at(s, pattern, at) && forall|j: int|
                from <= j < at ==> !#[trigger] crate::xml_utils::stands_at(s, pattern, j),
            None => forall|j: int|
                from <= j ==> !#[trigger] crate::xml_utils::stands_at(s, pattern, j),
        },
    decreases s.len() + 1 - from,
{
    if from <= s.len() && !crate::xml_utils::stands_at(s, pattern, from) {
        lemma_find_text(s, pattern, from + 1);
    }
}

/// The offset of the first occurrence of a pattern from `from` on.
pub fn index_of_text(s: &[char], pattern: &str, from: usize) -> (r: Option<usize>)
    ensures
        match r {
            Some(at) => {
                &&& find_text(s@, pattern@, from as int) == Some(at as int)
                &&& from <= at
                &&& at + pattern@.len() <= s.len()
            },
            None => find_text(s@, pattern@, from as int) is None,
        },
{
    let wanted = chars_of(pattern);
    index_of_chars(s, &wanted, from)
}

/// The offset of the first occurrence of characters from `from` on.
pub fn index_of_chars(s: &[char], wanted: &[char], from: usize) -> (r: Option<usize>)
    ensures
        match r {
            Some(at) => {
                &&& find_text(s@, wanted@, from as int) == Some(at as int)
                &&& from <= at
                &&& at + wanted@.len() <= s.len()
            },
            None => find_text(s@, wanted@, from as int) is None,
        },
{
    let mut i: usize = from;
    while i < s.len()
        invariant
            from <= i,
            find_text(s@, wanted@, from as int) == find_text(s@, wanted@, i as int),
        decreases s.len() - i,
    {
        if matches_at(s, wanted, i) {
            return Some(i);
        }
        i += 1;
    }
    if matches_at(s, wanted, i) {
        return Some(i);
    }
    proof {
        lemma_find_text(s@, wanted@, i as int);
        if find_text(s@, wanted@, i as int) is Some {
            assert(i == s.len());
        }
    }
    None
}

/// The offset of the last occurrence of a pattern that starts at `to` or before.
pub open spec fn find_last_text(s: Seq<char>, pattern: Seq<char>, to: int) -> Option<int>
    decreases to + 1,
{
    if to < 0 {
        None
    } else if crate::xml_utils::stands_at(s, pattern, to) {
        Some(to)
    } else {
        find_last_text(s, pattern, to - 1)
    }
}

/// The offset of the last occurrence of a pattern.
pub fn last_index_of_text(s: &[char], pattern: &[char]) -> (r: Option<usize>)
    ensures
        match r {
            Some(at) => {
                &&& find_last_text(s@, pattern@, s@.len() as int) == Some(at as int)
                &&& at + pattern@.len() <= s.len()
            },
            None => find_last_text(s@, pattern@, s@.len() as int) is None,
        },
{
    let mut i: usize = s.len();
    loop
        invariant
            i <= s.len(),
            find_last_text(s@, pattern@, s@.len() as int) == find_last_text(
                s@,
                pattern@,
                i as int,
            ),
        decreases i,
    {
        if matches_at(s, pattern, i) {
            return Some(i);
        }
        if i == 0 {
            proof {
                reveal_with_fuel(find_last_text, 2);
            }
            return None;
        }
        i -= 1;
    }
}

/// The pattern occurs in the text.
pub open spec fn occurs(s: Seq<char>, pattern: Seq<char>) -> bool {
    find_text(s, pattern, 0) is Some
}

pub fn contains_text(s: &[char], pattern: &str) -> (b: bool)
    ensures
        b == occurs(s@, pattern@),
{
    index_of_text(s, pattern, 0).is_some()
}

/// The text ends with the pattern.
pub open spec fn ends_with(s: Seq<char>, pattern: Seq<char>) -> bool {
    crate::xml_utils::stands_at(s, pattern, s.len() - pattern.len())
}

pub fn has_ending(s: &[char], pattern: &str) -> (b: bool)
    ensures
        b == ends_with(s@, pattern@),
{
    let wanted = chars_of(pattern);
    if wanted.len() > s.len() {
        return false;
    }
    matches_at(s, &wanted, s.len() - wanted.len())
}

/// The pattern stands at this offset when ASCII capitals and small letters count
/// as equal.
pub open spec fn resembles_at(s: Seq<char>, pattern: Seq<char>, at: int) -> bool {
    0 <= at && at + pattern.len() <= s.len() && crate::text::same_ignoring_case(
        s.subrange(at, at + pattern.len()),
        pattern,
    )
}

/// The offset of the first occurrence of a pattern from `from` on when ASCII
/// capitals and small letters count as equal.
pub open spec fn find_ignoring_case(s: Seq<char>, pattern: Seq<char>, from: int) -> Option<int>
    decreases s.len() - from,
{
    if from >= s.len() {
        None
    } else if resembles_at(s, pattern, from) {
        Some(from)
    } else {
        find_ignoring_case(s, pattern, from + 1)
    }
}

/// What was found is there.
pub proof fn lemma_find_ignoring_case(s: Seq<char>, pattern: Seq<char>, from: int)
    ensures
        find_ignoring_case(s, pattern, from) matches Some(at) ==> from <= at < s.len()
            && resembles_at(s, pattern, at),
    decreases s.len() - from,
{
    if from < s.len() && !resembles_at(s, pattern, from) {
        lemma_find_ignoring_case(s, pattern, from + 1);
    }
}

/// In ASCII a search in lower case is one in which capitals and small letters count
/// as equal.
pub proof fn lemma_plain_find(s: Seq<char>, pattern: Seq<char>, from: int)
    requires
        crate::text::is_plain(s),
        crate::text::is_plain(pattern),
        pattern.len() > 0,
        0 <= from,
    ensures
        find_text(crate::text::lowered(s), crate::text::lowered(pattern), from)
            == find_ignoring_case(s, pattern, from),
    decreases s.len() + 1 - from,
{
    let lower = crate::text::lowered(s);
    let wanted = crate::text::lowered(pattern);
    crate::text::lemma_plain_lowered(s);
    crate::text::lemma_plain_lowered(pattern);
    if from <= s.len() {
        lemma_plain_find(s, pattern, from + 1);
        if from + pattern.len() <= s.len() {
            let here = lower.subrange(from, from + wanted.len());
            let there = s.subrange(from, from + pattern.len());
            if crate::xml_utils::stands_at(lower, wanted, from) {
                assert forall|i: int| 0 <= i < there.len() implies crate::text::ascii_lower(
                    #[trigger] there[i],
                ) == crate::text::ascii_lower(pattern[i]) by {
                    assert(here[i] == lower[from + i]);
                    assert(there[i] == s[from + i]);
                    assert(here[i] == wanted[i]);
                }
            }
            if resembles_at(s, pattern, from) {
                assert forall|i: int| 0 <= i < here.len() implies here[i] == wanted[i] by {
                    assert(here[i] == lower[from + i]);
                    assert(there[i] == s[from + i]);
                }
                assert(here =~= wanted);
            }
        }
    }
}

/// The text without white space at both ends.
pub open spec fn trimmed(s: Seq<char>) -> Seq<char>
    decreases s.len(),
{
    if s.len() == 0 {
        s
    } else if crate::text::is_whitespace(s[0]) {
        trimmed(s.skip(1))
    } else if crate::text::is_whitespace(s.last()) {
        trimmed(s.drop_last())
    } else {
        s
    }
}

/// The bounds of `s[from..to]` without white space at both ends.
pub fn trimmed_bounds(s: &[char], from: usize, to: usize) -> (r: (usize, usize))
    requires
        from <= to <= s.len(),
    ensures
        from <= r.0 <= r.1 <= to,
        s@.subrange(r.0 as int, r.1 as int) == trimmed(s@.subrange(from as int, to as int)),
{
    let mut a: usize = from;
    let mut b: usize = to;
    while a < b && whitespace(s[a])
        invariant
            from <= a <= b == to <= s.len(),
            trimmed(s@.subrange(from as int, to as int)) == trimmed(
                s@.subrange(a as int, b as int),
            ),
        decreases b - a,
    {
        assert(s@.subrange(a as int, b as int).skip(1) =~= s@.subrange(a as int + 1, b as int));
        a += 1;
    }
    while a < b && whitespace(s[b - 1])
        invariant
            from <= a <= b <= to <= s.len(),
            a < b ==> !crate::text::is_whitespace(s@[a as int]),
            trimmed(s@.subrange(from as int, to as int)) == trimmed(
                s@.subrange(a as int, b as int),
            ),
        decreases b - a,
    {
        assert(s@.subrange(a as int, b as int).drop_last() =~= s@.subrange(
            a as int,
            b as int - 1,
        ));
        b -= 1;
    }
    (a, b)
}

/// The number that decimal digits stand for, with a plus sign in front of them or
/// not, where it does not exceed the limit.
pub open spec fn unsigned_decimal(s: Seq<char>, limit: nat) -> Option<nat> {
    let bare = crate::xml_utils::without_plus(s);
    if bare.len() == 0 {
        None
    } else {
        match crate::xml_utils::radix_value(bare, 10) {
            Some(n) => if n <= limit {
                Some(n)
            } else {
                None
            },
            None => None,
        }
    }
}

/// The number that decimal digits stand for.
pub fn parse_decimal(s: &[char], limit: u64) -> (r: Option<u64>)
    ensures
        match r {
            Some(n) => unsigned_decimal(s@, limit as nat) == Some(n as nat),
            None => unsigned_decimal(s@, limit as nat) is None,
        },
{
    let start: usize = if s.len() > 1 && s[0] == '+' {
        1
    } else {
        0
    };
    let bare = vstd::slice::slice_subrange(s, start, s.len());
    assert(bare@ =~= crate::xml_utils::without_plus(s@));
    if bare.len() == 0 {
        return None;
    }
    let mut value: u128 = 0;
    let mut i: usize = 0;
    while i < bare.len()
        invariant
            i <= bare.len(),
            bare@ == crate::xml_utils::without_plus(s@),
            bare@.len() > 0,
            value <= limit,
            crate::xml_utils::radix_value(bare@.take(i as int), 10) == Some(value as nat),
        decreases bare.len() - i,
    {
        proof {
            assert(bare@.take(i as int + 1).drop_last() =~= bare@.take(i as int));
            crate::xml_utils::lemma_radix_grows(bare@, i as int + 1, 10);
        }
        let d: u32 = match crate::xml_utils::digit_of(bare[i], 10) {
            Some(d) => d,
            None => return None,
        };
        value = value * 10 + d as u128;
        if value > limit as u128 {
            return None;
        }
        i += 1;
    }
    assert(bare@.take(bare@.len() as int) =~= bare@);
    Some(value as u64)
}

/// A tag of a document: where it starts, just behind its `>`, and the namespace
/// prefix of its name with the colon.
pub struct TagSpan {
    pub start: int,
    pub end: int,
    pub prefix: Seq<char>,
}

/// The name of an opening tag as it is written, given what stands between `<` and
/// `>`.
pub open spec fn written_name(inner: Seq<char>) -> Seq<char> {
    crate::xml_tags::without_slashes(crate::xml_tags::first_word(inner))
}

/// The namespace prefix of a name, with its colon.
pub open spec fn name_prefix(name: Seq<char>) -> Seq<char> {
    match crate::xml_utils::find_char(name, ':', 0) {
        Some(colon) => name.take(colon + 1),
        None => Seq::empty(),
    }
}

/// The part of a name behind its first colon, up to the next one.
pub open spec fn name_local(name: Seq<char>) -> Seq<char> {
    match crate::xml_utils::find_char(name, ':', 0) {
        Some(colon) => match crate::xml_utils::find_char(name, ':', colon + 1) {
            Some(next) => name.subrange(colon + 1, next),
            None => name.skip(colon + 1),
        },
        None => name,
    }
}

/// An opening tag can start here: at a `<` that starts no closing tag, comment,
/// declaration or instruction.
pub open spec fn opens_at(xml: Seq<char>, pos: int) -> bool {
    xml[pos] == '<' && !(pos + 1 < xml.len() && (xml[pos + 1] == '/' || xml[pos + 1] == '!'
        || xml[pos + 1] == '?'))
}

/// The first opening tag from `from` on whose local name is the given one, capitals
/// or not. The search ends at a tag without `>`.
pub open spec fn tag_from(xml: Seq<char>, from: int, local: Seq<char>) -> Option<TagSpan>
    decreases xml.len() - from,
    when 0 <= from
{
    if from >= xml.len() {
        None
    } else if !opens_at(xml, from) {
        tag_from(xml, from + 1, local)
    } else {
        match crate::xml_utils::find_char(xml, '>', from) {
            None => None,
            Some(close) => {
                let name = written_name(xml.subrange(from + 1, close));
                if crate::text::same_ignoring_case(name_local(name), local) {
                    Some(TagSpan { start: from, end: close + 1, prefix: name_prefix(name) })
                } else {
                    tag_from(xml, from + 1, local)
                }
            },
        }
    }
}

/// A tag that was found lies in the document, and its only `>` is its last
/// character.
pub proof fn lemma_tag(xml: Seq<char>, from: int, local: Seq<char>)
    requires
        0 <= from,
    ensures
        tag_from(xml, from, local) matches Some(t) ==> {
            &&& from <= t.start
            &&& t.start + 1 < t.end <= xml.len()
            &&& xml[t.start] == '<'
            &&& xml[t.end - 1] == '>'
            &&& forall|j: int| t.start <= j < t.end - 1 ==> xml[j] != '>'
        },
    decreases xml.len() - from,
{
    if from < xml.len() {
        crate::xml_utils::lemma_find_char(xml, '>', from);
        lemma_tag(xml, from + 1, local);
    }
}

/// A tag that was found in a document.
pub struct FoundTag {
    pub start: usize,
    pub end: usize,
    pub prefix: Vec<char>,
}

impl View for FoundTag {
    type V = TagSpan;

    open spec fn view(&self) -> TagSpan {
        TagSpan { start: self.start as int, end: self.end as int, prefix: self.prefix@ }
    }
}

/// The first opening tag from `from` on whose local name is the given one.
pub fn find_tag(xml: &[char], from: usize, local: &str) -> (r: Option<FoundTag>)
    ensures
        match r {
            Some(t) => tag_from(xml@, from as int, local@) == Some(t@) && from <= t.start && t.start
                + 1 < t.end <= xml.len(),
            None => tag_from(xml@, from as int, local@) is None,
        },
{
    let wanted = chars_of(local);
    let mut pos: usize = from;
    while pos < xml.len()
        invariant
            from <= pos,
            wanted@ == local@,
            tag_from(xml@, from as int, local@) == tag_from(xml@, pos as int, local@),
        decreases xml.len() - pos,
    {
        if xml[pos] == '<' && !(pos + 1 < xml.len() && (xml[pos + 1] == '/' || xml[pos + 1] == '!'
            || xml[pos + 1] == '?')) {
            match index_of(xml, '>', pos) {
                None => return None,
                Some(close) => {
                    let (a, b) = word_bounds(xml, pos + 1, close);
                    let c: usize = slashes_start(xml, a, b);
                    let name = vstd::slice::slice_subrange(xml, a, c);
                    let mut local_from: usize = 0;
                    let mut local_to: usize = name.len();
                    match index_of(name, ':', 0) {
                        Some(colon) => {
                            local_from = colon + 1;
                            match index_of(name, ':', colon + 1) {
                                Some(next) => local_to = next,
                                None => {},
                            }
                        },
                        None => {},
                    }
                    let found = vstd::slice::slice_subrange(name, local_from, local_to);
                    assert(found@ =~= name_local(name@));
                    if eq_ignoring_case(found, &wanted) {
                        let prefix = vstd::slice::slice_to_vec(
                            vstd::slice::slice_subrange(name, 0, local_from),
                        );
                        assert(prefix@ =~= name_prefix(name@));
                        return Some(FoundTag { start: pos, end: close + 1, prefix });
                    }
                },
            }
        }
        pos += 1;
    }
    None
}

/// The bounds of the first tag from `from` on with the given local name that
/// closes itself.
pub open spec fn empty_tag_from(xml: Seq<char>, from: int, local: Seq<char>) -> Option<(int, int)>
    decreases xml.len() - from,
    when 0 <= from
{
    proof {
        lemma_tag(xml, from, local);
    }
    match tag_from(xml, from, local) {
        None => None,
        Some(t) => if ends_with(xml.subrange(t.start, t.end), "/>"@) {
            Some((t.start, t.end))
        } else {
            empty_tag_from(xml, t.end, local)
        },
    }
}

/// The bounds of the first tag with the given local name that closes itself.
pub fn find_self_closing(xml: &[char], local: &str) -> (r: Option<(usize, usize)>)
    ensures
        match r {
            Some((start, end)) => empty_tag_from(xml@, 0, local@) == Some(
                (start as int, end as int),
            ) && start <= end <= xml.len(),
            None => empty_tag_from(xml@, 0, local@) is None,
        },
{
    let mut search: usize = 0;
    loop
        invariant
            search <= xml.len(),
            empty_tag_from(xml@, 0, local@) == empty_tag_from(xml@, search as int, local@),
        decreases xml.len() - search,
    {
        match find_tag(xml, search, local) {
            None => return None,
            Some(t) => {
                if has_ending(vstd::slice::slice_subrange(xml, t.start, t.end), "/>") {
                    return Some((t.start, t.end));
                }
                search = t.end;
            },
        }
    }
}

/// The place in a tag that lies so many bytes in as a key that stands at `at` of the
/// tag in lower case ends.
pub open spec fn place_behind_key(tag: Seq<char>, key: Seq<char>, at: int) -> Option<int> {
    crate::text::place_at(
        tag,
        crate::text::bytes_before(crate::text::lowered(tag), at) + crate::text::bytes_before(
            key,
            key.len() as int,
        ),
    )
}

/// The search in lower case goes forward.
pub proof fn lemma_search_on(tag: Seq<char>, key: Seq<char>, from: int)
    requires
        0 <= from,
        key.len() > 0,
    ensures
        ({
            let lower = crate::text::lowered(tag);
            find_text(lower, crate::text::lowered(key), from) matches Some(at) ==> {
                &&& from <= at <= lower.len()
                &&& crate::text::place_at(
                    lower,
                    crate::text::bytes_before(lower, at) + crate::text::bytes_before(
                        key,
                        key.len() as int,
                    ),
                ) matches Some(next) ==> from < next <= lower.len()
            }
        }),
{
    let lower = crate::text::lowered(tag);
    lemma_find_text(lower, crate::text::lowered(key), from);
    if let Some(at) = find_text(lower, crate::text::lowered(key), from) {
        let bytes = crate::text::bytes_before(lower, at) + crate::text::bytes_before(
            key,
            key.len() as int,
        );
        crate::text::lemma_bytes_grow(key, 0, key.len() as int);
        crate::text::lemma_place_behind(lower, 0, bytes);
        if let Some(next) = crate::text::place_at(lower, bytes) {
            if next <= at {
                crate::text::lemma_bytes_grow(lower, next, at);
            }
        }
    }
}

/// The bounds of the quoted value behind the first occurrence of `name=` from
/// `from` on that a quotation mark follows. The key is looked for in the tag in
/// lower case, and what follows it is taken from the tag as it is, as many bytes in;
/// where that is no place between two characters, there is no value.
pub open spec fn value_span_from(tag: Seq<char>, key: Seq<char>, from: int) -> Option<(int, int)>
    decreases crate::text::lowered(tag).len() - from,
    when 0 <= from && key.len() > 0
{
    proof {
        lemma_search_on(tag, key, from);
    }
    let lower = crate::text::lowered(tag);
    match find_text(lower, crate::text::lowered(key), from) {
        None => None,
        Some(at) => match place_behind_key(tag, key, at) {
            None => None,
            Some(quote) => if quote >= tag.len() {
                None
            } else if tag[quote] != '"' && tag[quote] != '\'' {
                match crate::text::place_at(
                    lower,
                    crate::text::bytes_before(lower, at) + crate::text::bytes_before(
                        key,
                        key.len() as int,
                    ),
                ) {
                    None => None,
                    Some(next) => value_span_from(tag, key, next),
                }
            } else {
                match crate::xml_utils::find_char(tag, tag[quote], quote + 1) {
                    Some(end) => Some((quote + 1, end)),
                    None => None,
                }
            },
        },
    }
}

/// The bounds of the value of an attribute, without its quotation marks.
pub fn find_attr_value_span(tag: &[char], name: &str) -> (r: Option<(usize, usize)>)
    ensures
        match r {
            Some((start, end)) => value_span_from(tag@, name@ + "="@, 0) == Some(
                (start as int, end as int),
            ) && start <= end <= tag.len(),
            None => value_span_from(tag@, name@ + "="@, 0) is None,
        },
{
    let mut key = chars_of(name);
    push_text(&mut key, "=");
    proof {
        reveal_strlit("=");
    }
    let lower = lower_chars(tag);
    let wanted = lower_chars(&key);
    let width: u128 = count_bytes(&key, key.len());
    let mut search: usize = 0;
    loop
        invariant
            search <= lower.len(),
            key@ == name@ + "="@,
            key@.len() > 0,
            lower@ == crate::text::lowered(tag@),
            wanted@ == crate::text::lowered(key@),
            width == crate::text::bytes_before(key@, key@.len() as int),
            width <= 4 * key.len(),
            value_span_from(tag@, key@, 0) == value_span_from(tag@, key@, search as int),
        decreases lower.len() - search,
    {
        proof {
            lemma_search_on(tag@, key@, search as int);
        }
        match index_of_chars(&lower, &wanted, search) {
            None => return None,
            Some(at) => {
                let behind: u128 = count_bytes(&lower, at) + width;
                let quote: usize = match find_place(tag, behind) {
                    None => return None,
                    Some(quote) => quote,
                };
                if quote >= tag.len() {
                    return None;
                }
                if tag[quote] != '"' && tag[quote] != '\'' {
                    match find_place(&lower, behind) {
                        None => return None,
                        Some(next) => search = next,
                    }
                } else {
                    return match index_of(tag, tag[quote], quote + 1) {
                        Some(end) => Some((quote + 1, end)),
                        None => None,
                    };
                }
            },
        }
    }
}

/// The name of an attribute stands in a tag, capitals or not.
pub open spec fn has_attribute(tag: Seq<char>, name: Seq<char>) -> bool {
    occurs(crate::text::lowered(tag), crate::text::lowered(" "@ + name + "="@))
}

/// The tag with an attribute set. A value that is there already is replaced
/// between its quotation marks, else the attribute is added at the tag's end.
pub open spec fn with_attribute(tag: Seq<char>, name: Seq<char>, value: Seq<char>) -> Seq<char> {
    let escaped = crate::xml_utils::escaped_text(value);
    let span = value_span_from(tag, name + "="@, 0);
    if has_attribute(tag, name) && span is Some {
        let (start, end) = span->0;
        spliced(tag, start, end, escaped)
    } else {
        let added = " "@ + name + "=\""@ + escaped + "\""@;
        if ends_with(tag, "/>"@) {
            tag.take(tag.len() - 2) + added + "/>"@
        } else {
            tag.drop_last() + added + ">"@
        }
    }
}

/// The tag with an attribute set.
pub fn replace_or_add_xml_attribute(tag: &[char], name: &str, value: &str) -> (r: Vec<char>)
    requires
        tag.len() > 0,
    ensures
        r@ == with_attribute(tag@, name@, value@),
{
    let escaped_value = escape_xml_text(value);
    let escaped = chars_of(escaped_value.as_str());
    let mut needle = chars_of(" ");
    push_text(&mut needle, name);
    push_text(&mut needle, "=");
    let lower = lower_chars(tag);
    let wanted = lower_chars(&needle);
    if index_of_chars(&lower, &wanted, 0).is_some() {
        match find_attr_value_span(tag, name) {
            Some((start, end)) => return splice(tag, start, end, &escaped),
            None => {},
        }
    }
    let closed = has_ending(tag, "/>");
    proof {
        reveal_strlit("/>");
    }
    let kept: usize = if closed {
        tag.len() - 2
    } else {
        tag.len() - 1
    };
    let mut r = vstd::slice::slice_to_vec(vstd::slice::slice_subrange(tag, 0, kept));
    push_text(&mut r, " ");
    push_text(&mut r, name);
    push_text(&mut r, "=\"");
    push_all(&mut r, &escaped);
    push_text(&mut r, "\"");
    if closed {
        push_text(&mut r, "/>");
    } else {
        push_text(&mut r, ">");
    }
    assert(r@ =~= with_attribute(tag@, name@, value@));
    r
}

/// The tag with the value of an attribute that stands in double quotation marks
/// replaced by a number, as it is where there is no such attribute.
pub open spec fn with_number(tag: Seq<char>, name: Seq<char>, value: int) -> Seq<char> {
    let key = name + "=\""@;
    match find_text(crate::text::lowered(tag), crate::text::lowered(key), 0) {
        None => tag,
        Some(at) => match place_behind_key(tag, key, at) {
            None => tag,
            Some(start) => match crate::xml_utils::find_char(tag, '"', start) {
                None => tag,
                Some(end) => spliced(tag, start, end, crate::text::decimal(value)),
            },
        },
    }
}

/// The tag with the value of an attribute replaced by a number.
pub fn replace_int_attr(tag: &[char], name: &str, value: u64) -> (r: Vec<char>)
    ensures
        r@ == with_number(tag@, name@, value as int),
{
    let mut needle = chars_of(name);
    push_text(&mut needle, "=\"");
    proof {
        reveal_strlit("=\"");
    }
    let lower = lower_chars(tag);
    let wanted = lower_chars(&needle);
    match index_of_chars(&lower, &wanted, 0) {
        None => {},
        Some(at) => {
            let width: u128 = count_bytes(&needle, needle.len());
            match find_place(tag, count_bytes(&lower, at) + width) {
                None => {},
                Some(start) => match index_of(tag, '"', start) {
                    None => {},
                    Some(end) => {
                        let text = decimal_text(value as i128);
                        let digits = chars_of(text.as_str());
                        return splice(tag, start, end, &digits);
                    },
                },
            }
        },
    }
    vstd::slice::slice_to_vec(tag)
}

/// Replacing the value of an attribute that is there changes nothing but the
/// value.
pub proof fn law_attribute_is_replaced_in_place(
    tag: Seq<char>,
    name: Seq<char>,
    value: Seq<char>,
)
    requires
        has_attribute(tag, name),
        value_span_from(tag, name + "="@, 0) is Some,
    ensures
        ({
            let (start, end) = value_span_from(tag, name + "="@, 0)->0;
            let escaped = crate::xml_utils::escaped_text(value);
            let new = with_attribute(tag, name, value);
            &&& 0 < start <= end < tag.len()
            &&& new.len() == tag.len() - (end - start) + escaped.len()
            &&& new.take(start) == tag.take(start)
            &&& new.subrange(start, start + escaped.len()) == escaped
            &&& new.skip(start + escaped.len()) == tag.skip(end)
        }),
{
    reveal_strlit("=");
    lemma_value_span(tag, name + "="@, 0);
    let (start, end) = value_span_from(tag, name + "="@, 0)->0;
    let escaped = crate::xml_utils::escaped_text(value);
    let new = with_attribute(tag, name, value);
    assert(new.take(start) =~= tag.take(start));
    assert(new.subrange(start, start + escaped.len()) =~= escaped);
    assert(new.skip(start + escaped.len()) =~= tag.skip(end));
}

/// The value of an attribute lies in its tag, in front of its closing quotation
/// mark.
pub proof fn lemma_value_span(tag: Seq<char>, key: Seq<char>, from: int)
    requires
        0 <= from,
        key.len() > 0,
    ensures
        value_span_from(tag, key, from) matches Some((start, end)) ==> 0 < start <= end
            < tag.len(),
    decreases crate::text::lowered(tag).len() - from,
{
    let lower = crate::text::lowered(tag);
    lemma_search_on(tag, key, from);
    if let Some(at) = find_text(lower, crate::text::lowered(key), from) {
        let bytes = crate::text::bytes_before(lower, at) + crate::text::bytes_before(
            key,
            key.len() as int,
        );
        crate::text::lemma_place_behind(tag, 0, bytes);
        if let Some(quote) = place_behind_key(tag, key, at) {
            if quote < tag.len() {
                if tag[quote] != '"' && tag[quote] != '\'' {
                    if let Some(next) = crate::text::place_at(lower, bytes) {
                        lemma_value_span(tag, key, next);
                    }
                } else {
                    crate::xml_utils::lemma_find_char(tag, tag[quote], quote + 1);
                }
            }
        }
    }
}

/// In a tag of ASCII, the value behind the first occurrence of its key in quotation
/// marks.
pub proof fn lemma_plain_value(tag: Seq<char>, key: Seq<char>, at: int)
    requires
        crate::text::is_plain(tag),
        crate::text::is_plain(key),
        key.len() > 0,
        find_ignoring_case(tag, key, 0) == Some(at),
        at + key.len() < tag.len(),
        tag[at + key.len()] == '"' || tag[at + key.len()] == '\'',
    ensures
        ({
            let quote = at + key.len();
            value_span_from(tag, key, 0) == match crate::xml_utils::find_char(
                tag,
                tag[quote],
                quote + 1,
            ) {
                Some(end) => Some((quote + 1, end)),
                None => None,
            }
        }),
{
    let lower = crate::text::lowered(tag);
    lemma_plain_find(tag, key, 0);
    lemma_find_ignoring_case(tag, key, 0);
    crate::text::lemma_plain_lowered(tag);
    crate::text::lemma_plain_bytes(lower, at);
    crate::text::lemma_plain_bytes(key, key.len() as int);
    crate::text::lemma_plain_place(tag, 0, at + key.len());
}

} // verus!
