//! A small forward scanner for XML tags and attributes.
//!
//! Documents are sequences of characters. The scanner builds no tree; tags are
//! found by their local names, whatever namespace prefix they carry.

use vstd::prelude::*;
use crate::text::{chars_of, eq_chars, eq_ignoring_case, whitespace};
use crate::xml_utils::{index_of, unescape_chars};

verus! {

/// The first offset from `from` on at which a character of the kind stands, the
/// length of the text where there is none.
pub open spec fn scan(s: Seq<char>, from: int, stop: spec_fn(char) -> bool) -> int
    decreases s.len() - from,
{
    if from >= s.len() {
        s.len() as int
    } else if stop(s[from]) {
        from
    } else {
        scan(s, from + 1, stop)
    }
}

/// A scan stops at the first character of its kind.
pub proof fn lemma_scan(s: Seq<char>, from: int, stop: spec_fn(char) -> bool)
    requires
        0 <= from <= s.len(),
    ensures
        from <= scan(s, from, stop) <= s.len(),
        scan(s, from, stop) < s.len() ==> stop(s[scan(s, from, stop)]),
        forall|j: int| from <= j < scan(s, from, stop) ==> !stop(#[trigger] s[j]),
    decreases s.len() - from,
{
    if from < s.len() && !stop(s[from]) {
        lemma_scan(s, from + 1, stop);
    }
}

/// The white space of XML tags.
pub open spec fn is_space(c: char) -> bool {
    c == ' ' || c == '\t' || c == '\n' || c == '\r' || c == '\u{c}'
}

fn space(c: char) -> (b: bool)
    ensures
        b == is_space(c),
{
    c == ' ' || c == '\t' || c == '\n' || c == '\r' || c == '\u{c}'
}

/// The first word of a text: its first run of characters that are not white
/// space.
pub open spec fn first_word(s: Seq<char>) -> Seq<char> {
    let start = scan(s, 0, |c: char| !crate::text::is_whitespace(c));
    let end = scan(s, start, |c: char| crate::text::is_whitespace(c));
    s.subrange(start, end)
}

/// What follows the last colon of a name, the whole name where there is none.
pub open spec fn after_last_colon(s: Seq<char>) -> Seq<char>
    decreases s.len(),
{
    if s.len() == 0 {
        s
    } else if s.last() == ':' {
        Seq::empty()
    } else {
        after_last_colon(s.drop_last()).push(s.last())
    }
}

/// A name without the slashes at its end.
pub open spec fn without_slashes(s: Seq<char>) -> Seq<char>
    decreases s.len(),
{
    if s.len() > 0 && s.last() == '/' {
        without_slashes(s.drop_last())
    } else {
        s
    }
}

/// The bounds of the first word of `s[from..to]`.
pub fn word_bounds(s: &[char], from: usize, to: usize) -> (r: (usize, usize))
    requires
        from <= to <= s.len(),
    ensures
        from <= r.0 <= r.1 <= to,
        s@.subrange(r.0 as int, r.1 as int) == first_word(s@.subrange(from as int, to as int)),
{
    let ghost part = s@.subrange(from as int, to as int);
    let ghost full = |c: char| !crate::text::is_whitespace(c);
    let ghost blank = |c: char| crate::text::is_whitespace(c);
    let mut start: usize = from;
    while start < to && whitespace(s[start])
        invariant
            from <= start <= to <= s.len(),
            part == s@.subrange(from as int, to as int),
            full == (|c: char| !crate::text::is_whitespace(c)),
            scan(part, 0, full) == scan(part, start - from, full),
        decreases to - start,
    {
        assert(part[start - from] == s@[start as int]);
        start += 1;
    }
    proof {
        if start < to {
            assert(part[start - from] == s@[start as int]);
        }
        assert(scan(part, 0, full) == start - from);
    }
    let mut end: usize = start;
    while end < to && !whitespace(s[end])
        invariant
            from <= start <= end <= to <= s.len(),
            part == s@.subrange(from as int, to as int),
            blank == (|c: char| crate::text::is_whitespace(c)),
            scan(part, start - from, blank) == scan(part, end - from, blank),
        decreases to - end,
    {
        assert(part[end - from] == s@[end as int]);
        end += 1;
    }
    proof {
        if end < to {
            assert(part[end - from] == s@[end as int]);
        }
        assert(scan(part, start - from, blank) == end - from);
        assert(s@.subrange(start as int, end as int) =~= part.subrange(start - from, end - from));
    }
    (start, end)
}

/// Where what follows the last colon of `s[from..to]` starts.
fn local_start(s: &[char], from: usize, to: usize) -> (r: usize)
    requires
        from <= to <= s.len(),
    ensures
        from <= r <= to,
        s@.subrange(r as int, to as int) == after_last_colon(s@.subrange(from as int, to as int)),
{
    let mut i: usize = to;
    proof {
        lemma_after_last_colon(s@.subrange(from as int, to as int));
    }
    while i > from
        invariant
            from <= i <= to <= s.len(),
            forall|j: int| i <= j < to ==> s@[j] != ':',
        decreases i,
    {
        if s[i - 1] == ':' {
            proof {
                let part = s@.subrange(from as int, to as int);
                lemma_colon_split(part, i - from - 1);
                assert(part.skip(i - from) =~= s@.subrange(i as int, to as int));
            }
            return i;
        }
        i -= 1;
    }
    proof {
        let part = s@.subrange(from as int, to as int);
        assert forall|j: int| 0 <= j < part.len() implies part[j] != ':' by {}
        lemma_no_colon(part);
    }
    from
}

proof fn lemma_after_last_colon(s: Seq<char>)
    ensures
        after_last_colon(s).len() <= s.len(),
    decreases s.len(),
{
    if s.len() > 0 && s.last() != ':' {
        lemma_after_last_colon(s.drop_last());
    }
}

pub proof fn lemma_no_colon(s: Seq<char>)
    requires
        forall|j: int| 0 <= j < s.len() ==> s[j] != ':',
    ensures
        after_last_colon(s) == s,
    decreases s.len(),
{
    if s.len() > 0 {
        lemma_no_colon(s.drop_last());
        assert(s.drop_last().push(s.last()) =~= s);
    }
}

proof fn lemma_colon_split(s: Seq<char>, at: int)
    requires
        0 <= at < s.len(),
        s[at] == ':',
        forall|j: int| at < j < s.len() ==> s[j] != ':',
    ensures
        after_last_colon(s) == s.skip(at + 1),
    decreases s.len(),
{
    if at == s.len() - 1 {
        assert(s.skip(at + 1) =~= Seq::<char>::empty());
    } else {
        lemma_colon_split(s.drop_last(), at);
        assert(s.drop_last().skip(at + 1).push(s.last()) =~= s.skip(at + 1));
    }
}

/// Where the slashes at the end of `s[from..to]` start.
pub fn slashes_start(s: &[char], from: usize, to: usize) -> (r: usize)
    requires
        from <= to <= s.len(),
    ensures
        from <= r <= to,
        s@.subrange(from as int, r as int) == without_slashes(s@.subrange(from as int, to as int)),
{
    let mut i: usize = to;
    while i > from && s[i - 1] == '/'
        invariant
            from <= i <= to <= s.len(),
            without_slashes(s@.subrange(from as int, to as int)) == without_slashes(
                s@.subrange(from as int, i as int),
            ),
        decreases i,
    {
        assert(s@.subrange(from as int, i as int).drop_last() =~= s@.subrange(
            from as int,
            i as int - 1,
        ));
        i -= 1;
    }
    i
}

/// The local name of an opening tag, given what stands between `<` and `>`.
pub open spec fn local_name(inner: Seq<char>) -> Seq<char> {
    without_slashes(after_last_colon(first_word(inner)))
}

/// The end of the opening tag with this local name at `pos`, just past its `>`.
pub open spec fn open_tag_at(xml: Seq<char>, pos: int, local: Seq<char>) -> Option<int> {
    if pos >= xml.len() || xml[pos] != '<' || (pos + 1 < xml.len() && xml[pos + 1] == '/') {
        None
    } else {
        match crate::xml_utils::find_char(xml, '>', pos) {
            None => None,
            Some(end) => if local_name(xml.subrange(pos + 1, end)) == local {
                Some(end + 1)
            } else {
                None
            },
        }
    }
}

/// The bounds of the first opening tag with this local name from `from` on.
pub open spec fn open_tag_from(xml: Seq<char>, from: int, local: Seq<char>) -> Option<(int, int)>
    decreases xml.len() - from,
    when 0 <= from
{
    if from >= xml.len() {
        None
    } else {
        match open_tag_at(xml, from, local) {
            Some(end) => Some((from, end)),
            None => open_tag_from(xml, from + 1, local),
        }
    }
}

/// An opening tag that was found lies in the document.
pub proof fn lemma_open_tag(xml: Seq<char>, from: int, local: Seq<char>)
    requires
        0 <= from,
    ensures
        open_tag_from(xml, from, local) matches Some((start, end)) ==> from <= start < end
            <= xml.len(),
    decreases xml.len() - from,
{
    if from < xml.len() {
        crate::xml_utils::lemma_find_char(xml, '>', from);
        if open_tag_at(xml, from, local) is None {
            lemma_open_tag(xml, from + 1, local);
        }
    }
}

/// The bounds of the first opening tag with this local name from `from` on.
pub fn find_open_tag(xml: &[char], from: usize, local: &[char]) -> (r: Option<(usize, usize)>)
    ensures
        match r {
            Some((start, end)) => {
                &&& open_tag_from(xml@, from as int, local@) == Some((start as int, end as int))
                &&& from <= start < end <= xml.len()
            },
            None => open_tag_from(xml@, from as int, local@) is None,
        },
{
    let mut pos: usize = from;
    while pos < xml.len()
        invariant
            from <= pos,
            open_tag_from(xml@, from as int, local@) == open_tag_from(xml@, pos as int, local@),
        decreases xml.len() - pos,
    {
        if xml[pos] == '<' && !(pos + 1 < xml.len() && xml[pos + 1] == '/') {
            match index_of(xml, '>', pos) {
                Some(end) => {
                    proof {
                        crate::xml_utils::lemma_find_char(xml@, '>', pos as int);
                    }
                    let (a, b) = word_bounds(xml, pos + 1, end);
                    let c: usize = local_start(xml, a, b);
                    let d: usize = slashes_start(xml, c, b);
                    if eq_chars(vstd::slice::slice_subrange(xml, c, d), local) {
                        return Some((pos, end + 1));
                    }
                },
                None => {},
            }
        }
        pos += 1;
    }
    None
}

/// The local name of a closing tag, given what stands between `</` and `>`.
pub open spec fn closing_name(inner: Seq<char>) -> Seq<char> {
    after_last_colon(first_word(inner))
}

/// The offset of the first closing tag with this local name from `from` on, whose
/// capitals and small letters count as equal. The search ends at a closing tag
/// without `>`.
pub open spec fn close_tag_from(xml: Seq<char>, from: int, local: Seq<char>) -> Option<int>
    decreases xml.len() - from,
    when 0 <= from
{
    if from + 1 >= xml.len() {
        None
    } else if xml[from] == '<' && xml[from + 1] == '/' {
        match crate::xml_utils::find_char(xml, '>', from) {
            None => None,
            Some(end) => if crate::text::same_ignoring_case(
                closing_name(xml.subrange(from + 2, end)),
                local,
            ) {
                Some(from)
            } else {
                close_tag_from(xml, from + 2, local)
            },
        }
    } else {
        close_tag_from(xml, from + 1, local)
    }
}

/// The offset of the first closing tag with this local name from `from` on.
pub fn find_close_tag(xml: &[char], from: usize, local: &[char]) -> (r: Option<usize>)
    ensures
        match r {
            Some(at) => close_tag_from(xml@, from as int, local@) == Some(at as int) && from <= at
                < xml.len(),
            None => close_tag_from(xml@, from as int, local@) is None,
        },
{
    let mut pos: usize = from;
    while xml.len() > 1 && pos < xml.len() - 1
        invariant
            from <= pos,
            close_tag_from(xml@, from as int, local@) == close_tag_from(xml@, pos as int, local@),
        decreases xml.len() - pos,
    {
        if xml[pos] == '<' && xml[pos + 1] == '/' {
            match index_of(xml, '>', pos) {
                Some(end) => {
                    proof {
                        crate::xml_utils::lemma_find_char(xml@, '>', pos as int);
                    }
                    let (a, b) = word_bounds(xml, pos + 2, end);
                    let c: usize = local_start(xml, a, b);
                    if eq_ignoring_case(vstd::slice::slice_subrange(xml, c, b), local) {
                        return Some(pos);
                    }
                },
                None => return None,
            }
            pos += 2;
        } else {
            pos += 1;
        }
    }
    None
}

pub open spec fn spaces() -> spec_fn(char) -> bool {
    |c: char| is_space(c)
}

pub open spec fn non_spaces() -> spec_fn(char) -> bool {
    |c: char| !is_space(c)
}

/// What an attribute name can start with.
pub open spec fn name_starts() -> spec_fn(char) -> bool {
    |c: char| !is_space(c) && c != '<'
}

/// What ends the name of a tag.
pub open spec fn tag_name_ends() -> spec_fn(char) -> bool {
    |c: char| is_space(c) || c == '>' || c == '/'
}

/// What ends the name of an attribute.
pub open spec fn name_ends() -> spec_fn(char) -> bool {
    |c: char| is_space(c) || c == '=' || c == '>' || c == '/'
}

pub open spec fn is_char(wanted: char) -> spec_fn(char) -> bool {
    |c: char| c == wanted
}

fn to_space(s: &[char], from: usize) -> (r: usize)
    requires
        from <= s.len(),
    ensures
        r == scan(s@, from as int, spaces()),
        from <= r <= s.len(),
{
    let mut i: usize = from;
    while i < s.len() && !space(s[i])
        invariant
            from <= i <= s.len(),
            scan(s@, from as int, spaces()) == scan(s@, i as int, spaces()),
        decreases s.len() - i,
    {
        i += 1;
    }
    i
}

fn to_non_space(s: &[char], from: usize) -> (r: usize)
    requires
        from <= s.len(),
    ensures
        r == scan(s@, from as int, non_spaces()),
        from <= r <= s.len(),
{
    let mut i: usize = from;
    while i < s.len() && space(s[i])
        invariant
            from <= i <= s.len(),
            scan(s@, from as int, non_spaces()) == scan(s@, i as int, non_spaces()),
        decreases s.len() - i,
    {
        i += 1;
    }
    i
}

fn to_name_start(s: &[char], from: usize) -> (r: usize)
    requires
        from <= s.len(),
    ensures
        r == scan(s@, from as int, name_starts()),
        from <= r <= s.len(),
{
    let mut i: usize = from;
    while i < s.len() && (space(s[i]) || s[i] == '<')
        invariant
            from <= i <= s.len(),
            scan(s@, from as int, name_starts()) == scan(s@, i as int, name_starts()),
        decreases s.len() - i,
    {
        i += 1;
    }
    i
}

fn to_name_end(s: &[char], from: usize) -> (r: usize)
    requires
        from <= s.len(),
    ensures
        r == scan(s@, from as int, name_ends()),
        from <= r <= s.len(),
{
    let mut i: usize = from;
    while i < s.len() && !(space(s[i]) || s[i] == '=' || s[i] == '>' || s[i] == '/')
        invariant
            from <= i <= s.len(),
            scan(s@, from as int, name_ends()) == scan(s@, i as int, name_ends()),
        decreases s.len() - i,
    {
        i += 1;
    }
    i
}

fn to_tag_name_end(s: &[char], from: usize) -> (r: usize)
    requires
        from <= s.len(),
    ensures
        r == scan(s@, from as int, tag_name_ends()),
        from <= r <= s.len(),
{
    let mut i: usize = from;
    while i < s.len() && !(space(s[i]) || s[i] == '>' || s[i] == '/')
        invariant
            from <= i <= s.len(),
            scan(s@, from as int, tag_name_ends()) == scan(s@, i as int, tag_name_ends()),
        decreases s.len() - i,
    {
        i += 1;
    }
    i
}

fn to_char(s: &[char], from: usize, c: char) -> (r: usize)
    requires
        from <= s.len(),
    ensures
        r == scan(s@, from as int, is_char(c)),
        from <= r <= s.len(),
{
    let mut i: usize = from;
    while i < s.len() && s[i] != c
        invariant
            from <= i <= s.len(),
            scan(s@, from as int, is_char(c)) == scan(s@, i as int, is_char(c)),
        decreases s.len() - i,
    {
        i += 1;
    }
    i
}

/// The name asked for names this attribute. A name with a prefix also names the
/// attributes with the same local name.
pub open spec fn names_attribute(key: Seq<char>, wanted: Seq<char>) -> bool {
    crate::text::same_ignoring_case(key, wanted) || (wanted.contains(':')
        && crate::text::same_ignoring_case(after_last_colon(key), after_last_colon(wanted)))
}

/// The value of the first attribute from `i` on that the name asked for names.
pub open spec fn attribute_from(tag: Seq<char>, i: int, wanted: Seq<char>) -> Option<Seq<char>>
    decreases tag.len() - i,
    when 0 <= i <= tag.len()
{
    let a = scan(tag, i, name_starts());
    let b = scan(tag, a, name_ends());
    let e = scan(tag, b, non_spaces());
    let q = scan(tag, e + 1, non_spaces());
    let v = scan(tag, q + 1, is_char(tag[q]));
    proof {
        lemma_attribute_scan(tag, i);
    }
    if a >= tag.len() || tag[a] == '/' || tag[a] == '>' {
        None
    } else if e >= tag.len() || tag[e] != '=' {
        attribute_from(tag, scan(tag, e, spaces()), wanted)
    } else if q >= tag.len() {
        None
    } else if tag[q] != '"' && tag[q] != '\'' {
        attribute_from(tag, q, wanted)
    } else if names_attribute(tag.subrange(a, b), wanted) {
        Some(crate::xml_utils::unescaped_text(tag.subrange(q + 1, v)))
    } else if v < tag.len() {
        attribute_from(tag, v + 1, wanted)
    } else {
        None
    }
}

/// Reading one attribute moves on and stays in the tag.
pub proof fn lemma_attribute_scan(tag: Seq<char>, i: int)
    requires
        0 <= i <= tag.len(),
    ensures
        ({
            let a = scan(tag, i, name_starts());
            let b = scan(tag, a, name_ends());
            let e = scan(tag, b, non_spaces());
            let q = scan(tag, e + 1, non_spaces());
            let v = scan(tag, q + 1, is_char(tag[q]));
            &&& i <= a <= b <= e <= tag.len()
            &&& a < tag.len() && tag[a] != '/' && tag[a] != '>' && (e >= tag.len() || tag[e] != '=')
                ==> i < scan(tag, e, spaces()) <= tag.len()
            &&& e < tag.len() ==> i < q <= tag.len()
            &&& e < tag.len() && q < tag.len() ==> q < v <= tag.len()
        }),
{
    let a = scan(tag, i, name_starts());
    lemma_scan(tag, i, name_starts());
    let b = scan(tag, a, name_ends());
    lemma_scan(tag, a, name_ends());
    let e = scan(tag, b, non_spaces());
    lemma_scan(tag, b, non_spaces());
    lemma_scan(tag, e, spaces());
    if e < tag.len() {
        let q = scan(tag, e + 1, non_spaces());
        lemma_scan(tag, e + 1, non_spaces());
        if q < tag.len() {
            lemma_scan(tag, q + 1, is_char(tag[q]));
        }
    }
    if a < tag.len() && tag[a] != '/' && tag[a] != '>' && b == a {
        assert(name_starts()(tag[a]));
        assert(name_ends()(tag[a]));
        assert(tag[a] == '=');
        assert(e == a) by {
            assert(non_spaces()(tag[a]));
        }
    }
}

/// The value of an attribute of an opening tag, its entities read.
pub open spec fn attribute(tag: Seq<char>, wanted: Seq<char>) -> Option<Seq<char>> {
    let open = scan(tag, 0, is_char('<'));
    let name = if open < tag.len() {
        open + 1
    } else {
        open
    };
    attribute_from(tag, scan(tag, name, tag_name_ends()), wanted)
}

fn has_colon(s: &[char]) -> (b: bool)
    ensures
        b == s@.contains(':'),
{
    let mut i: usize = 0;
    while i < s.len()
        invariant
            i <= s.len(),
            forall|j: int| 0 <= j < i ==> s@[j] != ':',
        decreases s.len() - i,
    {
        if s[i] == ':' {
            return true;
        }
        i += 1;
    }
    false
}

fn attribute_named(key: &[char], wanted: &[char]) -> (b: bool)
    ensures
        b == names_attribute(key@, wanted@),
{
    if eq_ignoring_case(key, wanted) {
        return true;
    }
    if !has_colon(wanted) {
        return false;
    }
    let k: usize = local_start(key, 0, key.len());
    let w: usize = local_start(wanted, 0, wanted.len());
    assert(key@.subrange(0, key@.len() as int) =~= key@);
    assert(wanted@.subrange(0, wanted@.len() as int) =~= wanted@);
    eq_ignoring_case(
        vstd::slice::slice_subrange(key, k, key.len()),
        vstd::slice::slice_subrange(wanted, w, wanted.len()),
    )
}

/// Reads an attribute from an opening tag.
///
/// Both quote styles and white space around `=` are accepted. For a prefixed name
/// such as `r:id`, attributes with another prefix count too.
pub fn tag_attribute(tag: &[char], wanted: &str) -> (r: Option<Vec<char>>)
    ensures
        match r {
            Some(value) => attribute(tag@, wanted@) == Some(value@),
            None => attribute(tag@, wanted@) is None,
        },
{
    let wanted_chars = chars_of(wanted);
    let open: usize = to_char(tag, 0, '<');
    let name: usize = if open < tag.len() {
        open + 1
    } else {
        open
    };
    let mut i: usize = to_tag_name_end(tag, name);
    loop
        invariant
            i <= tag.len(),
            wanted_chars@ == wanted@,
            attribute(tag@, wanted@) == attribute_from(tag@, i as int, wanted@),
        decreases tag.len() - i,
    {
        proof {
            lemma_attribute_scan(tag@, i as int);
        }
        let a: usize = to_name_start(tag, i);
        if a >= tag.len() || tag[a] == '/' || tag[a] == '>' {
            return None;
        }
        let b: usize = to_name_end(tag, a);
        let e: usize = to_non_space(tag, b);
        if e >= tag.len() || tag[e] != '=' {
            i = to_space(tag, e);
            continue;
        }
        let q: usize = to_non_space(tag, e + 1);
        if q >= tag.len() {
            return None;
        }
        if tag[q] != '"' && tag[q] != '\'' {
            i = q;
            continue;
        }
        let v: usize = to_char(tag, q + 1, tag[q]);
        if attribute_named(vstd::slice::slice_subrange(tag, a, b), &wanted_chars) {
            return Some(unescape_chars(vstd::slice::slice_subrange(tag, q + 1, v)));
        }
        if v >= tag.len() {
            return None;
        }
        i = v + 1;
    }
}

} // verus!
