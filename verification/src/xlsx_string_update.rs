//! What the XLSX reader makes of shared strings that an update has added to.

use vstd::prelude::*;
use crate::markup::Piece;
use crate::xlsb_reader::BookInfo;
use crate::xlsx_package::XlsxPackage;
use crate::xlsx_update_rows::Strings;
use crate::xml_documents::StringScan;
use crate::xml_patch::TagSpan;

verus! {

/// A value in ASCII without the characters that tell the parts of a tag apart.
pub open spec fn is_simple(s: Seq<char>) -> bool {
    forall|i: int|
        0 <= i < s.len() ==> #[trigger] s[i] != '=' && s[i] != '"' && s[i] != '>' && (s[i] as u32)
            < 128
}

/// The opening tag of a table of shared strings, by the values of its attributes.
pub open spec fn table_tag(ns: Seq<char>, count: Seq<char>, unique: Seq<char>) -> Seq<char> {
    "<sst xmlns=\""@ + ns + "\" count=\""@ + count + "\" uniqueCount=\""@ + unique + "\">"@
}

proof fn lemma_parts()
    ensures
        "<sst xmlns=\""@ == seq!['<', 's', 's', 't', ' ', 'x', 'm', 'l', 'n', 's', '=', '"'],
        "\" count=\""@ == seq!['"', ' ', 'c', 'o', 'u', 'n', 't', '=', '"'],
        "\" uniqueCount=\""@ == seq![
            '"',
            ' ',
            'u',
            'n',
            'i',
            'q',
            'u',
            'e',
            'C',
            'o',
            'u',
            'n',
            't',
            '=',
            '"',
        ],
        "\">"@ == seq!['"', '>'],
{
    reveal_strlit("<sst xmlns=\"");
    reveal_strlit("\" count=\"");
    reveal_strlit("\" uniqueCount=\"");
    reveal_strlit("\">");
    assert("<sst xmlns=\""@ =~= seq!['<', 's', 's', 't', ' ', 'x', 'm', 'l', 'n', 's', '=', '"']);
    assert("\" count=\""@ =~= seq!['"', ' ', 'c', 'o', 'u', 'n', 't', '=', '"']);
    assert("\" uniqueCount=\""@ =~= seq![
        '"',
        ' ',
        'u',
        'n',
        'i',
        'q',
        'u',
        'e',
        'C',
        'o',
        'u',
        'n',
        't',
        '=',
        '"',
    ]);
    assert("\">"@ =~= seq!['"', '>']);
}

/// The characters of four parts with values between them.
pub proof fn lemma_char(
    a: Seq<char>,
    x: Seq<char>,
    b: Seq<char>,
    y: Seq<char>,
    c: Seq<char>,
    z: Seq<char>,
    d: Seq<char>,
    i: int,
)
    requires
        0 <= i < (a + x + b + y + c + z + d).len(),
    ensures
        ({
            let s = a + x + b + y + c + z + d;
            let p1 = a.len() as int;
            let p2 = p1 + x.len();
            let p3 = p2 + b.len();
            let p4 = p3 + y.len();
            let p5 = p4 + c.len();
            let p6 = p5 + z.len();
            s[i] == if i < p1 {
                a[i]
            } else if i < p2 {
                x[i - p1]
            } else if i < p3 {
                b[i - p2]
            } else if i < p4 {
                y[i - p3]
            } else if i < p5 {
                c[i - p4]
            } else if i < p6 {
                z[i - p5]
            } else {
                d[i - p6]
            }
        }),
{
}

/// A pattern is found at its first occurrence.
pub proof fn lemma_find_first(s: Seq<char>, pattern: Seq<char>, from: int, at: int)
    requires
        from <= at < s.len(),
        crate::xml_patch::resembles_at(s, pattern, at),
        forall|j: int| from <= j < at ==> !crate::xml_patch::resembles_at(s, pattern, j),
    ensures
        crate::xml_patch::find_ignoring_case(s, pattern, from) == Some(at),
    decreases at - from,
{
    if from < at {
        lemma_find_first(s, pattern, from + 1, at);
    }
}

pub proof fn lemma_find_some(s: Seq<char>, pattern: Seq<char>, from: int, at: int)
    requires
        from <= at < s.len(),
        crate::xml_patch::resembles_at(s, pattern, at),
    ensures
        crate::xml_patch::find_ignoring_case(s, pattern, from) is Some,
    decreases at - from,
{
    if from < at {
        lemma_find_some(s, pattern, from + 1, at);
    }
}

/// What resembles a pattern has its characters, capitals or not.
pub proof fn lemma_resembles(s: Seq<char>, pattern: Seq<char>, at: int, i: int)
    requires
        crate::xml_patch::resembles_at(s, pattern, at),
        0 <= i < pattern.len(),
    ensures
        crate::text::ascii_lower(s[at + i]) == crate::text::ascii_lower(pattern[i]),
{
    assert(s.subrange(at, at + pattern.len())[i] == s[at + i]);
}

pub proof fn lemma_stands(s: Seq<char>, pattern: Seq<char>, at: int)
    requires
        0 <= at,
        at + pattern.len() <= s.len(),
        forall|i: int| 0 <= i < pattern.len() ==> s[at + i] == #[trigger] pattern[i],
    ensures
        crate::xml_patch::resembles_at(s, pattern, at),
{
    let here = s.subrange(at, at + pattern.len());
    assert forall|i: int| 0 <= i < here.len() implies crate::text::ascii_lower(#[trigger] here[i])
        == crate::text::ascii_lower(pattern[i]) by {
        assert(here[i] == s[at + i]);
    }
}

/// Where the character stands that parts a key from its value.
proof fn lemma_equals(ns: Seq<char>, count: Seq<char>, unique: Seq<char>, i: int)
    requires
        is_simple(ns),
        is_simple(count),
        is_simple(unique),
        0 <= i < table_tag(ns, count, unique).len(),
        table_tag(ns, count, unique)[i] == '=',
    ensures
        i == 10 || i == 19 + ns.len() || i == 34 + ns.len() + count.len(),
{
    lemma_parts();
    lemma_char(
        "<sst xmlns=\""@,
        ns,
        "\" count=\""@,
        count,
        "\" uniqueCount=\""@,
        unique,
        "\">"@,
        i,
    );
}

/// The counted uses stand behind the first key that ends in its letters.
#[verifier::spinoff_prover]
proof fn lemma_count_place(ns: Seq<char>, count: Seq<char>, unique: Seq<char>)
    requires
        is_simple(ns),
        is_simple(count),
        is_simple(unique),
    ensures
        ({
            let tag = table_tag(ns, count, unique);
            &&& crate::xml_patch::find_ignoring_case(tag, " "@ + "count"@ + "="@, 0) is Some
            &&& crate::xml_patch::find_ignoring_case(tag, "count"@ + "="@, 0) == Some(
                14 + ns.len() as int,
            )
            &&& tag[20 + ns.len() as int] == '"'
        }),
{
    let tag = table_tag(ns, count, unique);
    let key = "count"@ + "="@;
    let spaced = " "@ + "count"@ + "="@;
    let at = 14 + ns.len() as int;
    lemma_parts();
    reveal_strlit("count");
    reveal_strlit("=");
    reveal_strlit(" ");
    assert(key =~= seq!['c', 'o', 'u', 'n', 't', '=']);
    assert(spaced =~= seq![' ', 'c', 'o', 'u', 'n', 't', '=']);
    assert forall|i: int| 0 <= i < 7 implies tag[at - 1 + i] == #[trigger] spaced[i] by {
        lemma_char(
            "<sst xmlns=\""@,
            ns,
            "\" count=\""@,
            count,
            "\" uniqueCount=\""@,
            unique,
            "\">"@,
            at - 1 + i,
        );
    }
    lemma_stands(tag, spaced, at - 1);
    lemma_find_some(tag, spaced, 0, at - 1);
    assert forall|i: int| 0 <= i < 6 implies tag[at + i] == #[trigger] key[i] by {
        assert(tag[at - 1 + (i + 1)] == spaced[i + 1]);
    }
    lemma_stands(tag, key, at);
    assert forall|j: int| 0 <= j < at implies !crate::xml_patch::resembles_at(tag, key, j) by {
        if crate::xml_patch::resembles_at(tag, key, j) {
            lemma_resembles(tag, key, j, 5);
            lemma_equals(ns, count, unique, j + 5);
            lemma_resembles(tag, key, j, 0);
            assert(tag[5] == 'x');
        }
    }
    lemma_find_first(tag, key, 0, at);
}

/// The counted texts stand behind their key.
#[verifier::spinoff_prover]
proof fn lemma_unique_place(ns: Seq<char>, count: Seq<char>, unique: Seq<char>)
    requires
        is_simple(ns),
        is_simple(count),
        is_simple(unique),
    ensures
        ({
            let tag = table_tag(ns, count, unique);
            let at = 23 + ns.len() + count.len() as int;
            &&& crate::xml_patch::find_ignoring_case(tag, " "@ + "uniqueCount"@ + "="@, 0) is Some
            &&& crate::xml_patch::find_ignoring_case(tag, "uniqueCount"@ + "="@, 0) == Some(at)
            &&& tag[at + 12] == '"'
        }),
{
    let tag = table_tag(ns, count, unique);
    let key = "uniqueCount"@ + "="@;
    let spaced = " "@ + "uniqueCount"@ + "="@;
    let at = 23 + ns.len() + count.len() as int;
    lemma_parts();
    reveal_strlit("uniqueCount");
    reveal_strlit("=");
    reveal_strlit(" ");
    assert(key =~= seq!['u', 'n', 'i', 'q', 'u', 'e', 'C', 'o', 'u', 'n', 't', '=']);
    assert(spaced =~= seq![' ', 'u', 'n', 'i', 'q', 'u', 'e', 'C', 'o', 'u', 'n', 't', '=']);
    assert forall|i: int| 0 <= i < 13 implies tag[at - 1 + i] == #[trigger] spaced[i] by {
        lemma_char(
            "<sst xmlns=\""@,
            ns,
            "\" count=\""@,
            count,
            "\" uniqueCount=\""@,
            unique,
            "\">"@,
            at - 1 + i,
        );
    }
    lemma_stands(tag, spaced, at - 1);
    lemma_find_some(tag, spaced, 0, at - 1);
    assert forall|i: int| 0 <= i < 12 implies tag[at + i] == #[trigger] key[i] by {
        assert(tag[at - 1 + (i + 1)] == spaced[i + 1]);
    }
    lemma_stands(tag, key, at);
    assert(tag[13 + ns.len() as int] == ' ') by {
        lemma_char(
            "<sst xmlns=\""@,
            ns,
            "\" count=\""@,
            count,
            "\" uniqueCount=\""@,
            unique,
            "\">"@,
            13 + ns.len() as int,
        );
    }
    assert forall|j: int| 0 <= j < at implies !crate::xml_patch::resembles_at(tag, key, j) by {
        if crate::xml_patch::resembles_at(tag, key, j) {
            lemma_resembles(tag, key, j, 11);
            lemma_equals(ns, count, unique, j + 11);
            lemma_resembles(tag, key, j, 5);
        }
    }
    lemma_find_first(tag, key, 0, at);
}

/// The first of a kind of character.
pub proof fn lemma_first_char(s: Seq<char>, c: char, from: int, at: int)
    requires
        0 <= from <= at < s.len(),
        s[at] == c,
        forall|j: int| from <= j < at ==> s[j] != c,
    ensures
        crate::xml_utils::find_char(s, c, from) == Some(at),
    decreases at - from,
{
    if from < at {
        lemma_first_char(s, c, from + 1, at);
    }
}

/// The value of an attribute is replaced.
pub proof fn lemma_value_replaced(
    before: Seq<char>,
    value: Seq<char>,
    after: Seq<char>,
    name: Seq<char>,
    new: Seq<char>,
)
    requires
        crate::markup::is_value(value),
        after.len() > 0,
        after[0] == '"',
        ({
            let tag = before + value + after;
            let at = before.len() - name.len() - 2;
            &&& at >= 0
            &&& before[before.len() - 1] == '"'
            &&& crate::text::is_plain(tag)
            &&& crate::text::is_plain(name)
            &&& crate::xml_patch::find_ignoring_case(tag, " "@ + name + "="@, 0) is Some
            &&& crate::xml_patch::find_ignoring_case(tag, name + "="@, 0) == Some(at)
        }),
        crate::xml_utils::escaped_text(new) == new,
    ensures
        crate::xml_patch::with_attribute(before + value + after, name, new) == before + new
            + after,
{
    reveal_strlit("=");
    let tag = before + value + after;
    let quote = before.len() - 1;
    let end = before.len() + value.len();
    assert((name + "="@).len() == name.len() + 1);
    assert(tag[quote] == '"');
    assert forall|j: int| quote < j < end implies tag[j] != '"' by {
        assert(tag[j] == value[j - before.len()]);
    }
    assert(tag[end as int] == after[0]);
    lemma_first_char(tag, '"', quote + 1, end as int);
    reveal_strlit(" ");
    assert(crate::text::is_plain(name + "="@));
    assert(crate::text::is_plain(" "@ + name + "="@));
    crate::xml_patch::lemma_plain_find(tag, " "@ + name + "="@, 0);
    crate::xml_patch::lemma_plain_value(tag, name + "="@, quote - name.len() - 1);
    assert(crate::xml_patch::value_span_from(tag, name + "="@, 0) == Some(
        (quote + 1, end as int),
    ));
    assert(crate::xml_patch::spliced(tag, quote + 1, end as int, new) =~= before + new + after);
}

/// A number is written as it is.
proof fn lemma_decimal(n: int)
    ensures
        is_simple(crate::text::decimal(n)),
        crate::xml_utils::escaped_text(crate::text::decimal(n)) == crate::text::decimal(n),
{
    let s = crate::text::decimal(n);
    let m = if n < 0 {
        (-n) as nat
    } else {
        n as nat
    };
    crate::text::lemma_digits(m);
    assert forall|i: int| 0 <= i < s.len() implies #[trigger] s[i] == '-' || '0' <= s[i] <= '9' by {
        if n < 0 {
            if i > 0 {
                assert(s[i] == crate::text::digits(m)[i - 1]);
            }
        } else {
            assert(s[i] == crate::text::digits(m)[i]);
        }
    }
    assert forall|i: int| 0 <= i < s.len() implies crate::xml_utils::entity(#[trigger] s[i])
        == seq![s[i]] by {}
    crate::xml_utils::lemma_plain_with_entities(s);
    assert(!crate::xml_utils::has_control(s));
}

/// The tag of a table is ASCII.
proof fn lemma_table_plain(ns: Seq<char>, count: Seq<char>, unique: Seq<char>)
    requires
        is_simple(ns),
        is_simple(count),
        is_simple(unique),
    ensures
        crate::text::is_plain(table_tag(ns, count, unique)),
{
    let tag = table_tag(ns, count, unique);
    lemma_parts();
    assert forall|i: int| 0 <= i < tag.len() implies (#[trigger] tag[i] as u32) < 128 by {
        lemma_char(
            "<sst xmlns=\""@,
            ns,
            "\" count=\""@,
            count,
            "\" uniqueCount=\""@,
            unique,
            "\">"@,
            i,
        );
    }
}

/// The counts of a table are set.
#[verifier::spinoff_prover]
proof fn lemma_counts_set(
    ns: Seq<char>,
    count: Seq<char>,
    unique: Seq<char>,
    uses: int,
    texts: int,
)
    requires
        is_simple(ns),
        is_simple(count),
        is_simple(unique),
    ensures
        crate::xlsx_patch::with_counts(table_tag(ns, count, unique), uses, texts) == table_tag(
            ns,
            crate::text::decimal(uses),
            crate::text::decimal(texts),
        ),
{
    let new_count = crate::text::decimal(uses);
    let new_unique = crate::text::decimal(texts);
    lemma_decimal(uses);
    lemma_decimal(texts);
    lemma_parts();
    reveal_strlit("count");
    reveal_strlit("uniqueCount");
    lemma_count_place(ns, count, unique);
    lemma_table_plain(ns, count, unique);
    lemma_table_plain(ns, new_count, unique);
    let a = "<sst xmlns=\""@ + ns + "\" count=\""@;
    let b = "\" uniqueCount=\""@ + unique + "\">"@;
    assert(table_tag(ns, count, unique) =~= a + count + b);
    lemma_value_replaced(a, count, b, "count"@, new_count);
    assert(table_tag(ns, new_count, unique) =~= a + new_count + b);
    lemma_unique_place(ns, new_count, unique);
    let c = a + new_count + "\" uniqueCount=\""@;
    assert(table_tag(ns, new_count, unique) =~= c + unique + "\">"@);
    lemma_value_replaced(c, unique, "\">"@, "uniqueCount"@, new_unique);
    assert(table_tag(ns, new_count, new_unique) =~= c + new_unique + "\">"@);
}

/// No tag opens before the first one.
proof fn lemma_no_tag_before(xml: Seq<char>, from: int, to: int, local: Seq<char>)
    requires
        0 <= from <= to < xml.len(),
        forall|j: int| from <= j < to ==> !crate::xml_patch::opens_at(xml, j),
    ensures
        crate::xml_patch::tag_from(xml, from, local) == crate::xml_patch::tag_from(xml, to, local),
    decreases to - from,
{
    if from < to {
        lemma_no_tag_before(xml, from + 1, to, local);
    }
}

/// The name in a tag of the table.
proof fn lemma_table_name(rest: Seq<char>)
    ensures
        crate::xml_patch::written_name("sst "@ + rest) == "sst"@,
        crate::xml_patch::name_local("sst"@) == "sst"@,
        crate::xml_patch::name_prefix("sst"@) == Seq::<char>::empty(),
{
    reveal_strlit("sst ");
    reveal_strlit("sst");
    let s = "sst "@ + rest;
    let full = |c: char| !crate::text::is_whitespace(c);
    let blank = |c: char| crate::text::is_whitespace(c);
    assert(s[0] == 's' && s[1] == 's' && s[2] == 't' && s[3] == ' ');
    assert(crate::xml_tags::scan(s, 0, full) == 0);
    crate::xml_tags::lemma_scan(s, 0, blank);
    let end = crate::xml_tags::scan(s, 0, blank);
    assert(end == 3) by {
        if end < 3 {
            assert(blank(s[end]));
        } else if end > 3 {
            assert(!blank(s[3]));
        }
    }
    assert(s.subrange(0, 3) =~= "sst"@);
    crate::xml_utils::lemma_find_char("sst"@, ':', 0);
}

/// The table is found behind what stands in front of it.
#[verifier::spinoff_prover]
proof fn lemma_table_found(
    front: Seq<char>,
    ns: Seq<char>,
    count: Seq<char>,
    unique: Seq<char>,
    rest: Seq<char>,
)
    requires
        is_simple(ns),
        is_simple(count),
        is_simple(unique),
        front.len() > 1,
        front[1] == '?',
        forall|j: int| 0 < j < front.len() ==> front[j] != '<',
    ensures
        crate::xml_patch::tag_from(front + table_tag(ns, count, unique) + rest, 0, "sst"@) == Some(
            TagSpan {
                start: front.len() as int,
                end: (front.len() + table_tag(ns, count, unique).len()) as int,
                prefix: Seq::empty(),
            },
        ),
{
    let tag = table_tag(ns, count, unique);
    let xml = front + tag + rest;
    let at = front.len() as int;
    let close = at + tag.len() - 1;
    lemma_parts();
    assert forall|j: int| 0 <= j < at implies !crate::xml_patch::opens_at(xml, j) by {
        assert(xml[j] == front[j]);
        assert(xml[1] == front[1]);
    }
    lemma_no_tag_before(xml, 0, at, "sst"@);
    assert(xml[at] == tag[0] && xml[at + 1] == tag[1]);
    assert forall|j: int| at <= j < close implies xml[j] != '>' by {
        assert(xml[j] == tag[j - at]);
        lemma_char(
            "<sst xmlns=\""@,
            ns,
            "\" count=\""@,
            count,
            "\" uniqueCount=\""@,
            unique,
            "\">"@,
            j - at,
        );
    }
    assert(xml[close] == tag[tag.len() - 1]);
    lemma_first_char(xml, '>', at, close);
    let inner = xml.subrange(at + 1, close);
    reveal_strlit("sst ");
    assert(inner =~= "sst "@ + inner.skip(4));
    lemma_table_name(inner.skip(4));
}

/// The closing tag of the table is found at the end.
proof fn lemma_end_found(before: Seq<char>)
    ensures
        crate::xml_patch::find_last_text(
            before + "</sst>"@,
            "</"@ + Seq::<char>::empty() + "sst"@,
            (before + "</sst>"@).len() as int,
        ) == Some(before.len() as int),
{
    reveal_strlit("</sst>");
    reveal_strlit("</");
    reveal_strlit("sst");
    let s = before + "</sst>"@;
    let pattern = "</"@ + Seq::<char>::empty() + "sst"@;
    let n = s.len() as int;
    assert(pattern =~= seq!['<', '/', 's', 's', 't']);
    assert(s[n - 5] == '/');
    assert(s.subrange(n - 5, n)[0] == '/');
    assert(s.subrange(n - 6, n - 1) =~= pattern);
    reveal_with_fuel(crate::xml_patch::find_last_text, 8);
}

/// An item that an update adds.
pub open spec fn new_item(text: Seq<char>) -> Seq<Piece> {
    crate::xlsx_string_laws::item_of(
        crate::xlsx_update_read::kept_text(text),
        crate::xlsx_patch::keeps_space(crate::xml_utils::escaped_text(text)),
    )
}

/// The first `n` of the items that an update adds.
pub open spec fn new_items(texts: Seq<Seq<char>>, n: nat) -> Seq<Piece>
    decreases n,
{
    if n == 0 {
        Seq::empty()
    } else {
        new_items(texts, (n - 1) as nat) + new_item(texts[n - 1])
    }
}

/// The texts as far as XML can hold them.
pub open spec fn kept_texts(texts: Seq<Seq<char>>, n: nat) -> Seq<Seq<char>> {
    Seq::new(n, |i: int| crate::xlsx_update_read::kept_text(texts[i]))
}

proof fn lemma_new_item_text(text: Seq<char>)
    ensures
        crate::markup::is_block(new_item(text)),
        crate::markup::written(new_item(text)) == crate::xlsx_patch::string_item(
            Seq::empty(),
            text,
        ),
{
    let clean = crate::xml_utils::escaped_text(text);
    let kept = crate::xlsx_update_read::kept_text(text);
    let preserved = crate::xlsx_patch::keeps_space(clean);
    crate::xlsx_string_laws::lemma_item_of(kept, preserved);
    crate::xlsx_update_read::lemma_text_tag(clean);
    assert(crate::xml_utils::with_entities(kept) == clean);
    lemma_item_joined("<"@ + Seq::<char>::empty() + "t"@ + crate::xlsx_patch::space_attr(clean)
        + ">"@, clean);
}

proof fn lemma_item_joined(tag: Seq<char>, clean: Seq<char>)
    ensures
        "<si>"@ + tag + clean + "</t></si>"@ == "<"@ + Seq::<char>::empty() + "si>"@ + (tag + clean
            + "</"@ + Seq::<char>::empty() + "t>"@) + "</"@ + Seq::<char>::empty() + "si>"@,
{
    reveal_strlit("<si>");
    reveal_strlit("</t></si>");
    reveal_strlit("<");
    reveal_strlit("si>");
    reveal_strlit("</");
    reveal_strlit("t>");
    assert("<si>"@ + tag + clean + "</t></si>"@ =~= "<"@ + Seq::<char>::empty() + "si>"@ + (tag
        + clean + "</"@ + Seq::<char>::empty() + "t>"@) + "</"@ + Seq::<char>::empty() + "si>"@);
}

proof fn lemma_new_items_text(texts: Seq<Seq<char>>, n: nat)
    requires
        n <= texts.len(),
    ensures
        crate::markup::is_block(new_items(texts, n)),
        crate::markup::written(new_items(texts, n)) == crate::xlsx_patch::string_items(
            Seq::empty(),
            texts,
            n,
        ),
    decreases n,
{
    if n == 0 {
        crate::markup::lemma_block_none();
    } else {
        let fewer = new_items(texts, (n - 1) as nat);
        lemma_new_items_text(texts, (n - 1) as nat);
        lemma_new_item_text(texts[n - 1]);
        crate::markup::lemma_block_concat(fewer, new_item(texts[n - 1]));
        crate::markup::lemma_written_concat(fewer, new_item(texts[n - 1]));
    }
}

/// The scan stands between items.
pub open spec fn is_between(scan: StringScan) -> bool {
    !scan.in_item && !scan.in_text && scan.value == Seq::<char>::empty()
}

/// The pieces of a table read as its texts.
pub open spec fn read_as(inner: Seq<Piece>, texts: Seq<Seq<char>>) -> bool {
    forall|scan: StringScan|
        #![trigger scan.run(crate::markup::items(inner))]
        is_between(scan) ==> scan.run(crate::markup::items(inner)) == (StringScan {
            found: scan.found + texts,
            ..scan
        })
}

proof fn lemma_new_items_read(scan: StringScan, texts: Seq<Seq<char>>, n: nat)
    requires
        n <= texts.len(),
        is_between(scan),
    ensures
        scan.run(crate::markup::items(new_items(texts, n))) == (StringScan {
            found: scan.found + kept_texts(texts, n),
            ..scan
        }),
    decreases n,
{
    if n == 0 {
        assert(scan.found + kept_texts(texts, 0) =~= scan.found);
    } else {
        let m = (n - 1) as nat;
        let text = texts[n - 1];
        lemma_new_items_read(scan, texts, m);
        let before = StringScan { found: scan.found + kept_texts(texts, m), ..scan };
        crate::xlsx_string_laws::lemma_item_read(
            before,
            crate::xlsx_update_read::kept_text(text),
            crate::xlsx_patch::keeps_space(crate::xml_utils::escaped_text(text)),
        );
        crate::xlsx_string_laws::lemma_run_concat(scan, new_items(texts, m), new_item(text));
        assert(before.found.push(crate::xlsx_update_read::kept_text(text)) =~= scan.found
            + kept_texts(texts, n));
    }
}

proof fn lemma_block_behind(inner: Seq<Piece>, block: Seq<Piece>)
    requires
        crate::xlsx_book_laws::is_content(inner),
        crate::markup::is_block(block),
    ensures
        crate::xlsx_book_laws::is_content(inner + block),
{
    crate::xlsx_book_laws::lemma_block_is_content(block);
    crate::xlsx_book_laws::lemma_content_concat(inner, block);
}

/// What stands in front of a table: the declaration, and white space if there is
/// any.
pub open spec fn front_pieces(gap: Seq<char>) -> Seq<Piece> {
    if gap.len() == 0 {
        seq![crate::xlsx_frame::declaration_piece()]
    } else {
        seq![crate::xlsx_frame::declaration_piece(), Piece::Text(gap)]
    }
}

/// The document of a table, by the counts that it states.
pub open spec fn table_document(gap: Seq<char>, inner: Seq<Piece>, uses: int, texts: int) -> Seq<
    Piece,
> {
    front_pieces(gap) + crate::markup::element(
        "sst"@,
        crate::xlsx_string_laws::table_attributes(texts, uses),
        inner,
    )
}

/// The gap holds no markup.
pub open spec fn is_gap(gap: Seq<char>) -> bool {
    forall|i: int| 0 <= i < gap.len() ==> #[trigger] gap[i] != '<' && gap[i] != '&'
}

/// The text in front of a table.
pub open spec fn front_text(gap: Seq<char>) -> Seq<char> {
    "<?"@ + crate::xlsx_cells::DECLARATION@ + "?>"@ + gap
}

proof fn lemma_front(gap: Seq<char>, block: Seq<Piece>)
    requires
        is_gap(gap),
        crate::markup::is_block(block),
    ensures
        crate::markup::is_document(front_pieces(gap) + block),
        crate::markup::written(front_pieces(gap) + block) == front_text(gap)
            + crate::markup::written(block),
{
    let declaration = crate::xlsx_frame::declaration_piece();
    let head = seq![declaration];
    crate::xlsx_frame::lemma_declaration();
    crate::markup::lemma_block_one(declaration);
    crate::markup::lemma_written_one(declaration);
    crate::markup::lemma_written_concat(front_pieces(gap), block);
    if gap.len() == 0 {
        crate::markup::lemma_block_concat(head, block);
        crate::markup::lemma_block_document(head + block);
        assert(front_text(gap) =~= declaration.text());
    } else {
        let text = seq![Piece::Text(gap)];
        crate::markup::lemma_text_alone(gap);
        crate::markup::lemma_written_one(Piece::Text(gap));
        crate::markup::lemma_written_concat(head, text);
        assert(head + text =~= front_pieces(gap));
        assert forall|i: int, j: int|
            0 <= i < front_pieces(gap).len() && j == i + 1 && j < front_pieces(gap).len() implies !(
        #[trigger] front_pieces(gap)[i] is Text && #[trigger] front_pieces(gap)[j] is Text) by {
            assert(front_pieces(gap)[i] == declaration);
        }
        assert forall|open: Seq<Seq<char>>| #[trigger]
            crate::markup::nested(open, front_pieces(gap)) == Some(open) by {
            crate::markup::lemma_nested_concat(open, head, text);
            assert(crate::markup::nested(open, head) == Some(open));
            assert(crate::markup::nested(open, text) == Some(open));
        }
        assert forall|i: int| 0 <= i < front_pieces(gap).len() implies (
        #[trigger] front_pieces(gap)[i]).is_sound() by {
            assert(Piece::Text(gap).is_sound());
        }
        lemma_block_behind(front_pieces(gap), block);
        let all = front_pieces(gap) + block;
        assert(all[0] == declaration);
        assert(crate::markup::nested(Seq::empty(), all) == Some(Seq::<Seq<char>>::empty()));
    }
}

/// The namespace of a table is a simple value.
proof fn lemma_namespace()
    ensures
        is_simple(crate::xlsx_cells::MAIN_NAMESPACE@),
{
    reveal_strlit("http://schemas.openxmlformats.org/spreadsheetml/2006/main");
}

/// The text in front of a table opens no tag.
proof fn lemma_front_opens_nothing(gap: Seq<char>)
    requires
        is_gap(gap),
    ensures
        front_text(gap).len() > 1,
        front_text(gap)[1] == '?',
        forall|j: int| 0 < j < front_text(gap).len() ==> front_text(gap)[j] != '<',
{
    reveal_strlit("<?");
    reveal_strlit("?>");
    reveal_strlit("xml version=\"1.0\" encoding=\"UTF-8\" standalone=\"yes\"");
    let middle = crate::xlsx_cells::DECLARATION@;
    let head = "<?"@ + middle + "?>"@;
    assert forall|j: int| 0 < j < head.len() implies head[j] != '<' by {
        if 2 <= j < 2 + middle.len() {
            assert(head[j] == middle[j - 2]);
        }
    }
    assert forall|j: int| 0 < j < front_text(gap).len() implies front_text(gap)[j] != '<' by {
        if j < head.len() {
            assert(front_text(gap)[j] == head[j]);
        } else {
            assert(front_text(gap)[j] == gap[j - head.len()]);
        }
    }
}

/// The text of the document of a table.
proof fn lemma_document_text(gap: Seq<char>, inner: Seq<Piece>, uses: int, texts: int)
    requires
        is_gap(gap),
        crate::xlsx_book_laws::is_content(inner),
    ensures
        crate::markup::is_document(table_document(gap, inner, uses, texts)),
        crate::markup::written(table_document(gap, inner, uses, texts)) == front_text(gap)
            + table_tag(
            crate::xlsx_cells::MAIN_NAMESPACE@,
            crate::text::decimal(uses),
            crate::text::decimal(texts),
        ) + (crate::markup::written(inner) + "</sst>"@),
{
    let attributes = crate::xlsx_string_laws::table_attributes(texts, uses);
    let block = crate::markup::element("sst"@, attributes, inner);
    crate::xlsx_string_laws::lemma_table_attributes(texts, uses);
    crate::xlsx_string_laws::lemma_item_tags();
    crate::markup::lemma_block_element("sst"@, attributes, inner);
    crate::markup::lemma_element_text("sst"@, attributes, inner);
    lemma_front(gap, block);
    let tag = table_tag(
        crate::xlsx_cells::MAIN_NAMESPACE@,
        crate::text::decimal(uses),
        crate::text::decimal(texts),
    );
    let within = crate::markup::written(inner);
    assert(front_text(gap) + (tag + within + "</sst>"@) =~= front_text(gap) + tag + (within
        + "</sst>"@));
}

/// The document of a table reads as the texts that its pieces read as.
pub proof fn law_texts_are_read(
    gap: Seq<char>,
    inner: Seq<Piece>,
    uses: int,
    texts: int,
    found: Seq<Seq<char>>,
)
    requires
        is_gap(gap),
        crate::xlsx_book_laws::is_content(inner),
        read_as(inner, found),
    ensures
        crate::markup::is_document(table_document(gap, inner, uses, texts)),
        crate::xml_documents::shared_strings_of(
            crate::markup::items(table_document(gap, inner, uses, texts)),
        ) == found,
{
    let attributes = crate::xlsx_string_laws::table_attributes(texts, uses);
    let block = crate::markup::element("sst"@, attributes, inner);
    let declaration = crate::xlsx_frame::declaration_piece();
    let open = Piece::Open { name: "sst"@, attributes };
    let close = Piece::Close("sst"@);
    let start = StringScan {
        in_item: false,
        in_text: false,
        value: Seq::empty(),
        found: Seq::empty(),
    };
    let all = StringScan { found: start.found + found, ..start };
    lemma_document_text(gap, inner, uses, texts);
    crate::xlsx_string_laws::lemma_table_attributes(texts, uses);
    crate::xlsx_string_laws::lemma_run_one(start, declaration);
    if gap.len() > 0 {
        let text = Piece::Text(gap);
        crate::xlsx_string_laws::lemma_run_one(start, text);
        crate::xlsx_string_laws::lemma_run_concat(start, seq![declaration], seq![text]);
        assert(seq![declaration] + seq![text] =~= front_pieces(gap));
    }
    assert(start.run(crate::markup::items(front_pieces(gap))) == start);
    crate::xlsx_string_laws::lemma_run_one(start, open);
    crate::xlsx_string_laws::lemma_run_one(all, close);
    crate::xlsx_string_laws::lemma_tags_read(start, attributes);
    crate::xlsx_string_laws::lemma_tags_read(all, attributes);
    assert(start.run(crate::markup::items(inner)) == all);
    crate::xlsx_string_laws::lemma_run_concat(start, seq![open], inner);
    crate::xlsx_string_laws::lemma_run_concat(start, seq![open] + inner, seq![close]);
    crate::xlsx_string_laws::lemma_run_concat(start, front_pieces(gap), block);
    assert(all.found =~= found);
}

/// The text that adding items to a table leads to.
proof fn lemma_text_committed(
    front: Seq<char>,
    within: Seq<char>,
    count: Seq<char>,
    unique: Seq<char>,
    uses: int,
    texts: int,
    added: Seq<Seq<char>>,
)
    requires
        is_simple(count),
        is_simple(unique),
        front.len() > 1,
        front[1] == '?',
        forall|j: int| 0 < j < front.len() ==> front[j] != '<',
    ensures
        crate::xlsx_patch::committed_strings(
            front + table_tag(crate::xlsx_cells::MAIN_NAMESPACE@, count, unique) + (within
                + "</sst>"@),
            uses,
            texts,
            added,
        ) == Ok::<Seq<char>, Seq<char>>(
            front + table_tag(
                crate::xlsx_cells::MAIN_NAMESPACE@,
                crate::text::decimal(uses),
                crate::text::decimal(texts),
            ) + (within + crate::xlsx_patch::string_items(Seq::empty(), added, added.len())
                + "</sst>"@),
        ),
{
    let ns = crate::xlsx_cells::MAIN_NAMESPACE@;
    let tag = table_tag(ns, count, unique);
    let rest = within + "</sst>"@;
    let xml = front + tag + rest;
    let new_tag = table_tag(ns, crate::text::decimal(uses), crate::text::decimal(texts));
    let items = crate::xlsx_patch::string_items(Seq::empty(), added, added.len());
    lemma_namespace();
    lemma_table_found(front, ns, count, unique, rest);
    let start = front.len() as int;
    let end = start + tag.len();
    assert(xml.subrange(start, end) =~= tag);
    lemma_counts_set(ns, count, unique, uses, texts);
    let counted = crate::xml_patch::spliced(xml, start, end, new_tag);
    let before = front + new_tag + within;
    assert(counted =~= before + "</sst>"@);
    lemma_end_found(before);
    assert(crate::xml_patch::spliced(counted, before.len() as int, before.len() as int, items)
        =~= front + new_tag + (within + items + "</sst>"@));
}

/// Adding texts to a table leads to the table with their items behind those that
/// were there and with the new counts: a document that reads as all the texts, the
/// new ones as far as XML can hold them.
pub proof fn law_new_texts_are_added(
    gap: Seq<char>,
    inner: Seq<Piece>,
    old_uses: int,
    old_texts: int,
    found: Seq<Seq<char>>,
    uses: int,
    texts: int,
    added: Seq<Seq<char>>,
)
    requires
        is_gap(gap),
        crate::xlsx_book_laws::is_content(inner),
        read_as(inner, found),
    ensures
        ({
            let more = inner + new_items(added, added.len());
            &&& crate::xlsx_patch::committed_strings(
                crate::markup::written(table_document(gap, inner, old_uses, old_texts)),
                uses,
                texts,
                added,
            ) == Ok::<Seq<char>, Seq<char>>(
                crate::markup::written(table_document(gap, more, uses, texts)),
            )
            &&& crate::xlsx_book_laws::is_content(more)
            &&& read_as(more, found + kept_texts(added, added.len()))
        }),
{
    let items = new_items(added, added.len());
    let more = inner + items;
    lemma_new_items_text(added, added.len());
    lemma_block_behind(inner, items);
    crate::markup::lemma_written_concat(inner, items);
    lemma_document_text(gap, inner, old_uses, old_texts);
    lemma_document_text(gap, more, uses, texts);
    lemma_front_opens_nothing(gap);
    lemma_decimal(old_uses);
    lemma_decimal(old_texts);
    lemma_text_committed(
        front_text(gap),
        crate::markup::written(inner),
        crate::text::decimal(old_uses),
        crate::text::decimal(old_texts),
        uses,
        texts,
        added,
    );
    assert forall|scan: StringScan|
        #![trigger scan.run(crate::markup::items(more))]
        is_between(scan) implies scan.run(crate::markup::items(more)) == (StringScan {
        found: scan.found + (found + kept_texts(added, added.len())),
        ..scan
    }) by {
        let mid = StringScan { found: scan.found + found, ..scan };
        crate::xlsx_string_laws::lemma_run_concat(scan, inner, items);
        assert(scan.run(crate::markup::items(inner)) == mid);
        lemma_new_items_read(mid, added, added.len());
        assert(mid.found + kept_texts(added, added.len()) =~= scan.found + (found + kept_texts(
            added,
            added.len(),
        )));
    }
}

/// The table that the writer makes can be added to.
pub proof fn law_written_table_can_grow(strings: Seq<Seq<char>>, uses: int)
    ensures
        ({
            let inner = crate::xlsx_string_laws::table_pieces(strings, strings.len());
            &&& crate::xlsx_book_laws::is_content(inner)
            &&& read_as(inner, crate::xlsx_string_laws::cleaned(strings, strings.len()))
            &&& crate::xlsx_parts::shared_strings_xml(strings, uses) == crate::markup::written(
                table_document(Seq::empty(), inner, uses, strings.len() as int),
            )
        }),
{
    let inner = crate::xlsx_string_laws::table_pieces(strings, strings.len());
    crate::xlsx_string_laws::lemma_table_pieces(strings, strings.len());
    crate::xlsx_string_laws::law_shared_strings_read_back(strings, uses);
    assert forall|scan: StringScan|
        #![trigger scan.run(crate::markup::items(inner))]
        is_between(scan) implies scan.run(crate::markup::items(inner)) == (StringScan {
        found: scan.found + crate::xlsx_string_laws::cleaned(strings, strings.len()),
        ..scan
    }) by {
        crate::xlsx_string_laws::lemma_table_read(scan, strings, strings.len());
    }
    assert(table_document(Seq::empty(), inner, uses, strings.len() as int)
        =~= crate::xlsx_string_laws::shared_string_pieces(strings, uses));
}

/// The document of a table, in parts: what stands in front of it, its items, and
/// the counts that it states.
pub struct Table {
    pub gap: Seq<char>,
    pub inner: Seq<Piece>,
    pub uses: int,
    pub texts: int,
}

impl Table {
    pub open spec fn document(self) -> Seq<Piece> {
        table_document(self.gap, self.inner, self.uses, self.texts)
    }
}

/// The shared strings of an updated workbook can be written: their document is a
/// table, which reads as the texts in front of those that still have to be added.
pub open spec fn can_grow(strings: Strings, table: Table) -> bool {
    let held = strings.values.len() - strings.pending.len();
    &&& is_gap(table.gap)
    &&& crate::xlsx_book_laws::is_content(table.inner)
    &&& held >= 0
    &&& read_as(table.inner, strings.values.take(held))
    &&& strings.pending == strings.values.skip(held)
    &&& strings.xml == Some(crate::markup::written(table.document()))
}

/// Shared strings that can be written still can once cells that pointed at them are
/// gone, and once a cell with a text has come.
pub proof fn law_used_strings_can_grow(
    strings: Strings,
    table: Table,
    refs: int,
    text: Seq<char>,
)
    requires
        can_grow(strings, table),
    ensures
        can_grow(strings.released(refs), table),
        can_grow(strings.with_use(text), table),
{
    let held = strings.values.len() - strings.pending.len();
    let more = strings.with_use(text);
    assert(more.values.take(held) =~= strings.values.take(held));
    assert(more.pending =~= more.values.skip(held));
}

/// Once the shared strings of an update have been written, their document reads as
/// all of them: those that it held as they were, the new ones as far as XML can
/// hold them. With this
/// [`load_shared_strings`](crate::xlsx_reader::XlsxReader::load_shared_strings)
/// finds the texts that the cells point at.
pub proof fn law_shared_strings_are_kept(book: XlsxPackage, table: Table, info: BookInfo)
    requires
        can_grow(book.strings, table),
        book.strings.dirty,
    ensures
        ({
            let strings = book.strings;
            let held = strings.values.len() - strings.pending.len();
            let grown = Table {
                inner: table.inner + new_items(strings.pending, strings.pending.len()),
                uses: strings.count,
                texts: strings.values.len() as int,
                ..table
            };
            let read = crate::xml_documents::shared_strings_of(
                crate::markup::items(grown.document()),
            );
            let done = book.committed();
            &&& done.fault is None
            &&& done.book.strings.xml == Some(crate::markup::written(grown.document()))
            &&& done.book.strings.values == strings.values
            &&& crate::markup::is_document(grown.document())
            &&& read == strings.values.take(held) + kept_texts(
                strings.pending,
                strings.pending.len(),
            )
            &&& (info.shared == read && read.len() <= usize::MAX && forall|i: int|
                0 <= i < held ==> #[trigger] strings.values[i]
                    == crate::xlsx_update_read::kept_text(strings.values[i]))
                ==> crate::xlsx_update_read::are_found(strings, info)
        }),
{
    let strings = book.strings;
    let held = strings.values.len() - strings.pending.len();
    let found = strings.values.take(held);
    let n = strings.values.len() as int;
    law_new_texts_are_added(
        table.gap,
        table.inner,
        table.uses,
        table.texts,
        found,
        strings.count,
        n,
        strings.pending,
    );
    let more = table.inner + new_items(strings.pending, strings.pending.len());
    let read = found + kept_texts(strings.pending, strings.pending.len());
    law_texts_are_read(table.gap, more, strings.count, n, read);
    assert forall|i: int| 0 <= i < n implies #[trigger] read[i] == if i < held {
        strings.values[i]
    } else {
        crate::xlsx_update_read::kept_text(strings.values[i])
    } by {
        if i >= held {
            assert(strings.pending[i - held] == strings.values[i]);
        }
    }
}

} // verus!
