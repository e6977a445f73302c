//! The relationships of a workbook that the writers make read back.

use vstd::prelude::*;

verus! {

/// A value that stands in a tag as it is.
pub open spec fn is_clean(s: Seq<char>) -> bool {
    forall|i: int|
        0 <= i < s.len() ==> #[trigger] s[i] != '"' && s[i] != '\'' && s[i] != '&' && s[i] != '<'
            && s[i] != '>' && !crate::xml_utils::is_control(s[i])
}

/// The tag of a relationship.
pub open spec fn relationship_tag(id: Seq<char>, kind: Seq<char>, target: Seq<char>) -> Seq<char> {
    "<Relationship Id=\""@ + id + "\" Type=\""@ + kind + "\" Target=\""@ + target + "\"/>"@
}

/// A clean value reads as it stands.
proof fn lemma_clean_reads(s: Seq<char>)
    requires
        is_clean(s),
    ensures
        crate::xml_utils::unescaped_text(s) == s,
{
    assert forall|i: int| 0 <= i < s.len() implies crate::xml_utils::entity(#[trigger] s[i])
        == seq![s[i]] by {}
    crate::xml_utils::lemma_plain_with_entities(s);
    assert(!crate::xml_utils::has_control(s));
    crate::xml_utils::law_escape_round_trip(s);
}

/// A scan stops at the first character of a kind.
pub proof fn lemma_scan_to(s: Seq<char>, from: int, at: int, stop: spec_fn(char) -> bool)
    requires
        0 <= from <= at < s.len(),
        stop(s[at]),
        forall|j: int| from <= j < at ==> !stop(#[trigger] s[j]),
    ensures
        crate::xml_tags::scan(s, from, stop) == at,
    decreases at - from,
{
    if from < at {
        lemma_scan_to(s, from + 1, at, stop);
    }
}

/// One attribute is looked at: a blank, its key from `a` to `b`, and its value in
/// quotation marks up to `v`.
pub proof fn lemma_attribute_step(tag: Seq<char>, a: int, b: int, v: int, wanted: Seq<char>)
    requires
        0 < a < b,
        b + 1 < v < tag.len(),
        tag[a - 1] == ' ',
        tag[b] == '=',
        tag[b + 1] == '"',
        tag[v] == '"',
        forall|j: int| a <= j < b ==> crate::markup::is_letter(#[trigger] tag[j]),
        forall|j: int| b + 1 < j < v ==> #[trigger] tag[j] != '"',
    ensures
        crate::xml_tags::attribute_from(tag, a - 1, wanted) == if crate::xml_tags::names_attribute(
            tag.subrange(a, b),
            wanted,
        ) {
            Some(crate::xml_utils::unescaped_text(tag.subrange(b + 2, v)))
        } else {
            crate::xml_tags::attribute_from(tag, v + 1, wanted)
        },
{
    assert(crate::markup::is_letter(tag[a]));
    lemma_scan_to(tag, a - 1, a, crate::xml_tags::name_starts());
    lemma_scan_to(tag, a, b, crate::xml_tags::name_ends());
    lemma_scan_to(tag, b, b, crate::xml_tags::non_spaces());
    lemma_scan_to(tag, b + 1, b + 1, crate::xml_tags::non_spaces());
    lemma_scan_to(tag, b + 2, v, crate::xml_tags::is_char('"'));
}

proof fn lemma_parts()
    ensures
        "<Relationship Id=\""@ == seq![
            '<', 'R', 'e', 'l', 'a', 't', 'i', 'o', 'n', 's', 'h', 'i', 'p', ' ', 'I', 'd', '=',
            '"',
        ],
        "\" Type=\""@ == seq!['"', ' ', 'T', 'y', 'p', 'e', '=', '"'],
        "\" Target=\""@ == seq!['"', ' ', 'T', 'a', 'r', 'g', 'e', 't', '=', '"'],
        "\"/>"@ == seq!['"', '/', '>'],
        "Id"@ == seq!['I', 'd'],
        "Target"@ == seq!['T', 'a', 'r', 'g', 'e', 't'],
        "Relationship"@ == seq![
            'R', 'e', 'l', 'a', 't', 'i', 'o', 'n', 's', 'h', 'i', 'p',
        ],
{
    reveal_strlit("<Relationship Id=\"");
    reveal_strlit("\" Type=\"");
    reveal_strlit("\" Target=\"");
    reveal_strlit("\"/>");
    reveal_strlit("Id");
    reveal_strlit("Target");
    reveal_strlit("Relationship");
    assert("<Relationship Id=\""@ =~= seq![
        '<', 'R', 'e', 'l', 'a', 't', 'i', 'o', 'n', 's', 'h', 'i', 'p', ' ', 'I', 'd', '=',
        '"',
    ]);
    assert("\" Type=\""@ =~= seq!['"', ' ', 'T', 'y', 'p', 'e', '=', '"']);
    assert("\" Target=\""@ =~= seq!['"', ' ', 'T', 'a', 'r', 'g', 'e', 't', '=', '"']);
    assert("\"/>"@ =~= seq!['"', '/', '>']);
    assert("Id"@ =~= seq!['I', 'd']);
    assert("Target"@ =~= seq!['T', 'a', 'r', 'g', 'e', 't']);
    assert("Relationship"@ =~= seq![
        'R', 'e', 'l', 'a', 't', 'i', 'o', 'n', 's', 'h', 'i', 'p',
    ]);
}

proof fn lemma_part(tag: Seq<char>, from: int, to: int, part: Seq<char>)
    requires
        0 <= from <= to <= tag.len(),
        tag.subrange(from, to) == part,
    ensures
        forall|j: int| from <= j < to ==> #[trigger] tag[j] == part[j - from],
{
    assert forall|j: int| from <= j < to implies #[trigger] tag[j] == part[j - from] by {
        assert(tag.subrange(from, to)[j - from] == tag[j]);
    }
}

/// The parts of the tag of a relationship.
proof fn lemma_tag_parts(id: Seq<char>, kind: Seq<char>, target: Seq<char>)
    ensures
        ({
            let tag = relationship_tag(id, kind, target);
            let p2 = 18 + id.len() as int;
            let p3 = p2 + 8;
            let p4 = p3 + kind.len();
            let p5 = p4 + 10;
            let p6 = p5 + target.len();
            &&& tag.len() == p6 + 3
            &&& tag.subrange(0, 18) == "<Relationship Id=\""@
            &&& tag.subrange(18, p2) == id
            &&& tag.subrange(p2, p3) == "\" Type=\""@
            &&& tag.subrange(p3, p4) == kind
            &&& tag.subrange(p4, p5) == "\" Target=\""@
            &&& tag.subrange(p5, p6) == target
            &&& tag.subrange(p6, p6 + 3) == "\"/>"@
        }),
{
    lemma_parts();
    let tag = relationship_tag(id, kind, target);
    let p2 = 18 + id.len() as int;
    let p3 = p2 + 8;
    let p4 = p3 + kind.len();
    let p5 = p4 + 10;
    let p6 = p5 + target.len();
    assert(tag.subrange(0, 18) =~= "<Relationship Id=\""@);
    assert(tag.subrange(18, p2) =~= id);
    assert(tag.subrange(p2, p3) =~= "\" Type=\""@);
    assert(tag.subrange(p3, p4) =~= kind);
    assert(tag.subrange(p4, p5) =~= "\" Target=\""@);
    assert(tag.subrange(p5, p6) =~= target);
    assert(tag.subrange(p6, p6 + 3) =~= "\"/>"@);
}

/// The attributes of a relationship read as they were written.
#[verifier::spinoff_prover]
proof fn lemma_attributes_read(id: Seq<char>, kind: Seq<char>, target: Seq<char>)
    requires
        is_clean(id),
        is_clean(kind),
        is_clean(target),
    ensures
        ({
            let tag = relationship_tag(id, kind, target);
            &&& crate::xml_tags::attribute(tag, "Id"@) == Some(id)
            &&& crate::xml_tags::attribute(tag, "Target"@) == Some(target)
        }),
{
    let tag = relationship_tag(id, kind, target);
    let p2 = 18 + id.len() as int;
    let p3 = p2 + 8;
    let p4 = p3 + kind.len();
    let p5 = p4 + 10;
    let p6 = p5 + target.len();
    lemma_parts();
    lemma_tag_parts(id, kind, target);
    lemma_part(tag, 0, 18, "<Relationship Id=\""@);
    lemma_part(tag, 18, p2, id);
    lemma_part(tag, p2, p3, "\" Type=\""@);
    lemma_part(tag, p3, p4, kind);
    lemma_part(tag, p4, p5, "\" Target=\""@);
    lemma_part(tag, p5, p6, target);
    lemma_part(tag, p6, p6 + 3, "\"/>"@);
    lemma_scan_to(tag, 0, 0, crate::xml_tags::is_char('<'));
    lemma_scan_to(tag, 1, 13, crate::xml_tags::tag_name_ends());
    lemma_clean_reads(id);
    lemma_clean_reads(target);
    lemma_attribute_step(tag, 14, 16, p2, "Id"@);
    lemma_attribute_step(tag, 14, 16, p2, "Target"@);
    assert(tag.subrange(14, 16) =~= "Id"@);
    assert(crate::xml_tags::names_attribute("Id"@, "Id"@));
    assert(!"Target"@.contains(':'));
    lemma_attribute_step(tag, p2 + 2, p2 + 6, p4, "Target"@);
    assert(tag.subrange(p2 + 2, p2 + 6).len() != "Target"@.len());
    lemma_attribute_step(tag, p4 + 2, p4 + 8, p6, "Target"@);
    assert(tag.subrange(p4 + 2, p4 + 8) =~= "Target"@);
    assert(crate::xml_tags::names_attribute("Target"@, "Target"@));
}

/// The name in a tag is its first word.
proof fn lemma_name(word: Seq<char>, rest: Seq<char>)
    requires
        word.len() > 0,
        word.last() != '/',
        forall|i: int|
            0 <= i < word.len() ==> #[trigger] word[i] != ':' && !crate::text::is_whitespace(
                word[i],
            ),
        rest.len() > 0,
        rest[0] == ' ',
    ensures
        crate::xml_tags::local_name(word + rest) == word,
{
    let s = word + rest;
    let n = word.len() as int;
    assert forall|j: int| 0 <= j < n implies s[j] == #[trigger] word[j] by {}
    assert(s[0] == word[0]);
    assert(s[n] == rest[0]);
    let full = |c: char| !crate::text::is_whitespace(c);
    let blank = |c: char| crate::text::is_whitespace(c);
    lemma_scan_to(s, 0, 0, full);
    assert forall|j: int| 0 <= j < n implies !blank(#[trigger] s[j]) by {
        assert(s[j] == word[j]);
    }
    lemma_scan_to(s, 0, n, blank);
    assert(s.subrange(0, n) =~= word);
    crate::xml_tags::lemma_no_colon(word);
}

/// The tag of a relationship ends at its only `>`.
#[verifier::spinoff_prover]
proof fn lemma_tag_shape(id: Seq<char>, kind: Seq<char>, target: Seq<char>)
    requires
        is_clean(id),
        is_clean(kind),
        is_clean(target),
    ensures
        ({
            let tag = relationship_tag(id, kind, target);
            &&& tag.len() > 14
            &&& tag.subrange(0, 14) == "<"@ + "Relationship"@ + " "@
            &&& tag[tag.len() - 1] == '>'
            &&& forall|j: int| 0 <= j < tag.len() - 1 ==> #[trigger] tag[j] != '>'
        }),
{
    let tag = relationship_tag(id, kind, target);
    let p2 = 18 + id.len() as int;
    let p3 = p2 + 8;
    let p4 = p3 + kind.len();
    let p5 = p4 + 10;
    let p6 = p5 + target.len();
    reveal_strlit("<");
    reveal_strlit(" ");
    lemma_parts();
    lemma_tag_parts(id, kind, target);
    lemma_part(tag, 0, 18, "<Relationship Id=\""@);
    lemma_part(tag, 18, p2, id);
    lemma_part(tag, p2, p3, "\" Type=\""@);
    lemma_part(tag, p3, p4, kind);
    lemma_part(tag, p4, p5, "\" Target=\""@);
    lemma_part(tag, p5, p6, target);
    lemma_part(tag, p6, p6 + 3, "\"/>"@);
    assert(tag.subrange(0, 14) =~= "<"@ + "Relationship"@ + " "@);
}

/// A tag with a name is found where it stands.
proof fn lemma_tag_at(before: Seq<char>, tag: Seq<char>, after: Seq<char>, name: Seq<char>)
    requires
        name.len() > 0,
        name[0] != '/',
        name.last() != '/',
        forall|i: int|
            0 <= i < name.len() ==> #[trigger] name[i] != ':' && !crate::text::is_whitespace(
                name[i],
            ),
        tag.len() > name.len() + 2,
        tag.subrange(0, name.len() as int + 2) == "<"@ + name + " "@,
        tag[tag.len() - 1] == '>',
        forall|j: int| 0 <= j < tag.len() - 1 ==> #[trigger] tag[j] != '>',
    ensures
        forall|local: Seq<char>| #[trigger]
            crate::xml_tags::open_tag_at(before + tag + after, before.len() as int, local) == if local
                == name {
                Some((before.len() + tag.len()) as int)
            } else {
                None
            },
{
    let xml = before + tag + after;
    let at = before.len() as int;
    let n = name.len() as int;
    reveal_strlit("<");
    reveal_strlit(" ");
    assert forall|j: int| 0 <= j < tag.len() implies xml[at + j] == #[trigger] tag[j] by {}
    assert forall|j: int| 0 <= j < n + 2 implies #[trigger] tag[j] == ("<"@ + name + " "@)[j] by {
        assert(tag.subrange(0, n + 2)[j] == tag[j]);
    }
    assert(tag[0] == '<' && tag[1] == name[0] && tag[n + 1] == ' ');
    assert(xml[at] == tag[0] && xml[at + 1] == tag[1]);
    let close = at + tag.len() - 1;
    assert forall|j: int| at <= j < close implies xml[j] != '>' by {
        assert(xml[j] == tag[j - at]);
    }
    assert(xml[close] == tag[tag.len() - 1]);
    crate::xlsx_string_update::lemma_first_char(xml, '>', at, close);
    let inner = xml.subrange(at + 1, close);
    let rest = inner.skip(n);
    assert(inner =~= name + rest) by {
        assert forall|j: int| 0 <= j < n implies inner[j] == #[trigger] name[j] by {
            assert(inner[j] == tag[j + 1]);
        }
    }
    assert(rest[0] == tag[n + 1]);
    lemma_name(name, rest);
}

/// A relationship is found where its tag stands.
proof fn lemma_tag_found(
    before: Seq<char>,
    id: Seq<char>,
    kind: Seq<char>,
    target: Seq<char>,
    after: Seq<char>,
)
    requires
        is_clean(id),
        is_clean(kind),
        is_clean(target),
    ensures
        ({
            let tag = relationship_tag(id, kind, target);
            crate::xml_tags::open_tag_from(
                before + tag + after,
                before.len() as int,
                "Relationship"@,
            ) == Some((before.len() as int, (before.len() + tag.len()) as int))
        }),
{
    lemma_parts();
    lemma_tag_shape(id, kind, target);
    lemma_tag_at(before, relationship_tag(id, kind, target), after, "Relationship"@);
}

/// A relationship is read where its tag stands.
proof fn lemma_tag_read(
    before: Seq<char>,
    id: Seq<char>,
    kind: Seq<char>,
    target: Seq<char>,
    after: Seq<char>,
    known: Map<Seq<char>, Seq<char>>,
)
    requires
        is_clean(id),
        is_clean(kind),
        is_clean(target),
    ensures
        ({
            let tag = relationship_tag(id, kind, target);
            let xml = before + tag + after;
            crate::relationships::relationships_from(xml, before.len() as int, known)
                == crate::relationships::relationships_from(
                xml,
                (before.len() + tag.len()) as int,
                known.insert(id, target),
            )
        }),
{
    let tag = relationship_tag(id, kind, target);
    let xml = before + tag + after;
    let at = before.len() as int;
    lemma_tag_found(before, id, kind, target, after);
    lemma_attributes_read(id, kind, target);
    assert(xml.subrange(at, at + tag.len()) =~= tag);
}

/// No relationship stands where none opens.
proof fn lemma_none_between(xml: Seq<char>, from: int, to: int, known: Map<Seq<char>, Seq<char>>)
    requires
        0 <= from <= to <= xml.len(),
        forall|j: int|
            from <= j < to ==> crate::xml_tags::open_tag_at(xml, j, "Relationship"@) is None,
    ensures
        crate::relationships::relationships_from(xml, from, known)
            == crate::relationships::relationships_from(xml, to, known),
    decreases to - from,
{
    if from < to {
        lemma_none_between(xml, from + 1, to, known);
        assert(crate::xml_tags::open_tag_at(xml, from, "Relationship"@) is None);
        assert(crate::xml_tags::open_tag_from(xml, from, "Relationship"@)
            == crate::xml_tags::open_tag_from(xml, from + 1, "Relationship"@));
    }
}

/// What stands in front of the relationships holds none.
#[verifier::spinoff_prover]
proof fn lemma_opening(rest: Seq<char>, known: Map<Seq<char>, Seq<char>>)
    ensures
        crate::relationships::relationships_from(
            crate::xlsx_parts::RELS_OPEN@ + rest,
            0,
            known,
        ) == crate::relationships::relationships_from(
            crate::xlsx_parts::RELS_OPEN@ + rest,
            crate::xlsx_parts::RELS_OPEN@.len() as int,
            known,
        ),
{
    let open = crate::xlsx_parts::RELS_OPEN@;
    let xml = open + rest;
    reveal_strlit("<?xml version=\"1.0\" encoding=\"UTF-8\" standalone=\"yes\"?>\n<Relationships xmlns=\"http://schemas.openxmlformats.org/package/2006/relationships\">");
    reveal_strlit("?xml");
    reveal_strlit("Relationships");
    reveal_strlit("<");
    reveal_strlit(" ");
    lemma_parts();
    let declaration = open.take(55);
    let start = open.take(56);
    let tag = open.skip(56);
    assert(xml =~= Seq::<char>::empty() + declaration + xml.skip(55));
    assert(xml =~= start + tag + rest);
    assert(declaration.subrange(0, 6) =~= "<"@ + "?xml"@ + " "@);
    lemma_tag_at(Seq::empty(), declaration, xml.skip(55), "?xml"@);
    assert(tag.subrange(0, 15) =~= "<"@ + "Relationships"@ + " "@);
    lemma_tag_at(start, tag, rest, "Relationships"@);
    assert("?xml"@.len() != "Relationship"@.len());
    assert("Relationships"@.len() != "Relationship"@.len());
    assert forall|j: int| 0 <= j < open.len() implies crate::xml_tags::open_tag_at(
        xml,
        j,
        "Relationship"@,
    ) is None by {
        assert(xml[j] == open[j]);
        if j != 0 && j != 56 {
            assert(open[j] != '<');
        }
    }
    lemma_none_between(xml, 0, open.len() as int, known);
}

/// Behind the last relationship there is none.
proof fn lemma_closing(before: Seq<char>, gap: Seq<char>, known: Map<Seq<char>, Seq<char>>)
    requires
        forall|j: int| 0 <= j < gap.len() ==> #[trigger] gap[j] != '<',
    ensures
        crate::relationships::relationships_from(
            before + (gap + "</Relationships>"@),
            before.len() as int,
            known,
        ) == known,
{
    reveal_strlit("</Relationships>");
    let end = "</Relationships>"@;
    let xml = before + (gap + end);
    let at = before.len() as int;
    assert forall|j: int| at <= j < xml.len() implies crate::xml_tags::open_tag_at(
        xml,
        j,
        "Relationship"@,
    ) is None by {
        if j < at + gap.len() {
            assert(xml[j] == gap[j - at]);
        } else {
            let k = j - at - gap.len();
            assert(xml[j] == end[k]);
            if k == 0 {
                assert(xml[j + 1] == end[1]);
            } else {
                assert(end[k] != '<');
            }
        }
    }
    lemma_none_between(xml, at, xml.len() as int, known);
}

/// The id of the relationship with a number.
pub open spec fn relationship_id(n: int) -> Seq<char> {
    "rId"@ + crate::text::decimal(n)
}

/// The target of a worksheet, by its number.
pub open spec fn sheet_target(n: int, extension: Seq<char>) -> Seq<char> {
    "worksheets/sheet"@ + crate::text::decimal(n) + extension
}

/// The targets of the first `n` worksheets by their ids.
pub open spec fn sheet_targets(n: nat, extension: Seq<char>) -> Map<Seq<char>, Seq<char>>
    decreases n,
{
    if n == 0 {
        Map::empty()
    } else {
        sheet_targets((n - 1) as nat, extension).insert(
            relationship_id(n as int),
            sheet_target(n as int, extension),
        )
    }
}

proof fn lemma_clean_parts(n: int, extension: Seq<char>)
    requires
        is_clean(extension),
    ensures
        is_clean(relationship_id(n)),
        is_clean(sheet_target(n, extension)),
{
    let s = crate::text::decimal(n);
    let m = if n < 0 {
        (-n) as nat
    } else {
        n as nat
    };
    crate::text::lemma_digits(m);
    reveal_strlit("rId");
    reveal_strlit("worksheets/sheet");
    assert forall|i: int| 0 <= i < s.len() implies #[trigger] s[i] == '-' || '0' <= s[i] <= '9' by {
        if n < 0 {
            if i > 0 {
                assert(s[i] == crate::text::digits(m)[i - 1]);
            }
        } else {
            assert(s[i] == crate::text::digits(m)[i]);
        }
    }
    let id = relationship_id(n);
    assert forall|i: int| 0 <= i < id.len() implies #[trigger] id[i] != '"' && id[i] != '\''
        && id[i] != '&' && id[i] != '<' && id[i] != '>' && !crate::xml_utils::is_control(id[i]) by {
        if i >= 3 {
            assert(id[i] == s[i - 3]);
        }
    }
    let target = sheet_target(n, extension);
    assert forall|i: int| 0 <= i < target.len() implies #[trigger] target[i] != '"' && target[i]
        != '\'' && target[i] != '&' && target[i] != '<' && target[i] != '>'
        && !crate::xml_utils::is_control(target[i]) by {
        if i < 16 {
            assert(target[i] == "worksheets/sheet"@[i]);
        } else if i < 16 + s.len() {
            assert(target[i] == s[i - 16]);
        } else {
            assert(target[i] == extension[i - 16 - s.len()]);
        }
    }
}

/// The tags of the first `n` worksheets.
pub open spec fn sheet_tags(n: nat, extension: Seq<char>) -> Seq<char>
    decreases n,
{
    if n == 0 {
        Seq::empty()
    } else {
        sheet_tags((n - 1) as nat, extension) + relationship_tag(
            relationship_id(n as int),
            "http://schemas.openxmlformats.org/officeDocument/2006/relationships/worksheet"@,
            sheet_target(n as int, extension),
        )
    }
}

proof fn lemma_kinds()
    ensures
        is_clean("http://schemas.openxmlformats.org/officeDocument/2006/relationships/worksheet"@),
        is_clean("http://schemas.openxmlformats.org/officeDocument/2006/relationships/styles"@),
        is_clean("http://schemas.openxmlformats.org/officeDocument/2006/relationships/sharedStrings"@),
{
    reveal_strlit("http://schemas.openxmlformats.org/officeDocument/2006/relationships/worksheet");
    reveal_strlit("http://schemas.openxmlformats.org/officeDocument/2006/relationships/styles");
    reveal_strlit("http://schemas.openxmlformats.org/officeDocument/2006/relationships/sharedStrings");
}

/// The tags of the worksheets are read one after the other.
proof fn lemma_sheet_tags(before: Seq<char>, n: nat, extension: Seq<char>, rest: Seq<char>)
    requires
        is_clean(extension),
    ensures
        ({
            let xml = before + sheet_tags(n, extension) + rest;
            crate::relationships::relationships_from(xml, before.len() as int, Map::empty())
                == crate::relationships::relationships_from(
                xml,
                (before.len() + sheet_tags(n, extension).len()) as int,
                sheet_targets(n, extension),
            )
        }),
    decreases n,
{
    if n > 0 {
        let fewer = sheet_tags((n - 1) as nat, extension);
        let kind = "http://schemas.openxmlformats.org/officeDocument/2006/relationships/worksheet"@;
        let id = relationship_id(n as int);
        let target = sheet_target(n as int, extension);
        let here = relationship_tag(id, kind, target);
        lemma_kinds();
        lemma_clean_parts(n as int, extension);
        lemma_sheet_tags(before, (n - 1) as nat, extension, here + rest);
        assert(before + sheet_tags(n, extension) + rest =~= before + fewer + (here + rest));
        assert(before + sheet_tags(n, extension) + rest =~= (before + fewer) + here + rest);
        lemma_tag_read(
            before + fewer,
            id,
            kind,
            target,
            rest,
            sheet_targets((n - 1) as nat, extension),
        );
    }
}

/// The tags of the styles and the shared strings, and the end behind them.
pub open spec fn last_tags(first: int, styles: Seq<char>, strings: Seq<char>, gap: Seq<char>) -> Seq<
    char,
> {
    relationship_tag(
        relationship_id(first),
        "http://schemas.openxmlformats.org/officeDocument/2006/relationships/styles"@,
        styles,
    ) + gap + relationship_tag(
        relationship_id(first + 1),
        "http://schemas.openxmlformats.org/officeDocument/2006/relationships/sharedStrings"@,
        strings,
    ) + (gap + "</Relationships>"@)
}

/// The relationships of a workbook as both writers lay them out.
#[verifier::spinoff_prover]
proof fn lemma_layout_read(
    n: nat,
    extension: Seq<char>,
    first: int,
    styles: Seq<char>,
    strings: Seq<char>,
    gap: Seq<char>,
)
    requires
        is_clean(extension),
        is_clean(styles),
        is_clean(strings),
        forall|j: int| 0 <= j < gap.len() ==> #[trigger] gap[j] != '<',
    ensures
        crate::relationships::relationships(
            crate::xlsx_parts::RELS_OPEN@ + sheet_tags(n, extension) + last_tags(
                first,
                styles,
                strings,
                gap,
            ),
        ) == sheet_targets(n, extension).insert(relationship_id(first), styles).insert(
            relationship_id(first + 1),
            strings,
        ),
{
    let open = crate::xlsx_parts::RELS_OPEN@;
    let tags = sheet_tags(n, extension);
    let kind_a = "http://schemas.openxmlformats.org/officeDocument/2006/relationships/styles"@;
    let kind_b = "http://schemas.openxmlformats.org/officeDocument/2006/relationships/sharedStrings"@;
    let a = relationship_tag(relationship_id(first), kind_a, styles);
    let b = relationship_tag(relationship_id(first + 1), kind_b, strings);
    let end = gap + "</Relationships>"@;
    let rest = last_tags(first, styles, strings, gap);
    let xml = open + tags + rest;
    let m0 = sheet_targets(n, extension);
    let m1 = m0.insert(relationship_id(first), styles);
    let m2 = m1.insert(relationship_id(first + 1), strings);
    lemma_kinds();
    lemma_clean_parts(first, extension);
    lemma_clean_parts(first + 1, extension);
    assert(xml =~= open + (tags + rest));
    lemma_opening(tags + rest, Map::empty());
    lemma_sheet_tags(open, n, extension, rest);
    assert(xml =~= (open + tags) + a + (gap + b + end));
    lemma_tag_read(open + tags, relationship_id(first), kind_a, styles, gap + b + end, m0);
    let p = (open + tags + a).len() as int;
    assert forall|j: int| p <= j < p + gap.len() implies crate::xml_tags::open_tag_at(
        xml,
        j,
        "Relationship"@,
    ) is None by {
        assert(xml[j] == gap[j - p]);
    }
    lemma_none_between(xml, p, p + gap.len(), m1);
    assert(xml =~= (open + tags + a + gap) + b + end);
    lemma_tag_read(open + tags + a + gap, relationship_id(first + 1), kind_b, strings, end, m1);
    assert(xml =~= (open + tags + a + gap + b) + end);
    lemma_closing(open + tags + a + gap + b, gap, m2);
}

/// The tag of a worksheet as a writer spells it.
#[verifier::spinoff_prover]
proof fn lemma_sheet_spelled(number: Seq<char>, extension: Seq<char>, end: Seq<char>)
    requires
        end == extension + "\"/>"@,
    ensures
        "<Relationship Id=\"rId"@ + number
            + "\" Type=\"http://schemas.openxmlformats.org/officeDocument/2006/relationships/worksheet\" Target=\"worksheets/sheet"@
            + number + end == relationship_tag(
            "rId"@ + number,
            "http://schemas.openxmlformats.org/officeDocument/2006/relationships/worksheet"@,
            "worksheets/sheet"@ + number + extension,
        ),
{
    reveal_strlit("<Relationship Id=\"rId");
    reveal_strlit("\" Type=\"http://schemas.openxmlformats.org/officeDocument/2006/relationships/worksheet\" Target=\"worksheets/sheet");
    reveal_strlit("http://schemas.openxmlformats.org/officeDocument/2006/relationships/worksheet");
    reveal_strlit("rId");
    reveal_strlit("worksheets/sheet");
    lemma_parts();
    assert("<Relationship Id=\"rId"@ =~= "<Relationship Id=\""@ + "rId"@);
    assert("\" Type=\"http://schemas.openxmlformats.org/officeDocument/2006/relationships/worksheet\" Target=\"worksheets/sheet"@
        =~= "\" Type=\""@ + "http://schemas.openxmlformats.org/officeDocument/2006/relationships/worksheet"@ + "\" Target=\""@
        + "worksheets/sheet"@);
    lemma_nine(
        "<Relationship Id=\""@,
        "rId"@,
        number,
        "\" Type=\""@,
        "http://schemas.openxmlformats.org/officeDocument/2006/relationships/worksheet"@,
        "\" Target=\""@,
        "worksheets/sheet"@,
        extension,
        "\"/>"@,
    );
}

proof fn lemma_nine(
    a: Seq<char>,
    b: Seq<char>,
    c: Seq<char>,
    d: Seq<char>,
    e: Seq<char>,
    f: Seq<char>,
    g: Seq<char>,
    h: Seq<char>,
    i: Seq<char>,
)
    ensures
        (a + b) + c + (d + e + f + g) + c + (h + i) == a + (b + c) + d + e + f + (g + c + h) + i,
{
    assert((a + b) + c + (d + e + f + g) + c + (h + i) =~= a + (b + c) + d + e + f + (g + c + h)
        + i);
}

proof fn lemma_xlsx_sheets(n: nat)
    ensures
        crate::xlsx_parts::sheet_rels(n) == sheet_tags(n, ".xml"@),
    decreases n,
{
    if n > 0 {
        lemma_xlsx_sheets((n - 1) as nat);
        reveal_strlit(".xml");
        reveal_strlit("\"/>");
        reveal_strlit(".xml\"/>");
        assert(".xml\"/>"@ =~= ".xml"@ + "\"/>"@);
        lemma_sheet_spelled(crate::text::decimal(n as int), ".xml"@, ".xml\"/>"@);
        lemma_appended(
            crate::xlsx_parts::sheet_rels((n - 1) as nat),
            "<Relationship Id=\"rId"@,
            crate::text::decimal(n as int),
            "\" Type=\"http://schemas.openxmlformats.org/officeDocument/2006/relationships/worksheet\" Target=\"worksheets/sheet"@,
            ".xml\"/>"@,
        );
    }
}

proof fn lemma_xlsb_sheets(n: nat)
    ensures
        crate::xlsb_xml::sheet_rels(n) == sheet_tags(n, ".bin"@),
    decreases n,
{
    if n > 0 {
        lemma_xlsb_sheets((n - 1) as nat);
        reveal_strlit(".bin");
        reveal_strlit("\"/>");
        reveal_strlit(".bin\"/>");
        assert(".bin\"/>"@ =~= ".bin"@ + "\"/>"@);
        lemma_sheet_spelled(crate::text::decimal(n as int), ".bin"@, ".bin\"/>"@);
        lemma_appended(
            crate::xlsb_xml::sheet_rels((n - 1) as nat),
            "<Relationship Id=\"rId"@,
            crate::text::decimal(n as int),
            "\" Type=\"http://schemas.openxmlformats.org/officeDocument/2006/relationships/worksheet\" Target=\"worksheets/sheet"@,
            ".bin\"/>"@,
        );
    }
}

proof fn lemma_appended(a: Seq<char>, b: Seq<char>, c: Seq<char>, d: Seq<char>, e: Seq<char>)
    ensures
        a + b + c + d + c + e == a + (b + c + d + c + e),
{
    assert(a + b + c + d + c + e =~= a + (b + c + d + c + e));
}

/// The last tags as the XLSX writer spells them.
#[verifier::spinoff_prover]
proof fn lemma_xlsx_last(first: Seq<char>, second: Seq<char>)
    ensures
        "<Relationship Id=\"rId"@ + first
            + "\" Type=\"http://schemas.openxmlformats.org/officeDocument/2006/relationships/styles\" Target=\"styles.xml\"/><Relationship Id=\"rId"@
            + second
            + "\" Type=\"http://schemas.openxmlformats.org/officeDocument/2006/relationships/sharedStrings\" Target=\"sharedStrings.xml\"/></Relationships>"@
            == relationship_tag(
            "rId"@ + first,
            "http://schemas.openxmlformats.org/officeDocument/2006/relationships/styles"@,
            "styles.xml"@,
        ) + Seq::<char>::empty() + relationship_tag(
            "rId"@ + second,
            "http://schemas.openxmlformats.org/officeDocument/2006/relationships/sharedStrings"@,
            "sharedStrings.xml"@,
        ) + (Seq::<char>::empty() + "</Relationships>"@),
{
    reveal_strlit("<Relationship Id=\"rId");
    reveal_strlit("\" Type=\"http://schemas.openxmlformats.org/officeDocument/2006/relationships/styles\" Target=\"styles.xml\"/><Relationship Id=\"rId");
    reveal_strlit("\" Type=\"http://schemas.openxmlformats.org/officeDocument/2006/relationships/sharedStrings\" Target=\"sharedStrings.xml\"/></Relationships>");
    reveal_strlit("http://schemas.openxmlformats.org/officeDocument/2006/relationships/styles");
    reveal_strlit("http://schemas.openxmlformats.org/officeDocument/2006/relationships/sharedStrings");
    reveal_strlit("rId");
    reveal_strlit("styles.xml");
    reveal_strlit("sharedStrings.xml");
    reveal_strlit("</Relationships>");
    lemma_parts();
    let start = "<Relationship Id=\""@ + "rId"@;
    let middle = "\" Type=\""@ + "http://schemas.openxmlformats.org/officeDocument/2006/relationships/styles"@ + "\" Target=\""@ + "styles.xml"@ + "\"/>"@ + Seq::<char>::empty()
        + start;
    let end = "\" Type=\""@ + "http://schemas.openxmlformats.org/officeDocument/2006/relationships/sharedStrings"@ + "\" Target=\""@ + "sharedStrings.xml"@ + "\"/>"@ + (Seq::<char>::empty()
        + "</Relationships>"@);
    assert("<Relationship Id=\"rId"@ =~= start);
    assert("\" Type=\"http://schemas.openxmlformats.org/officeDocument/2006/relationships/styles\" Target=\"styles.xml\"/><Relationship Id=\"rId"@ =~= middle);
    assert("\" Type=\"http://schemas.openxmlformats.org/officeDocument/2006/relationships/sharedStrings\" Target=\"sharedStrings.xml\"/></Relationships>"@ =~= end);
    assert(start + first + middle + second + end =~= relationship_tag(
        "rId"@ + first,
        "http://schemas.openxmlformats.org/officeDocument/2006/relationships/styles"@,
        "styles.xml"@,
    ) + Seq::<char>::empty() + relationship_tag(
        "rId"@ + second,
        "http://schemas.openxmlformats.org/officeDocument/2006/relationships/sharedStrings"@,
        "sharedStrings.xml"@,
    ) + (Seq::<char>::empty() + "</Relationships>"@));
}

/// The last tags as the XLSB writer spells them.
#[verifier::spinoff_prover]
proof fn lemma_xlsb_last(first: Seq<char>, second: Seq<char>)
    ensures
        "<Relationship Id=\"rId"@ + first
            + "\" Type=\"http://schemas.openxmlformats.org/officeDocument/2006/relationships/styles\" Target=\"styles.bin\"/>\n<Relationship Id=\"rId"@
            + second
            + "\" Type=\"http://schemas.openxmlformats.org/officeDocument/2006/relationships/sharedStrings\" Target=\"sharedStrings.bin\"/>\n</Relationships>"@
            == relationship_tag(
            "rId"@ + first,
            "http://schemas.openxmlformats.org/officeDocument/2006/relationships/styles"@,
            "styles.bin"@,
        ) + "\n"@ + relationship_tag(
            "rId"@ + second,
            "http://schemas.openxmlformats.org/officeDocument/2006/relationships/sharedStrings"@,
            "sharedStrings.bin"@,
        ) + ("\n"@ + "</Relationships>"@),
{
    reveal_strlit("<Relationship Id=\"rId");
    reveal_strlit("\" Type=\"http://schemas.openxmlformats.org/officeDocument/2006/relationships/styles\" Target=\"styles.bin\"/>\n<Relationship Id=\"rId");
    reveal_strlit("\" Type=\"http://schemas.openxmlformats.org/officeDocument/2006/relationships/sharedStrings\" Target=\"sharedStrings.bin\"/>\n</Relationships>");
    reveal_strlit("http://schemas.openxmlformats.org/officeDocument/2006/relationships/styles");
    reveal_strlit("http://schemas.openxmlformats.org/officeDocument/2006/relationships/sharedStrings");
    reveal_strlit("rId");
    reveal_strlit("styles.bin");
    reveal_strlit("sharedStrings.bin");
    reveal_strlit("</Relationships>");
    reveal_strlit("\n");
    lemma_parts();
    let start = "<Relationship Id=\""@ + "rId"@;
    let middle = "\" Type=\""@ + "http://schemas.openxmlformats.org/officeDocument/2006/relationships/styles"@ + "\" Target=\""@ + "styles.bin"@ + "\"/>"@ + "\n"@
        + start;
    let end = "\" Type=\""@ + "http://schemas.openxmlformats.org/officeDocument/2006/relationships/sharedStrings"@ + "\" Target=\""@ + "sharedStrings.bin"@ + "\"/>"@ + ("\n"@
        + "</Relationships>"@);
    assert("<Relationship Id=\"rId"@ =~= start);
    assert("\" Type=\"http://schemas.openxmlformats.org/officeDocument/2006/relationships/styles\" Target=\"styles.bin\"/>\n<Relationship Id=\"rId"@ =~= middle);
    assert("\" Type=\"http://schemas.openxmlformats.org/officeDocument/2006/relationships/sharedStrings\" Target=\"sharedStrings.bin\"/>\n</Relationships>"@ =~= end);
    assert(start + first + middle + second + end =~= relationship_tag(
        "rId"@ + first,
        "http://schemas.openxmlformats.org/officeDocument/2006/relationships/styles"@,
        "styles.bin"@,
    ) + "\n"@ + relationship_tag(
        "rId"@ + second,
        "http://schemas.openxmlformats.org/officeDocument/2006/relationships/sharedStrings"@,
        "sharedStrings.bin"@,
    ) + ("\n"@ + "</Relationships>"@));
}

/// Different numbers have different ids.
proof fn lemma_ids_differ(a: int, b: int)
    requires
        a >= 0,
        b >= 0,
        relationship_id(a) == relationship_id(b),
    ensures
        a == b,
{
    reveal_strlit("rId");
    assert(relationship_id(a).skip(3) =~= crate::text::decimal(a));
    assert(relationship_id(b).skip(3) =~= crate::text::decimal(b));
    crate::text::lemma_digits(a as nat);
    crate::text::lemma_digits(b as nat);
}

proof fn lemma_sheet_targets(n: nat, extension: Seq<char>, i: int)
    requires
        1 <= i <= n,
    ensures
        sheet_targets(n, extension).contains_key(relationship_id(i)),
        sheet_targets(n, extension)[relationship_id(i)] == sheet_target(i, extension),
    decreases n,
{
    if i < n {
        lemma_sheet_targets((n - 1) as nat, extension, i);
        if relationship_id(i) == relationship_id(n as int) {
            lemma_ids_differ(i, n as int);
        }
    }
}

/// The path of a worksheet, by its number.
pub open spec fn sheet_path(n: int, extension: Seq<char>) -> Seq<char> {
    "xl/"@ + sheet_target(n, extension)
}

proof fn lemma_sheet_path(n: int, extension: Seq<char>)
    ensures
        crate::relationships::part_path(sheet_target(n, extension)) == sheet_path(n, extension),
{
    reveal_strlit("xl/");
    reveal_strlit("worksheets/sheet");
    let target = sheet_target(n, extension);
    assert(target[0] == "worksheets/sheet"@[0]);
    assert(target[0] == 'w');
    assert("xl/"@[0] == 'x');
    if crate::xml_utils::stands_at(target, "xl/"@, 0) {
        assert(target.subrange(0, 3)[0] == target[0]);
    }
}

/// The relationships that the XLSX writer states lead from the id of every sheet,
/// which the workbook part gives the sheet, to the part of that sheet. With this
/// the reader opens the sheets that were written.
pub proof fn law_xlsx_sheets_are_located(sheet_count: nat, i: int)
    requires
        1 <= i <= sheet_count,
    ensures
        ({
            let known = crate::relationships::relationships(
                crate::xlsx_parts::workbook_rels(sheet_count),
            );
            &&& known == sheet_targets(sheet_count, ".xml"@).insert(
                relationship_id(sheet_count as int + 1),
                "styles.xml"@,
            ).insert(relationship_id(sheet_count as int + 2), "sharedStrings.xml"@)
            &&& known.contains_key(relationship_id(i))
            &&& crate::relationships::part_path(known[relationship_id(i)]) == sheet_path(
                i,
                ".xml"@,
            )
        }),
{
    let first = sheet_count as int + 1;
    reveal_strlit(".xml");
    reveal_strlit("styles.xml");
    reveal_strlit("sharedStrings.xml");
    lemma_xlsx_sheets(sheet_count);
    lemma_xlsx_last(crate::text::decimal(first), crate::text::decimal(first + 1));
    lemma_layout_read(
        sheet_count,
        ".xml"@,
        first,
        "styles.xml"@,
        "sharedStrings.xml"@,
        Seq::empty(),
    );
    lemma_appended_last(
        crate::xlsx_parts::RELS_OPEN@ + crate::xlsx_parts::sheet_rels(sheet_count),
        "<Relationship Id=\"rId"@,
        crate::text::decimal(first),
        "\" Type=\"http://schemas.openxmlformats.org/officeDocument/2006/relationships/styles\" Target=\"styles.xml\"/><Relationship Id=\"rId"@,
        crate::text::decimal(first + 1),
        "\" Type=\"http://schemas.openxmlformats.org/officeDocument/2006/relationships/sharedStrings\" Target=\"sharedStrings.xml\"/></Relationships>"@,
    );
    lemma_sheet_targets(sheet_count, ".xml"@, i);
    lemma_other_ids(i, first);
    lemma_sheet_path(i, ".xml"@);
}

/// The relationships that the XLSB writer states lead from the id of every sheet,
/// which the workbook part gives the sheet, to the part of that sheet. With this
/// the reader opens the sheets that were written.
pub proof fn law_xlsb_sheets_are_located(sheet_count: nat, i: int)
    requires
        1 <= i <= sheet_count,
    ensures
        ({
            let known = crate::relationships::relationships(
                crate::xlsb_xml::workbook_rels(sheet_count),
            );
            &&& known == sheet_targets(sheet_count, ".bin"@).insert(
                relationship_id(sheet_count as int + 2),
                "styles.bin"@,
            ).insert(relationship_id(sheet_count as int + 3), "sharedStrings.bin"@)
            &&& known.contains_key(relationship_id(i))
            &&& crate::relationships::part_path(known[relationship_id(i)]) == sheet_path(
                i,
                ".bin"@,
            )
        }),
{
    let first = sheet_count as int + 2;
    reveal_strlit(".bin");
    reveal_strlit("styles.bin");
    reveal_strlit("sharedStrings.bin");
    reveal_strlit("\n");
    lemma_xlsb_sheets(sheet_count);
    lemma_xlsb_last(crate::text::decimal(first), crate::text::decimal(first + 1));
    lemma_layout_read(
        sheet_count,
        ".bin"@,
        first,
        "styles.bin"@,
        "sharedStrings.bin"@,
        "\n"@,
    );
    lemma_appended_last(
        crate::xlsx_parts::RELS_OPEN@ + crate::xlsb_xml::sheet_rels(sheet_count),
        "<Relationship Id=\"rId"@,
        crate::text::decimal(first),
        "\" Type=\"http://schemas.openxmlformats.org/officeDocument/2006/relationships/styles\" Target=\"styles.bin\"/>\n<Relationship Id=\"rId"@,
        crate::text::decimal(first + 1),
        "\" Type=\"http://schemas.openxmlformats.org/officeDocument/2006/relationships/sharedStrings\" Target=\"sharedStrings.bin\"/>\n</Relationships>"@,
    );
    lemma_sheet_targets(sheet_count, ".bin"@, i);
    lemma_other_ids(i, first);
    lemma_sheet_path(i, ".bin"@);
}

/// The id of a sheet is neither of the two behind those of the sheets.
proof fn lemma_other_ids(i: int, first: int)
    requires
        0 <= i < first,
    ensures
        relationship_id(i) != relationship_id(first),
        relationship_id(i) != relationship_id(first + 1),
{
    if relationship_id(i) == relationship_id(first) {
        lemma_ids_differ(i, first);
    }
    if relationship_id(i) == relationship_id(first + 1) {
        lemma_ids_differ(i, first + 1);
    }
}

proof fn lemma_appended_last(
    a: Seq<char>,
    b: Seq<char>,
    c: Seq<char>,
    d: Seq<char>,
    e: Seq<char>,
    f: Seq<char>,
)
    ensures
        a + b + c + d + e + f == a + (b + c + d + e + f),
{
    assert(a + b + c + d + e + f =~= a + (b + c + d + e + f));
}

} // verus!
