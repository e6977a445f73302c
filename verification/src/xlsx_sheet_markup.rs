//! Worksheets that are plain markup, and the tags that a search finds in them.

use vstd::prelude::*;
use crate::markup::{Attr, Piece};
use crate::xml_patch::TagSpan;

verus! {

/// A text without the characters that bound tags.
pub open spec fn has_no_bounds(s: Seq<char>) -> bool {
    forall|i: int| 0 <= i < s.len() ==> #[trigger] s[i] != '<' && s[i] != '>'
}

/// No value of an attribute holds a character that bounds tags.
pub open spec fn are_clear(list: Seq<Attr>) -> bool {
    forall|i: int| 0 <= i < list.len() ==> has_no_bounds((#[trigger] list[i]).value)
}

/// A piece that holds the characters that bound tags at its ends only.
pub open spec fn is_clear(piece: Piece) -> bool {
    match piece {
        Piece::Declaration(content) => has_no_bounds(content),
        Piece::Open { attributes, .. } => are_clear(attributes),
        Piece::Empty { attributes, .. } => are_clear(attributes),
        _ => true,
    }
}

/// Sound pieces that hold the characters that bound tags at their ends only.
pub open spec fn all_clear(pieces: Seq<Piece>) -> bool {
    forall|i: int|
        0 <= i < pieces.len() ==> (#[trigger] pieces[i]).is_sound() && is_clear(pieces[i])
}

/// The name of a tag that opens an element.
pub open spec fn tag_name(piece: Piece) -> Option<Seq<char>> {
    match piece {
        Piece::Open { name, .. } => Some(name),
        Piece::Empty { name, .. } => Some(name),
        _ => None,
    }
}

/// A tag that opens an element of this name, capitals or not.
pub open spec fn is_tag(piece: Piece, local: Seq<char>) -> bool {
    tag_name(piece) matches Some(name) && crate::text::same_ignoring_case(name, local)
}

/// None of the pieces opens an element of this name.
pub open spec fn has_no_tag(pieces: Seq<Piece>, local: Seq<char>) -> bool {
    forall|i: int| 0 <= i < pieces.len() ==> !is_tag(#[trigger] pieces[i], local)
}

/// What stands between the bounds of a tag that opens an element.
pub open spec fn tag_content(piece: Piece) -> Seq<char> {
    match piece {
        Piece::Open { name, attributes } => name + crate::markup::attributes_text(attributes),
        Piece::Empty { name, attributes, spaced } => name + crate::markup::attributes_text(
            attributes,
        ) + (if spaced {
            " "@
        } else {
            Seq::empty()
        }) + "/"@,
        _ => Seq::empty(),
    }
}

proof fn lemma_attributes_clear(list: Seq<Attr>)
    requires
        crate::markup::are_attributes(list),
        are_clear(list),
    ensures
        has_no_bounds(crate::markup::attributes_text(list)),
        list.len() > 0 ==> crate::markup::attributes_text(list).len() > 0
            && crate::markup::attributes_text(list)[0] == ' ',
    decreases list.len(),
{
    if list.len() > 0 {
        let some = list.drop_last();
        let last = list.last();
        assert forall|i: int| 0 <= i < some.len() implies has_no_bounds(
            (#[trigger] some[i]).value,
        ) by {
            assert(some[i] == list[i]);
        }
        assert(crate::markup::are_attributes(some)) by {
            assert forall|i: int| 0 <= i < some.len() implies crate::markup::is_key(
                (#[trigger] some[i]).key,
            ) && crate::markup::is_value(some[i].value) by {
                assert(some[i] == list[i]);
            }
            assert forall|i: int, j: int| 0 <= i < j < some.len() implies (#[trigger] some[i]).key
                != (#[trigger] some[j]).key by {
                assert(some[i] == list[i] && some[j] == list[j]);
            }
        }
        lemma_attributes_clear(some);
        assert(last == list[list.len() - 1]);
        assert(crate::markup::is_key(last.key) && has_no_bounds(last.value));
        lemma_attribute_clear(last);
        let a = crate::markup::attributes_text(some);
        let b = crate::markup::attribute_text(last);
        let all = a + b;
        assert forall|i: int| 0 <= i < all.len() implies #[trigger] all[i] != '<' && all[i]
            != '>' by {
            if i < a.len() {
                assert(all[i] == a[i]);
            } else {
                assert(all[i] == b[i - a.len()]);
            }
        }
        if some.len() == 0 {
            assert(all[0] == b[0]);
        } else {
            assert(all[0] == a[0]);
        }
    }
}

proof fn lemma_attribute_clear(a: Attr)
    requires
        crate::markup::is_key(a.key),
        has_no_bounds(a.value),
    ensures
        has_no_bounds(crate::markup::attribute_text(a)),
        crate::markup::attribute_text(a).len() > 0,
        crate::markup::attribute_text(a)[0] == ' ',
{
    reveal_strlit(" ");
    reveal_strlit("=\"");
    reveal_strlit("\"");
    let s = crate::markup::attribute_text(a);
    let n = a.key.len();
    assert forall|i: int| 0 <= i < s.len() implies #[trigger] s[i] != '<' && s[i] != '>' by {
        if 1 <= i < 1 + n {
            assert(s[i] == a.key[i - 1]);
        } else if 3 + n <= i < 3 + n + a.value.len() {
            assert(s[i] == a.value[i - 3 - n]);
        }
    }
}

/// A tag that opens an element is what stands between its bounds, and these.
pub proof fn lemma_tag_text(piece: Piece)
    requires
        piece.is_sound(),
        is_clear(piece),
        tag_name(piece) is Some,
    ensures
        piece.text() == "<"@ + tag_content(piece) + ">"@,
        has_no_bounds(tag_content(piece)),
        tag_content(piece).len() > 0,
        crate::markup::is_letter(tag_content(piece)[0]),
{
    reveal_strlit("<");
    reveal_strlit(">");
    reveal_strlit("/>");
    reveal_strlit("/");
    reveal_strlit(" ");
    let content = tag_content(piece);
    match piece {
        Piece::Open { name, attributes } => {
            let text = crate::markup::attributes_text(attributes);
            lemma_attributes_clear(attributes);
            assert(content[0] == name[0]);
            assert forall|i: int| 0 <= i < content.len() implies #[trigger] content[i] != '<'
                && content[i] != '>' by {
                if i < name.len() {
                    assert(content[i] == name[i]);
                } else {
                    assert(content[i] == text[i - name.len()]);
                }
            }
        },
        Piece::Empty { name, attributes, spaced } => {
            let text = crate::markup::attributes_text(attributes);
            lemma_attributes_clear(attributes);
            assert(content[0] == name[0]);
            assert forall|i: int| 0 <= i < content.len() implies #[trigger] content[i] != '<'
                && content[i] != '>' by {
                if i < name.len() {
                    assert(content[i] == name[i]);
                } else if i < name.len() + text.len() {
                    assert(content[i] == text[i - name.len()]);
                }
            }
            assert(piece.text() =~= "<"@ + content + ">"@);
        },
        _ => {},
    }
}

/// The name of a tag is the first word in it.
pub proof fn lemma_tag_word(piece: Piece)
    requires
        piece.is_sound(),
        is_clear(piece),
        tag_name(piece) is Some,
    ensures
        ({
            let name = tag_name(piece)->0;
            &&& crate::xml_patch::written_name(tag_content(piece)) == name
            &&& crate::xml_patch::name_local(name) == name
            &&& crate::xml_patch::name_prefix(name) == Seq::<char>::empty()
        }),
{
    let name = tag_name(piece)->0;
    let s = tag_content(piece);
    let rest = s.skip(name.len() as int);
    reveal_strlit("/");
    reveal_strlit(" ");
    assert(crate::markup::is_name(name));
    assert(s =~= name + rest);
    assert(rest.len() == 0 || rest[0] == ' ' || rest =~= seq!['/']) by {
        match piece {
            Piece::Open { name, attributes } => {
                lemma_attributes_clear(attributes);
                assert(rest =~= crate::markup::attributes_text(attributes));
            },
            Piece::Empty { name, attributes, spaced } => {
                let text = crate::markup::attributes_text(attributes);
                lemma_attributes_clear(attributes);
                assert(attributes.len() == 0 ==> text =~= Seq::<char>::empty());
                if attributes.len() > 0 {
                    assert(rest[0] == text[0]);
                } else if spaced {
                    assert(rest[0] == ' ');
                } else {
                    assert(rest =~= "/"@);
                }
            },
            _ => {},
        }
    }
    assert(name.len() > 0);
    lemma_word(name, rest);
    crate::xml_utils::lemma_find_char(name, ':', 0);
    if let Some(at) = crate::xml_utils::find_char(name, ':', 0) {
        assert(crate::markup::is_letter(name[at]));
    }
}

/// The first word of a text that starts with a name.
proof fn lemma_word(name: Seq<char>, rest: Seq<char>)
    requires
        crate::markup::is_name(name),
        rest.len() == 0 || rest[0] == ' ' || rest == seq!['/'],
    ensures
        crate::xml_patch::written_name(name + rest) == name,
{
    let s = name + rest;
    let n = name.len() as int;
    let full = |c: char| !crate::text::is_whitespace(c);
    let blank = |c: char| crate::text::is_whitespace(c);
    assert forall|i: int| 0 <= i < n implies !crate::text::is_whitespace(#[trigger] s[i])
        && s[i] != '/' by {
        assert(s[i] == name[i]);
        assert(crate::markup::is_letter(name[i]));
    }
    assert(full(s[0]));
    assert(crate::xml_tags::scan(s, 0, full) == 0);
    crate::xml_tags::lemma_scan(s, 0, blank);
    let end = crate::xml_tags::scan(s, 0, blank);
    if end < n {
        assert(blank(s[end]));
    }
    if rest == seq!['/'] {
        assert(s[n] == '/');
        if end == n {
            assert(blank(s[n]));
        }
        assert(s.subrange(0, end) =~= name.push('/'));
        assert(name.push('/').drop_last() =~= name);
        assert(name.last() != '/') by {
            assert(s[n - 1] == name[n - 1]);
        }
        reveal_with_fuel(crate::xml_tags::without_slashes, 3);
    } else {
        if end > n {
            assert(!blank(s[n]));
            assert(s[n] == rest[0]);
        }
        assert(s.subrange(0, end) =~= name);
        assert(name.last() != '/') by {
            assert(s[n - 1] == name[n - 1]);
        }
    }
}

/// What a search sees of a tag that opens an element.
pub proof fn lemma_tag_seen(a: Seq<char>, piece: Piece, b: Seq<char>)
    requires
        piece.is_sound(),
        is_clear(piece),
        tag_name(piece) is Some,
    ensures
        ({
            let xml = a + piece.text() + b;
            let from = a.len() as int;
            let close = from + piece.text().len() - 1;
            &&& from < close < xml.len()
            &&& crate::xml_patch::opens_at(xml, from)
            &&& crate::xml_utils::find_char(xml, '>', from) == Some(close)
            &&& xml.subrange(from + 1, close) == tag_content(piece)
        }),
{
    let t = piece.text();
    let xml = a + t + b;
    let from = a.len() as int;
    let close = from + t.len() - 1;
    let content = tag_content(piece);
    reveal_strlit("<");
    reveal_strlit(">");
    lemma_tag_text(piece);
    assert(t.len() == content.len() + 2);
    assert(xml[from] == t[0]);
    assert(xml[from + 1] == t[1]);
    assert(t[1] == content[0]);
    assert(xml[close] == t[t.len() - 1]);
    assert forall|j: int| from <= j < close implies xml[j] != '>' by {
        assert(xml[j] == t[j - from]);
        if j > from {
            assert(t[j - from] == content[j - from - 1]);
        }
    }
    crate::xlsx_string_update::lemma_first_char(xml, '>', from, close);
    assert(xml.subrange(from + 1, close) =~= content);
}

/// A tag that opens an element of the name is found where it stands.
pub proof fn lemma_tag_here(a: Seq<char>, piece: Piece, b: Seq<char>, local: Seq<char>)
    requires
        piece.is_sound(),
        is_clear(piece),
        is_tag(piece, local),
    ensures
        crate::xml_patch::tag_from(a + piece.text() + b, a.len() as int, local) == Some(
            TagSpan {
                start: a.len() as int,
                end: (a.len() + piece.text().len()) as int,
                prefix: Seq::empty(),
            },
        ),
{
    lemma_tag_seen(a, piece, b);
    lemma_tag_word(piece);
}

/// No tag that opens an element starts in between.
proof fn lemma_no_opening(xml: Seq<char>, from: int, to: int, local: Seq<char>)
    requires
        0 <= from <= to <= xml.len(),
        forall|j: int| from <= j < to ==> !crate::xml_patch::opens_at(xml, j),
    ensures
        crate::xml_patch::tag_from(xml, from, local) == crate::xml_patch::tag_from(xml, to, local),
    decreases to - from,
{
    if from < to {
        assert(!crate::xml_patch::opens_at(xml, from));
        lemma_no_opening(xml, from + 1, to, local);
    }
}

/// Behind its first character a piece holds no `<`.
pub proof fn lemma_lone_start(piece: Piece)
    requires
        piece.is_sound(),
        is_clear(piece),
    ensures
        piece.text().len() > 0,
        forall|j: int| 0 < j < piece.text().len() ==> #[trigger] piece.text()[j] != '<',
        tag_name(piece) is None && piece.text()[0] == '<' ==> piece.text().len() > 1 && (
        piece.text()[1] == '/' || piece.text()[1] == '?'),
{
    reveal_strlit("<");
    reveal_strlit(">");
    reveal_strlit("<?");
    reveal_strlit("?>");
    reveal_strlit("</");
    reveal_strlit("&");
    reveal_strlit(";");
    let t = piece.text();
    match piece {
        Piece::Declaration(content) => {
            assert forall|j: int| 0 < j < t.len() implies #[trigger] t[j] != '<' by {
                if 2 <= j < 2 + content.len() {
                    assert(t[j] == content[j - 2]);
                }
            }
        },
        Piece::Close(name) => {
            assert forall|j: int| 0 < j < t.len() implies #[trigger] t[j] != '<' by {
                if 2 <= j < 2 + name.len() {
                    assert(t[j] == name[j - 2]);
                    assert(crate::markup::is_letter(name[j - 2]));
                }
            }
        },
        Piece::Text(text) => {
            assert(t[0] != '<');
        },
        Piece::Reference(name) => {
            assert forall|j: int| 0 < j < t.len() implies #[trigger] t[j] != '<' by {
                if 1 <= j < 1 + name.len() {
                    assert(t[j] == name[j - 1]);
                    assert(crate::markup::is_letter(name[j - 1]));
                }
            }
        },
        _ => {
            lemma_tag_text(piece);
            let content = tag_content(piece);
            assert forall|j: int| 0 < j < t.len() implies #[trigger] t[j] != '<' by {
                if 1 <= j < 1 + content.len() {
                    assert(t[j] == content[j - 1]);
                }
            }
        },
    }
}

/// The search passes a piece that opens no element of the name.
proof fn lemma_piece_passed(a: Seq<char>, piece: Piece, b: Seq<char>, local: Seq<char>)
    requires
        piece.is_sound(),
        is_clear(piece),
        !is_tag(piece, local),
    ensures
        crate::xml_patch::tag_from(a + piece.text() + b, a.len() as int, local)
            == crate::xml_patch::tag_from(
            a + piece.text() + b,
            (a.len() + piece.text().len()) as int,
            local,
        ),
{
    let t = piece.text();
    let xml = a + t + b;
    let from = a.len() as int;
    let to = from + t.len();
    lemma_lone_start(piece);
    assert forall|j: int| from < j < to implies !crate::xml_patch::opens_at(xml, j) by {
        assert(xml[j] == t[j - from]);
    }
    lemma_no_opening(xml, from + 1, to, local);
    assert(xml[from] == t[0]);
    if tag_name(piece) is Some {
        lemma_tag_seen(a, piece, b);
        lemma_tag_word(piece);
    } else {
        if t.len() > 1 {
            assert(xml[from + 1] == t[1]);
        }
        assert(!crate::xml_patch::opens_at(xml, from));
    }
}

/// The search passes pieces that open no element of the name.
pub proof fn lemma_tags_passed(
    a: Seq<char>,
    pieces: Seq<Piece>,
    b: Seq<char>,
    local: Seq<char>,
)
    requires
        all_clear(pieces),
        has_no_tag(pieces, local),
    ensures
        crate::xml_patch::tag_from(a + crate::markup::written(pieces) + b, a.len() as int, local)
            == crate::xml_patch::tag_from(
            a + crate::markup::written(pieces) + b,
            (a.len() + crate::markup::written(pieces).len()) as int,
            local,
        ),
    decreases pieces.len(),
{
    if pieces.len() > 0 {
        let some = pieces.drop_last();
        let last = pieces.last();
        let w = crate::markup::written(some);
        assert(last == pieces[pieces.len() - 1]);
        assert forall|i: int| 0 <= i < some.len() implies (#[trigger] some[i]).is_sound()
            && is_clear(some[i]) && !is_tag(some[i], local) by {
            assert(some[i] == pieces[i]);
        }
        lemma_tags_passed(a, some, last.text() + b, local);
        lemma_piece_passed(a + w, last, b, local);
        assert(a + w + (last.text() + b) =~= a + (w + last.text()) + b);
        assert(a + w + last.text() + b =~= a + (w + last.text()) + b);
    }
}

/// The name of the rows stands behind a `<` or `</`.
pub open spec fn names_rows_at(xml: Seq<char>, at: int) -> bool {
    xml[at] == '<' && (crate::xml_utils::stands_at(xml, "sheetData"@, at + 1) || (at + 1
        < xml.len() && xml[at + 1] == '/' && crate::xml_utils::stands_at(
        xml,
        "sheetData"@,
        at + 2,
    )))
}

/// A tag whose name does not start with the name of the rows.
pub open spec fn is_foreign(piece: Piece) -> bool {
    let name = match piece {
        Piece::Open { name, .. } => name,
        Piece::Empty { name, .. } => name,
        Piece::Close(name) => name,
        _ => Seq::empty(),
    };
    !(name.len() >= 9 && crate::text::same_ignoring_case(name.take(9), "sheetData"@))
}

/// No tag has a name that starts with the name of the rows.
pub open spec fn all_foreign(pieces: Seq<Piece>) -> bool {
    forall|i: int| 0 <= i < pieces.len() ==> is_foreign(#[trigger] pieces[i])
}

/// A name that is not that of the rows, in front of something else.
proof fn lemma_other_name(xml: Seq<char>, at: int, name: Seq<char>)
    requires
        crate::markup::is_name(name),
        0 <= at,
        at + name.len() < xml.len(),
        xml.subrange(at, at + name.len()) == name,
        !crate::markup::is_letter(xml[at + name.len()]),
        !(name.len() >= 9 && crate::text::same_ignoring_case(name.take(9), "sheetData"@)),
    ensures
        !crate::xml_utils::stands_at(xml, "sheetData"@, at),
{
    reveal_strlit("sheetData");
    let rows = "sheetData"@;
    if crate::xml_utils::stands_at(xml, rows, at) {
        let here = xml.subrange(at, at + 9);
        assert(here == rows);
        if name.len() < 9 {
            assert(here[name.len() as int] == xml[at + name.len()]);
            assert(crate::markup::is_letter(rows[name.len() as int]));
        } else {
            assert(name.take(9) =~= rows) by {
                assert forall|i: int| 0 <= i < 9 implies name[i] == rows[i] by {
                    assert(name[i] == xml.subrange(at, at + name.len())[i]);
                    assert(here[i] == xml[at + i]);
                }
            }
        }
    }
}

/// The name of the rows stands nowhere in another piece.
proof fn lemma_rows_not_in(a: Seq<char>, piece: Piece, b: Seq<char>, at: int)
    requires
        piece.is_sound(),
        is_clear(piece),
        is_foreign(piece),
        a.len() <= at < a.len() + piece.text().len(),
    ensures
        !names_rows_at(a + piece.text() + b, at),
{
    let t = piece.text();
    let xml = a + t + b;
    let from = a.len() as int;
    reveal_strlit("sheetData");
    reveal_strlit("<");
    reveal_strlit(">");
    reveal_strlit("</");
    lemma_lone_start(piece);
    assert(xml[at] == t[at - from]);
    if at == from && t[0] == '<' {
        if t.len() > 1 {
            assert(xml[from + 1] == t[1]);
        }
        match piece {
            Piece::Close(name) => {
                assert(t[1] == '/');
                assert(xml.subrange(from + 2, from + 2 + name.len()) =~= name);
                assert(xml[from + 2 + name.len()] == t[2 + name.len() as int]);
                assert(t[2 + name.len() as int] == '>');
                lemma_other_name(xml, from + 2, name);
                if crate::xml_utils::stands_at(xml, "sheetData"@, from + 1) {
                    assert(xml.subrange(from + 1, from + 10)[0] == xml[from + 1]);
                }
            },
            Piece::Declaration(content) => {
                reveal_strlit("<?");
                assert(t[1] == '?');
                if crate::xml_utils::stands_at(xml, "sheetData"@, from + 1) {
                    assert(xml.subrange(from + 1, from + 10)[0] == xml[from + 1]);
                }
            },
            Piece::Reference(name) => {
                reveal_strlit("&");
            },
            Piece::Text(text) => {},
            _ => {
                let name = tag_name(piece)->0;
                let content = tag_content(piece);
                lemma_tag_text(piece);
                lemma_tag_ends(piece);
                assert(t[1] == content[0]);
                assert(xml.subrange(from + 1, from + 1 + name.len()) =~= name) by {
                    assert forall|i: int| 0 <= i < name.len() implies xml[from + 1 + i]
                        == name[i] by {
                        assert(xml[from + 1 + i] == t[1 + i]);
                        assert(t[1 + i] == content[i]);
                    }
                }
                assert(xml[from + 1 + name.len()] == t[1 + name.len() as int]);
                lemma_other_name(xml, from + 1, name);
            },
        }
    }
}

/// Behind the name of a tag stands no letter.
proof fn lemma_tag_ends(piece: Piece)
    requires
        piece.is_sound(),
        is_clear(piece),
        tag_name(piece) is Some,
    ensures
        ({
            let name = tag_name(piece)->0;
            let t = piece.text();
            &&& 1 + name.len() < t.len()
            &&& !crate::markup::is_letter(t[1 + name.len() as int])
            &&& forall|i: int| 0 <= i < name.len() ==> tag_content(piece)[i] == name[i]
        }),
{
    let name = tag_name(piece)->0;
    let t = piece.text();
    let content = tag_content(piece);
    let n = name.len() as int;
    reveal_strlit("<");
    reveal_strlit(">");
    reveal_strlit("/");
    reveal_strlit(" ");
    lemma_tag_text(piece);
    match piece {
        Piece::Open { name, attributes } => {
            lemma_attributes_clear(attributes);
            if attributes.len() > 0 {
                assert(content[n] == crate::markup::attributes_text(attributes)[0]);
                assert(t[1 + n] == content[n]);
            } else {
                assert(t[1 + n] == '>');
            }
        },
        Piece::Empty { name, attributes, spaced } => {
            lemma_attributes_clear(attributes);
            if attributes.len() > 0 {
                assert(content[n] == crate::markup::attributes_text(attributes)[0]);
            } else {
                assert(content[n] == ' ' || content[n] == '/');
            }
            assert(t[1 + n] == content[n]);
        },
        _ => {},
    }
}

/// The name of the rows stands nowhere in other pieces.
pub proof fn lemma_rows_not_among(a: Seq<char>, pieces: Seq<Piece>, b: Seq<char>, at: int)
    requires
        all_clear(pieces),
        all_foreign(pieces),
        a.len() <= at < a.len() + crate::markup::written(pieces).len(),
    ensures
        !names_rows_at(a + crate::markup::written(pieces) + b, at),
    decreases pieces.len(),
{
    if pieces.len() > 0 {
        let some = pieces.drop_last();
        let last = pieces.last();
        let w = crate::markup::written(some);
        assert(last == pieces[pieces.len() - 1]);
        assert forall|i: int| 0 <= i < some.len() implies (#[trigger] some[i]).is_sound()
            && is_clear(some[i]) && is_foreign(some[i]) by {
            assert(some[i] == pieces[i]);
        }
        if at < a.len() + w.len() {
            lemma_rows_not_among(a, some, last.text() + b, at);
            assert(a + w + (last.text() + b) =~= a + (w + last.text()) + b);
        } else {
            lemma_rows_not_in(a + w, last, b, at);
            assert(a + w + last.text() + b =~= a + (w + last.text()) + b);
        }
    }
}

/// A pattern that stands nowhere in between is looked for behind.
pub proof fn lemma_find_on(s: Seq<char>, pattern: Seq<char>, from: int, to: int)
    requires
        0 <= from <= to <= s.len(),
        forall|j: int| from <= j < to ==> !#[trigger] crate::xml_utils::stands_at(s, pattern, j),
    ensures
        crate::xml_patch::find_text(s, pattern, from) == crate::xml_patch::find_text(
            s,
            pattern,
            to,
        ),
    decreases to - from,
{
    if from < to {
        assert(!crate::xml_utils::stands_at(s, pattern, from));
        lemma_find_on(s, pattern, from + 1, to);
    }
}

/// The tags of the rows start with their name.
pub proof fn lemma_rows_tags(s: Seq<char>, at: int)
    requires
        0 <= at,
    ensures
        crate::xml_utils::stands_at(s, "<sheetData>"@, at) ==> names_rows_at(s, at),
        crate::xml_utils::stands_at(s, "</sheetData>"@, at) ==> names_rows_at(s, at),
        crate::xml_utils::stands_at(s, "</"@ + Seq::<char>::empty() + "sheetData"@, at)
            ==> names_rows_at(s, at),
{
    reveal_strlit("<sheetData>");
    reveal_strlit("</sheetData>");
    reveal_strlit("sheetData");
    reveal_strlit("</");
    let rows = "sheetData"@;
    let close = "</"@ + Seq::<char>::empty() + rows;
    if crate::xml_utils::stands_at(s, "<sheetData>"@, at) {
        let here = s.subrange(at, at + 11);
        assert(here == "<sheetData>"@);
        assert(s[at] == here[0]);
        assert(s.subrange(at + 1, at + 10) =~= rows) by {
            assert forall|i: int| 0 <= i < 9 implies s[at + 1 + i] == rows[i] by {
                assert(s[at + 1 + i] == here[1 + i]);
            }
        }
    }
    if crate::xml_utils::stands_at(s, "</sheetData>"@, at) {
        let here = s.subrange(at, at + 12);
        assert(here == "</sheetData>"@);
        assert(s[at] == here[0] && s[at + 1] == here[1]);
        assert(s.subrange(at + 2, at + 11) =~= rows) by {
            assert forall|i: int| 0 <= i < 9 implies s[at + 2 + i] == rows[i] by {
                assert(s[at + 2 + i] == here[2 + i]);
            }
        }
    }
    if crate::xml_utils::stands_at(s, close, at) {
        let here = s.subrange(at, at + 11);
        assert(here == close);
        assert(s[at] == here[0] && s[at + 1] == here[1]);
        assert(s.subrange(at + 2, at + 11) =~= rows) by {
            assert forall|i: int| 0 <= i < 9 implies s[at + 2 + i] == rows[i] by {
                assert(s[at + 2 + i] == here[2 + i]);
                assert(here[2 + i] == close[2 + i]);
            }
        }
    }
}

} // verus!
