//! The shared strings that the XLSX writer makes read back.

use vstd::prelude::*;
use crate::markup::{Attr, Piece};
use crate::xml_documents::StringScan;
use crate::xml_events::{XmlItem, XmlKind};

verus! {

/// The name of the entity that XML has for a character.
pub open spec fn entity_name(c: char) -> Option<Seq<char>> {
    if c == '&' {
        Some("amp"@)
    } else if c == '<' {
        Some("lt"@)
    } else if c == '>' {
        Some("gt"@)
    } else if c == '"' {
        Some("quot"@)
    } else if c == '\'' {
        Some("apos"@)
    } else {
        None
    }
}

/// A text as pieces: a reference for each character that has an entity, and the
/// longest stretches of other characters between them.
pub open spec fn text_pieces(s: Seq<char>) -> Seq<Piece>
    decreases s.len(),
{
    if s.len() == 0 {
        Seq::empty()
    } else {
        let before = text_pieces(s.drop_last());
        match entity_name(s.last()) {
            Some(name) => before.push(Piece::Reference(name)),
            None => if before.len() > 0 {
                match before.last() {
                    Piece::Text(t) => before.drop_last().push(Piece::Text(t.push(s.last()))),
                    _ => before.push(Piece::Text(seq![s.last()])),
                }
            } else {
                before.push(Piece::Text(seq![s.last()]))
            },
        }
    }
}

/// What a piece of a text stands for.
pub open spec fn spelled_by(piece: Piece) -> Seq<char> {
    match piece {
        Piece::Text(t) => t,
        Piece::Reference(name) => crate::xml_events::resolved(vstd::utf8::encode_utf8(name)),
        _ => Seq::empty(),
    }
}

/// What the pieces of a text stand for.
pub open spec fn spelled(pieces: Seq<Piece>) -> Seq<char>
    decreases pieces.len(),
{
    if pieces.len() == 0 {
        Seq::empty()
    } else {
        spelled(pieces.drop_last()) + spelled_by(pieces.last())
    }
}

/// Pieces that can stand in an element as its text.
pub open spec fn are_text(pieces: Seq<Piece>) -> bool {
    &&& forall|i: int| 0 <= i < pieces.len() ==> (#[trigger] pieces[i]).is_sound()
    &&& forall|i: int|
        0 <= i < pieces.len() ==> (#[trigger] pieces[i] is Text || pieces[i] is Reference)
    &&& crate::markup::are_apart(pieces)
}

/// An entity as a reference.
proof fn lemma_entity(c: char)
    ensures
        match entity_name(c) {
            Some(name) => {
                &&& Piece::Reference(name).is_sound()
                &&& Piece::Reference(name).text() == crate::xml_utils::entity(c)
                &&& spelled_by(Piece::Reference(name)) == seq![c]
            },
            None => {
                &&& crate::xml_utils::entity(c) == seq![c]
                &&& c != '<' && c != '&'
            },
        },
{
    reveal_strlit("amp");
    reveal_strlit("lt");
    reveal_strlit("gt");
    reveal_strlit("quot");
    reveal_strlit("apos");
    reveal_strlit("&");
    reveal_strlit(";");
    match entity_name(c) {
        Some(name) => {
            assert("&"@ + name + ";"@ =~= crate::xml_utils::entity(c));
            lemma_resolved(c, name);
        },
        None => {},
    }
}

/// A reference to an entity stands for its character.
proof fn lemma_resolved(c: char, name: Seq<char>)
    requires
        entity_name(c) == Some(name),
    ensures
        crate::xml_events::resolved(vstd::utf8::encode_utf8(name)) == seq![c],
{
    reveal_strlit("amp");
    reveal_strlit("lt");
    reveal_strlit("gt");
    reveal_strlit("quot");
    reveal_strlit("apos");
    reveal_strlit("&amp;");
    reveal_strlit("&lt;");
    reveal_strlit("&gt;");
    reveal_strlit("&quot;");
    reveal_strlit("&apos;");
    reveal_strlit("&");
    reveal_strlit("<");
    reveal_strlit(">");
    reveal_strlit("\"");
    reveal_strlit("'");
    crate::text::lemma_bytes_text(name);
    let raw = seq!['&'] + name + seq![';'];
    assert(raw == crate::xml_events::reference_text(vstd::utf8::encode_utf8(name)));
    assert("&amp;"@[1] == 'a' && "&lt;"@[1] == 'l' && "&gt;"@[1] == 'g' && "&quot;"@[1] == 'q'
        && "&apos;"@[1] == 'a' && "&amp;"@[2] == 'm' && "&apos;"@[2] == 'p');
    if c == '&' {
        assert(raw =~= "&amp;"@);
        assert("&"@ =~= seq![c]);
    } else if c == '<' {
        assert(raw =~= "&lt;"@);
        assert("<"@ =~= seq![c]);
    } else if c == '>' {
        assert(raw =~= "&gt;"@);
        assert(">"@ =~= seq![c]);
    } else if c == '"' {
        assert(raw =~= "&quot;"@);
        assert("\""@ =~= seq![c]);
    } else {
        assert(raw =~= "&apos;"@);
        assert("'"@ =~= seq![c]);
    }
}

/// Pieces in a row, the last of which is one.
proof fn lemma_pushed(pieces: Seq<Piece>, piece: Piece)
    ensures
        crate::markup::written(pieces.push(piece)) == crate::markup::written(pieces)
            + piece.text(),
        spelled(pieces.push(piece)) == spelled(pieces) + spelled_by(piece),
{
    assert(pieces.push(piece).drop_last() =~= pieces);
}

/// Text and then a piece that is not text, or is the first of it.
proof fn lemma_text_pushed(pieces: Seq<Piece>, piece: Piece)
    requires
        are_text(pieces),
        piece.is_sound(),
        piece is Reference || (piece is Text && (pieces.len() > 0 ==> !(pieces.last() is Text))),
    ensures
        are_text(pieces.push(piece)),
{
    let all = pieces.push(piece);
    assert forall|i: int| 0 <= i < all.len() implies (#[trigger] all[i]).is_sound() && (
    all[i] is Text || all[i] is Reference) by {
        if i < pieces.len() {
            assert(all[i] == pieces[i]);
        }
    }
    assert forall|i: int, j: int|
        0 <= i < all.len() && j == i + 1 && j < all.len() implies !(#[trigger] all[i] is Text
        && #[trigger] all[j] is Text) by {
        if j < pieces.len() {
            assert(all[i] == pieces[i] && all[j] == pieces[j]);
        } else {
            assert(all[i] == pieces.last());
        }
    }
}

pub proof fn lemma_text_shortened(pieces: Seq<Piece>)
    requires
        are_text(pieces),
        pieces.len() > 0,
    ensures
        are_text(pieces.drop_last()),
        pieces.last() is Text && pieces.len() > 1 ==> !(pieces.drop_last().last() is Text),
{
    let some = pieces.drop_last();
    assert forall|i: int| 0 <= i < some.len() implies (#[trigger] some[i]).is_sound() && (
    some[i] is Text || some[i] is Reference) by {
        assert(some[i] == pieces[i]);
    }
    assert forall|i: int, j: int|
        0 <= i < some.len() && j == i + 1 && j < some.len() implies !(#[trigger] some[i] is Text
        && #[trigger] some[j] is Text) by {
        assert(some[i] == pieces[i] && some[j] == pieces[j]);
    }
    if pieces.len() > 1 {
        assert(pieces[pieces.len() - 2] == some.last());
        assert(pieces[pieces.len() - 1] == pieces.last());
    }
}

/// A text as pieces is the text with its entities, and spells the text.
pub proof fn lemma_text_pieces(s: Seq<char>)
    ensures
        are_text(text_pieces(s)),
        crate::markup::written(text_pieces(s)) == crate::xml_utils::with_entities(s),
        spelled(text_pieces(s)) == s,
    decreases s.len(),
{
    if s.len() == 0 {
        assert(spelled(text_pieces(s)) =~= s);
    } else {
        let before = text_pieces(s.drop_last());
        let c = s.last();
        lemma_text_pieces(s.drop_last());
        lemma_entity(c);
        assert(s.drop_last() + seq![c] =~= s);
        match entity_name(c) {
            Some(name) => {
                lemma_text_pushed(before, Piece::Reference(name));
                lemma_pushed(before, Piece::Reference(name));
            },
            None => {
                let alone = Piece::Text(seq![c]);
                assert(alone.is_sound());
                if before.len() > 0 {
                    match before.last() {
                        Piece::Text(t) => {
                            let some = before.drop_last();
                            let longer = Piece::Text(t.push(c));
                            assert(before[before.len() - 1].is_sound());
                            assert forall|i: int| 0 <= i < t.push(c).len() implies #[trigger]
                            t.push(c)[i] != '<' && t.push(c)[i] != '&' by {
                                if i < t.len() {
                                    assert(t.push(c)[i] == t[i]);
                                }
                            }
                            lemma_text_shortened(before);
                            lemma_text_pushed(some, longer);
                            lemma_pushed(some, longer);
                            lemma_pushed(some, before.last());
                            assert(some.push(before.last()) =~= before);
                            assert(crate::markup::written(some) + t.push(c)
                                =~= crate::markup::written(some) + t + seq![c]);
                            assert(spelled(some) + t.push(c) =~= spelled(some) + t + seq![c]);
                        },
                        _ => {
                            lemma_text_pushed(before, alone);
                            lemma_pushed(before, alone);
                        },
                    }
                } else {
                    lemma_text_pushed(before, alone);
                    lemma_pushed(before, alone);
                }
            },
        }
    }
}

proof fn lemma_text_opens_nothing(open: Seq<Seq<char>>, pieces: Seq<Piece>)
    requires
        are_text(pieces),
    ensures
        crate::markup::nested(open, pieces) == Some(open),
    decreases pieces.len(),
{
    if pieces.len() > 0 {
        lemma_text_shortened(pieces);
        lemma_text_opens_nothing(open, pieces.drop_last());
        assert(pieces[pieces.len() - 1] == pieces.last());
    }
}

/// An element around text is a block.
pub proof fn lemma_text_element(name: Seq<char>, attributes: Seq<Attr>, pieces: Seq<Piece>)
    requires
        crate::markup::is_name(name),
        crate::markup::are_attributes(attributes),
        are_text(pieces),
    ensures
        crate::markup::is_block(crate::markup::element(name, attributes, pieces)),
{
    assert forall|open: Seq<Seq<char>>| #[trigger]
        crate::markup::nested(open, pieces) == Some(open) by {
        lemma_text_opens_nothing(open, pieces);
    }
    crate::markup::lemma_block_element(name, attributes, pieces);
}

/// The attributes of the text of an item.
pub open spec fn space_attributes(preserved: bool) -> Seq<Attr> {
    if preserved {
        Seq::empty().push(Attr { key: "xml:space"@, value: "preserve"@ })
    } else {
        Seq::empty()
    }
}

/// An item with a text, whose white space may have to be preserved.
pub open spec fn item_of(text: Seq<char>, preserved: bool) -> Seq<Piece> {
    crate::markup::element(
        "si"@,
        Seq::empty(),
        crate::markup::element("t"@, space_attributes(preserved), text_pieces(text)),
    )
}

/// One item of the shared-string table.
pub open spec fn item_pieces(text: Seq<char>) -> Seq<Piece> {
    item_of(
        crate::xlsx_parts::without_controls(text),
        crate::xlsx_parts::must_preserve(crate::xlsx_parts::cell_escaped(text)),
    )
}

/// The first `n` items of the shared-string table.
pub open spec fn table_pieces(strings: Seq<Seq<char>>, n: nat) -> Seq<Piece>
    decreases n,
{
    if n == 0 {
        Seq::empty()
    } else {
        table_pieces(strings, (n - 1) as nat) + item_pieces(strings[n - 1])
    }
}

pub proof fn lemma_space_attributes(preserved: bool)
    ensures
        crate::markup::are_attributes(space_attributes(preserved)),
        (Piece::Open { name: "t"@, attributes: space_attributes(preserved) }).text() == (
        if preserved {
            "<t xml:space=\"preserve\">"@
        } else {
            "<t>"@
        }),
{
    reveal_strlit("t");
    reveal_strlit("<");
    reveal_strlit(">");
    if preserved {
        reveal_strlit("xml:space");
        reveal_strlit("preserve");
        reveal_strlit(" ");
        reveal_strlit("=\"");
        reveal_strlit("\"");
        reveal_strlit("<t xml:space=\"preserve\">");
        let a = Attr { key: "xml:space"@, value: "preserve"@ };
        crate::xlsx_markup::lemma_one_attribute(a);
        assert("<"@ + ("t"@ + crate::markup::attribute_text(a)) + ">"@
            =~= "<t xml:space=\"preserve\">"@);
    } else {
        reveal_strlit("<t>");
        crate::xlsx_markup::lemma_no_attributes();
        assert("<"@ + ("t"@ + Seq::<char>::empty()) + ">"@ =~= "<t>"@);
    }
}

/// The tags of the shared-string table.
pub proof fn lemma_item_tags()
    ensures
        crate::markup::is_name("si"@),
        crate::markup::is_name("t"@),
        crate::markup::is_name("sst"@),
        "si"@ != "t"@,
        "sst"@ != "t"@,
        "sst"@ != "si"@,
        (Piece::Open { name: "si"@, attributes: Seq::empty() }).text() == "<si>"@,
        Piece::Close("t"@).text() + Piece::Close("si"@).text() == "</t></si>"@,
        Piece::Close("sst"@).text() == "</sst>"@,
        "<si><t>"@ == "<si>"@ + "<t>"@,
        "<si><t xml:space=\"preserve\">"@ == "<si>"@ + "<t xml:space=\"preserve\">"@,
{
    crate::xlsx_markup::lemma_no_attributes();
    reveal_strlit("si");
    reveal_strlit("t");
    reveal_strlit("sst");
    reveal_strlit("<");
    reveal_strlit("</");
    reveal_strlit(">");
    reveal_strlit("<si>");
    reveal_strlit("<t>");
    reveal_strlit("<t xml:space=\"preserve\">");
    reveal_strlit("<si><t>");
    reveal_strlit("<si><t xml:space=\"preserve\">");
    reveal_strlit("</t></si>");
    reveal_strlit("</sst>");
    assert("si"@.len() != "t"@.len());
    assert("sst"@.len() != "t"@.len());
    assert("sst"@.len() != "si"@.len());
    assert("<"@ + ("si"@ + Seq::<char>::empty()) + ">"@ =~= "<si>"@);
    assert("</"@ + "t"@ + ">"@ + ("</"@ + "si"@ + ">"@) =~= "</t></si>"@);
    assert("</"@ + "sst"@ + ">"@ =~= "</sst>"@);
    assert("<si><t>"@ =~= "<si>"@ + "<t>"@);
    assert("<si><t xml:space=\"preserve\">"@ =~= "<si>"@ + "<t xml:space=\"preserve\">"@);
}

/// An item is a block, whose text has that of its tags around it.
pub proof fn lemma_item_of(text: Seq<char>, preserved: bool)
    ensures
        crate::markup::is_block(item_of(text, preserved)),
        crate::markup::written(item_of(text, preserved)) == "<si>"@ + (Piece::Open {
            name: "t"@,
            attributes: space_attributes(preserved),
        }).text() + crate::xml_utils::with_entities(text) + "</t></si>"@,
{
    let attributes = space_attributes(preserved);
    let inner = crate::markup::element("t"@, attributes, text_pieces(text));
    lemma_text_pieces(text);
    lemma_space_attributes(preserved);
    lemma_item_tags();
    crate::xlsx_markup::lemma_no_attributes();
    lemma_text_element("t"@, attributes, text_pieces(text));
    crate::markup::lemma_block_element("si"@, Seq::empty(), inner);
    crate::markup::lemma_element_text("t"@, attributes, text_pieces(text));
    crate::markup::lemma_element_text("si"@, Seq::empty(), inner);
    lemma_item_text(
        "<si>"@,
        (Piece::Open { name: "t"@, attributes }).text(),
        crate::xml_utils::with_entities(text),
        Piece::Close("t"@).text(),
        Piece::Close("si"@).text(),
    );
}

proof fn lemma_item_pieces(text: Seq<char>)
    ensures
        crate::markup::is_block(item_pieces(text)),
        crate::markup::written(item_pieces(text)) == crate::xlsx_parts::shared_string_item(text),
{
    let preserved = crate::xlsx_parts::must_preserve(crate::xlsx_parts::cell_escaped(text));
    lemma_item_of(crate::xlsx_parts::without_controls(text), preserved);
    lemma_space_attributes(preserved);
    lemma_item_tags();
}

proof fn lemma_item_text(
    a: Seq<char>,
    b: Seq<char>,
    c: Seq<char>,
    d: Seq<char>,
    e: Seq<char>,
)
    ensures
        a + (b + c + d) + e == (a + b) + c + (d + e),
{
    assert(a + (b + c + d) + e =~= (a + b) + c + (d + e));
}

/// The items of the table are a block, with the text that the writer gives them.
pub proof fn lemma_table_pieces(strings: Seq<Seq<char>>, n: nat)
    requires
        n <= strings.len(),
    ensures
        crate::markup::is_block(table_pieces(strings, n)),
        crate::markup::written(table_pieces(strings, n)) == crate::xlsx_parts::shared_string_items(
            strings,
            n,
        ),
    decreases n,
{
    if n == 0 {
        crate::markup::lemma_block_none();
    } else {
        let m = (n - 1) as nat;
        lemma_table_pieces(strings, m);
        lemma_item_pieces(strings[n - 1]);
        crate::markup::lemma_block_concat(table_pieces(strings, m), item_pieces(strings[n - 1]));
        crate::markup::lemma_written_concat(table_pieces(strings, m), item_pieces(strings[n - 1]));
    }
}

/// Events one behind the other are read one behind the other.
pub proof fn lemma_run_concat(scan: StringScan, a: Seq<Piece>, b: Seq<Piece>)
    ensures
        scan.run(crate::markup::items(a + b)) == scan.run(crate::markup::items(a)).run(
            crate::markup::items(b),
        ),
    decreases a.len(),
{
    if a.len() == 0 {
        assert(a + b =~= b);
    } else {
        let rest = a.skip(1);
        assert(crate::markup::items(a + b).skip(1) =~= crate::markup::items(rest + b));
        assert(crate::markup::items(a).skip(1) =~= crate::markup::items(rest));
        lemma_run_concat(scan.step(a[0].item()), rest, b);
    }
}

/// One event is read.
pub proof fn lemma_run_one(scan: StringScan, piece: Piece)
    ensures
        scan.run(crate::markup::items(seq![piece])) == scan.step(piece.item()),
{
    assert(crate::markup::items(seq![piece]).skip(1) =~= Seq::<
        Result<XmlItem, Seq<char>>,
    >::empty());
    let next = scan.step(piece.item());
    assert(next.run(Seq::empty()) == next);
}

/// The pieces of a text are added to the text that is being read.
proof fn lemma_text_read(scan: StringScan, pieces: Seq<Piece>)
    requires
        are_text(pieces),
        scan.in_item,
        scan.in_text,
    ensures
        scan.run(crate::markup::items(pieces)) == (StringScan {
            value: scan.value + spelled(pieces),
            ..scan
        }),
    decreases pieces.len(),
{
    if pieces.len() == 0 {
        assert(scan.value + spelled(pieces) =~= scan.value);
    } else {
        let some = pieces.drop_last();
        let last = pieces.last();
        lemma_text_shortened(pieces);
        lemma_text_read(scan, some);
        assert(some + seq![last] =~= pieces);
        lemma_run_concat(scan, some, seq![last]);
        let before = scan.run(crate::markup::items(some));
        lemma_run_one(before, last);
        assert(pieces[pieces.len() - 1] == last);
        match last {
            Piece::Text(t) => {
                crate::text::lemma_bytes_text(t);
            },
            _ => {},
        }
        assert(before.value + spelled_by(last) =~= scan.value + spelled(pieces));
    }
}

/// The tags of an item, and how they are read.
pub proof fn lemma_tags_read(scan: StringScan, attributes: Seq<Attr>)
    requires
        crate::markup::are_attributes(attributes),
    ensures
        scan.step((Piece::Open { name: "si"@, attributes: Seq::empty() }).item()) == (StringScan {
            in_item: true,
            in_text: false,
            value: Seq::empty(),
            ..scan
        }),
        scan.in_item ==> scan.step((Piece::Open { name: "t"@, attributes }).item()) == (
        StringScan { in_text: true, ..scan }),
        scan.step(Piece::Close("t"@).item()) == (StringScan { in_text: false, ..scan }),
        scan.in_item ==> scan.step(Piece::Close("si"@).item()) == (StringScan {
            in_item: false,
            in_text: false,
            value: Seq::empty(),
            found: scan.found.push(scan.value),
        }),
        !scan.in_item ==> scan.step((Piece::Open { name: "sst"@, attributes }).item()) == scan,
        scan.step(Piece::Close("sst"@).item()) == scan,
{
    lemma_item_tags();
    crate::xlsx_markup::lemma_no_attributes();
    let si = Piece::Open { name: "si"@, attributes: Seq::empty() };
    let t = Piece::Open { name: "t"@, attributes };
    let sst = Piece::Open { name: "sst"@, attributes };
    crate::markup::lemma_piece_tag(si, XmlKind::Start, "si"@);
    crate::markup::lemma_piece_tag(t, XmlKind::Start, "si"@);
    crate::markup::lemma_piece_tag(t, XmlKind::Start, "t"@);
    crate::markup::lemma_piece_tag(sst, XmlKind::Start, "si"@);
    crate::markup::lemma_piece_tag(Piece::Close("t"@), XmlKind::End, "t"@);
    crate::markup::lemma_piece_tag(Piece::Close("si"@), XmlKind::End, "t"@);
    crate::markup::lemma_piece_tag(Piece::Close("si"@), XmlKind::End, "si"@);
    crate::markup::lemma_piece_tag(Piece::Close("sst"@), XmlKind::End, "t"@);
    crate::markup::lemma_piece_tag(Piece::Close("sst"@), XmlKind::End, "si"@);
}

/// An item is read.
pub proof fn lemma_item_read(scan: StringScan, text: Seq<char>, preserved: bool)
    ensures
        scan.run(crate::markup::items(item_of(text, preserved))) == (StringScan {
            in_item: false,
            in_text: false,
            value: Seq::empty(),
            found: scan.found.push(text),
        }),
{
    let attributes = space_attributes(preserved);
    lemma_space_attributes(preserved);
    lemma_text_pieces(text);
    let si = seq![Piece::Open { name: "si"@, attributes: Seq::empty() }];
    let t = seq![Piece::Open { name: "t"@, attributes }];
    let inner = text_pieces(text);
    let end_t = seq![Piece::Close("t"@)];
    let end_si = seq![Piece::Close("si"@)];
    let s1 = StringScan { in_item: true, in_text: false, value: Seq::empty(), ..scan };
    let s2 = StringScan { in_text: true, ..s1 };
    let s3 = StringScan { value: Seq::empty() + text, ..s2 };
    let s4 = StringScan { in_text: false, ..s3 };
    lemma_tags_read(scan, attributes);
    lemma_tags_read(s1, attributes);
    lemma_tags_read(s3, attributes);
    lemma_tags_read(s4, attributes);
    lemma_text_read(s2, inner);
    lemma_run_one(scan, si[0]);
    lemma_run_one(s1, t[0]);
    lemma_run_one(s3, end_t[0]);
    lemma_run_one(s4, end_si[0]);
    lemma_run_concat(s1, t, inner);
    lemma_run_concat(s1, t + inner, end_t);
    lemma_run_concat(scan, si, t + inner + end_t);
    lemma_run_concat(scan, si + (t + inner + end_t), end_si);
    assert(Seq::empty() + text =~= text);
}

/// The texts without their control characters.
pub open spec fn cleaned(strings: Seq<Seq<char>>, n: nat) -> Seq<Seq<char>> {
    Seq::new(n, |i: int| crate::xlsx_parts::without_controls(strings[i]))
}

/// The items of the table are read.
pub proof fn lemma_table_read(scan: StringScan, strings: Seq<Seq<char>>, n: nat)
    requires
        n <= strings.len(),
        !scan.in_item,
        !scan.in_text,
        scan.value == Seq::<char>::empty(),
    ensures
        scan.run(crate::markup::items(table_pieces(strings, n))) == (StringScan {
            found: scan.found + cleaned(strings, n),
            ..scan
        }),
    decreases n,
{
    if n == 0 {
        assert(scan.found + cleaned(strings, 0) =~= scan.found);
    } else {
        let m = (n - 1) as nat;
        lemma_table_read(scan, strings, m);
        let before = StringScan { found: scan.found + cleaned(strings, m), ..scan };
        lemma_item_read(
            before,
            crate::xlsx_parts::without_controls(strings[n - 1]),
            crate::xlsx_parts::must_preserve(crate::xlsx_parts::cell_escaped(strings[n - 1])),
        );
        lemma_run_concat(scan, table_pieces(strings, m), item_pieces(strings[n - 1]));
        assert(before.found.push(crate::xlsx_parts::without_controls(strings[n - 1]))
            =~= scan.found + cleaned(strings, n));
    }
}

/// The attributes of the shared-string table.
pub open spec fn table_attributes(count: int, uses: int) -> Seq<Attr> {
    Seq::empty().push(
        Attr { key: "xmlns"@, value: crate::xlsx_cells::MAIN_NAMESPACE@ },
    ).push(Attr { key: "count"@, value: crate::text::decimal(uses) }).push(
        Attr { key: "uniqueCount"@, value: crate::text::decimal(count) },
    )
}

/// The shared-string table.
pub open spec fn shared_string_pieces(strings: Seq<Seq<char>>, uses: int) -> Seq<Piece> {
    seq![crate::xlsx_frame::declaration_piece()] + crate::markup::element(
        "sst"@,
        table_attributes(strings.len() as int, uses),
        table_pieces(strings, strings.len()),
    )
}

/// The opening tag of the shared-string table.
pub proof fn lemma_table_attributes(count: int, uses: int)
    ensures
        crate::markup::are_attributes(table_attributes(count, uses)),
        (Piece::Open { name: "sst"@, attributes: table_attributes(count, uses) }).text()
            == "<sst xmlns=\""@ + crate::xlsx_cells::MAIN_NAMESPACE@ + "\" count=\""@
            + crate::text::decimal(uses) + "\" uniqueCount=\""@ + crate::text::decimal(count)
            + "\">"@,
{
    reveal_strlit("xmlns");
    reveal_strlit("count");
    reveal_strlit("uniqueCount");
    reveal_strlit(" ");
    reveal_strlit("=\"");
    reveal_strlit("\"");
    reveal_strlit("sst");
    reveal_strlit("<");
    reveal_strlit(">");
    reveal_strlit("<sst xmlns=\"");
    reveal_strlit("\" count=\"");
    reveal_strlit("\" uniqueCount=\"");
    reveal_strlit("\">");
    reveal_strlit("http://schemas.openxmlformats.org/spreadsheetml/2006/main");
    let a = Attr { key: "xmlns"@, value: crate::xlsx_cells::MAIN_NAMESPACE@ };
    let b = Attr { key: "count"@, value: crate::text::decimal(uses) };
    let c = Attr { key: "uniqueCount"@, value: crate::text::decimal(count) };
    crate::xlsx_markup::lemma_decimal_is_plain(uses);
    crate::xlsx_markup::lemma_decimal_is_plain(count);
    crate::xlsx_markup::lemma_one_attribute(a);
    let one = Seq::empty().push(a);
    assert(one[0].key[0] == 'x');
    assert(b.key[0] == 'c' && c.key[0] == 'u');
    crate::xlsx_markup::lemma_attribute_more(one, b);
    assert(one.push(b)[0] == a && one.push(b)[1] == b);
    crate::xlsx_markup::lemma_attribute_more(one.push(b), c);
    assert("<"@ + ("sst"@ + (crate::markup::attribute_text(a) + crate::markup::attribute_text(b)
        + crate::markup::attribute_text(c))) + ">"@ =~= "<sst xmlns=\""@ + a.value
        + "\" count=\""@ + b.value + "\" uniqueCount=\""@ + c.value + "\">"@);
}

proof fn lemma_table_text(
    a: Seq<char>,
    b: Seq<char>,
    c: Seq<char>,
    d: Seq<char>,
    e: Seq<char>,
    f: Seq<char>,
    g: Seq<char>,
    h: Seq<char>,
    i: Seq<char>,
    j: Seq<char>,
)
    ensures
        a + ((b + c + d + e + f + g + h) + i + j) == a + b + c + d + e + f + g + h + i + j,
{
    assert(a + ((b + c + d + e + f + g + h) + i + j) =~= a + b + c + d + e + f + g + h + i + j);
}

/// The shared-string table that the writer makes is plain markup, which reads as
/// the texts of the table in their order, without their control characters. With
/// this [`parse_shared_strings_xml`](crate::xml_documents::parse_shared_strings_xml)
/// gives back what
/// [`render_shared_strings`](crate::xlsx_parts::render_shared_strings) was given.
pub proof fn law_shared_strings_read_back(strings: Seq<Seq<char>>, uses: int)
    ensures
        ({
            let pieces = shared_string_pieces(strings, uses);
            &&& crate::markup::is_document(pieces)
            &&& crate::markup::written(pieces) == crate::xlsx_parts::shared_strings_xml(
                strings,
                uses,
            )
            &&& crate::xml_documents::shared_strings_of(crate::markup::items(pieces)) == cleaned(
                strings,
                strings.len(),
            )
        }),
{
    let count = strings.len() as int;
    let attributes = table_attributes(count, uses);
    let declaration = crate::xlsx_frame::declaration_piece();
    let inner = table_pieces(strings, strings.len());
    let table = crate::markup::element("sst"@, attributes, inner);
    lemma_table_attributes(count, uses);
    lemma_table_pieces(strings, strings.len());
    lemma_item_tags();
    crate::xlsx_frame::lemma_declaration();
    crate::markup::lemma_block_one(declaration);
    crate::markup::lemma_block_element("sst"@, attributes, inner);
    crate::markup::lemma_block_concat(seq![declaration], table);
    crate::markup::lemma_block_document(seq![declaration] + table);
    crate::markup::lemma_written_concat(seq![declaration], table);
    crate::markup::lemma_written_one(declaration);
    crate::markup::lemma_element_text("sst"@, attributes, inner);
    lemma_table_text(
        declaration.text(),
        "<sst xmlns=\""@,
        crate::xlsx_cells::MAIN_NAMESPACE@,
        "\" count=\""@,
        crate::text::decimal(uses),
        "\" uniqueCount=\""@,
        crate::text::decimal(count),
        "\">"@,
        crate::markup::written(inner),
        Piece::Close("sst"@).text(),
    );
    let start = StringScan {
        in_item: false,
        in_text: false,
        value: Seq::empty(),
        found: Seq::empty(),
    };
    let open = Piece::Open { name: "sst"@, attributes };
    let close = Piece::Close("sst"@);
    let all = StringScan { found: start.found + cleaned(strings, strings.len()), ..start };
    lemma_run_one(start, declaration);
    lemma_run_one(start, open);
    lemma_run_one(all, close);
    lemma_tags_read(start, attributes);
    lemma_tags_read(all, attributes);
    lemma_table_read(start, strings, strings.len());
    lemma_run_concat(start, seq![open], inner);
    lemma_run_concat(start, seq![open] + inner, seq![close]);
    lemma_run_concat(start, seq![declaration], table);
    assert(all.found =~= cleaned(strings, strings.len()));
}

} // verus!
