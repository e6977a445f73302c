//! The style that the XLSX updater gives new dates.

use vstd::prelude::*;
use crate::formats::Plain;
use crate::markup::{Attr, Piece};
use crate::number::{Number, NumberTable};
use crate::xlsb_reader::BookInfo;
use crate::xlsx_update_rows::Looks;
use crate::xml_documents::StyleScan;
use crate::xml_events::{XmlItem, XmlKind};

verus! {

/// Slashes at the end of a word hide no colon.
proof fn lemma_no_colon_behind(word: Seq<char>)
    requires
        forall|j: int|
            0 <= j < crate::xml_tags::without_slashes(word).len()
                ==> #[trigger] crate::xml_tags::without_slashes(word)[j] != ':',
    ensures
        forall|j: int| 0 <= j < word.len() ==> word[j] != ':',
    decreases word.len(),
{
    if word.len() > 0 && word.last() == '/' {
        assert(crate::xml_tags::without_slashes(word) == crate::xml_tags::without_slashes(
            word.drop_last(),
        ));
        lemma_no_colon_behind(word.drop_last());
        assert forall|j: int| 0 <= j < word.len() implies word[j] != ':' by {
            if j < word.len() - 1 {
                assert(word.drop_last()[j] == word[j]);
            }
        }
    } else {
        assert(crate::xml_tags::without_slashes(word) == word);
    }
}

/// The local name of a tag is its name.
proof fn lemma_tag_local(piece: Piece)
    requires
        piece.is_sound(),
        crate::xlsx_sheet_markup::is_clear(piece),
        crate::xlsx_sheet_markup::tag_name(piece) is Some,
    ensures
        crate::xml_tags::local_name(crate::xlsx_sheet_markup::tag_content(piece))
            == crate::xlsx_sheet_markup::tag_name(piece)->0,
{
    crate::xlsx_sheet_markup::lemma_tag_word(piece);
    let name = crate::xlsx_sheet_markup::tag_name(piece)->0;
    let word = crate::xml_tags::first_word(crate::xlsx_sheet_markup::tag_content(piece));
    assert forall|j: int| 0 <= j < name.len() implies name[j] != ':' by {
        assert(crate::markup::is_letter(name[j]));
    }
    lemma_no_colon_behind(word);
    crate::xml_tags::lemma_no_colon(word);
}

/// A tag is found where it stands.
proof fn lemma_open_here(a: Seq<char>, piece: Piece, b: Seq<char>, local: Seq<char>)
    requires
        piece.is_sound(),
        crate::xlsx_sheet_markup::is_clear(piece),
        crate::xlsx_sheet_markup::tag_name(piece) == Some(local),
    ensures
        crate::xml_tags::open_tag_from(a + piece.text() + b, a.len() as int, local) == Some(
            (a.len() as int, (a.len() + piece.text().len()) as int),
        ),
{
    crate::xlsx_sheet_markup::lemma_tag_seen(a, piece, b);
    lemma_tag_local(piece);
}

/// A declaration is no tag that a search finds.
proof fn lemma_declaration_passed(a: Seq<char>, piece: Piece, b: Seq<char>, local: Seq<char>)
    requires
        piece.is_sound(),
        crate::xlsx_sheet_markup::is_clear(piece),
        piece is Declaration,
        crate::markup::is_name(local),
    ensures
        crate::xml_tags::open_tag_at(a + piece.text() + b, a.len() as int, local) is None,
{
    let t = piece.text();
    let xml = a + t + b;
    let at = a.len() as int;
    reveal_strlit("<?");
    reveal_strlit("?>");
    reveal_strlit("xml ");
    match piece {
        Piece::Declaration(content) => {
            let close = at + t.len() - 1;
            assert forall|j: int| 0 <= j < content.len() implies t[j + 2] == #[trigger] content[j] by {}
            assert forall|j: int| at <= j < close implies xml[j] != '>' by {
                assert(xml[j] == t[j - at]);
                if 2 <= j - at < 2 + content.len() {
                    assert(t[j - at] == content[j - at - 2]);
                }
            }
            assert(xml[close] == t[t.len() - 1]);
            crate::xlsx_string_update::lemma_first_char(xml, '>', at, close);
            let inner = xml.subrange(at + 1, close);
            let full = |c: char| !crate::text::is_whitespace(c);
            let blank = |c: char| crate::text::is_whitespace(c);
            let first = content.take(4);
            assert(first[0] == content[0] && first[1] == content[1] && first[2] == content[2]
                && first[3] == content[3]);
            assert(inner[0] == t[1] && inner[1] == t[2] && inner[2] == t[3] && inner[3] == t[4]
                && inner[4] == t[5]);
            assert(inner[0] == '?' && inner[1] == 'x' && inner[2] == 'm' && inner[3] == 'l'
                && inner[4] == ' ');
            crate::relationship_laws::lemma_scan_to(inner, 0, 0, full);
            crate::relationship_laws::lemma_scan_to(inner, 0, 4, blank);
            let word = crate::xml_tags::first_word(inner);
            assert(word == inner.subrange(0, 4));
            assert forall|j: int| 0 <= j < word.len() implies word[j] != ':' by {}
            crate::xml_tags::lemma_no_colon(word);
            assert(word.last() == 'l');
            assert(crate::xml_tags::local_name(inner) == word);
            assert(word[0] == '?');
            assert(crate::markup::is_letter(local[0]));
        },
        _ => {},
    }
}

/// A search for a tag goes on where none opens.
proof fn lemma_none_open(xml: Seq<char>, from: int, to: int, local: Seq<char>)
    requires
        0 <= from <= to <= xml.len(),
        forall|j: int|
            from <= j < to ==> #[trigger] crate::xml_tags::open_tag_at(xml, j, local) is None,
    ensures
        crate::xml_tags::open_tag_from(xml, from, local) == crate::xml_tags::open_tag_from(
            xml,
            to,
            local,
        ),
    decreases to - from,
{
    if from < to {
        assert(crate::xml_tags::open_tag_at(xml, from, local) is None);
        lemma_none_open(xml, from + 1, to, local);
    }
}

/// The search for a tag passes a piece that is not this tag.
proof fn lemma_open_passed(a: Seq<char>, piece: Piece, b: Seq<char>, local: Seq<char>)
    requires
        piece.is_sound(),
        crate::xlsx_sheet_markup::is_clear(piece),
        crate::xlsx_sheet_markup::tag_name(piece) != Some(local),
        crate::markup::is_name(local),
    ensures
        crate::xml_tags::open_tag_from(a + piece.text() + b, a.len() as int, local)
            == crate::xml_tags::open_tag_from(
            a + piece.text() + b,
            (a.len() + piece.text().len()) as int,
            local,
        ),
{
    let t = piece.text();
    let xml = a + t + b;
    let from = a.len() as int;
    let to = from + t.len();
    crate::xlsx_sheet_markup::lemma_lone_start(piece);
    assert(xml[from] == t[0]);
    if t.len() > 1 {
        assert(xml[from + 1] == t[1]);
    }
    if crate::xlsx_sheet_markup::tag_name(piece) is Some {
        crate::xlsx_sheet_markup::lemma_tag_seen(a, piece, b);
        lemma_tag_local(piece);
    } else if piece is Declaration {
        lemma_declaration_passed(a, piece, b, local);
    } else if piece is Close {
        reveal_strlit("</");
    } else if piece is Reference {
        reveal_strlit("&");
    }
    assert(crate::xml_tags::open_tag_at(xml, from, local) is None);
    assert forall|j: int| from <= j < to implies #[trigger] crate::xml_tags::open_tag_at(
        xml,
        j,
        local,
    ) is None by {
        if j > from {
            assert(xml[j] == t[j - from]);
        }
    }
    lemma_none_open(xml, from, to, local);
}

/// No piece is a tag of this name that opens an element.
pub open spec fn opens_none(pieces: Seq<Piece>, local: Seq<char>) -> bool {
    forall|i: int|
        0 <= i < pieces.len() ==> crate::xlsx_sheet_markup::tag_name(#[trigger] pieces[i]) != Some(
            local,
        )
}

/// The search for a tag passes pieces among which it is not.
proof fn lemma_opens_passed(a: Seq<char>, pieces: Seq<Piece>, b: Seq<char>, local: Seq<char>)
    requires
        crate::xlsx_sheet_markup::all_clear(pieces),
        opens_none(pieces, local),
        crate::markup::is_name(local),
    ensures
        ({
            let t = crate::markup::written(pieces);
            crate::xml_tags::open_tag_from(a + t + b, a.len() as int, local)
                == crate::xml_tags::open_tag_from(a + t + b, (a.len() + t.len()) as int, local)
        }),
    decreases pieces.len(),
{
    let t = crate::markup::written(pieces);
    if pieces.len() > 0 {
        let some = pieces.drop_last();
        let last = pieces.last();
        assert(last == pieces[pieces.len() - 1]);
        assert forall|i: int| 0 <= i < some.len() implies (#[trigger] some[i]).is_sound()
            && crate::xlsx_sheet_markup::is_clear(some[i])
            && crate::xlsx_sheet_markup::tag_name(some[i]) != Some(local) by {
            assert(some[i] == pieces[i]);
        }
        let s = crate::markup::written(some);
        let l = last.text();
        lemma_opens_passed(a, some, l + b, local);
        assert(a + s + (l + b) =~= a + t + b);
        lemma_open_passed(a + s, last, b, local);
        assert(a + s + l + b =~= a + t + b);
    }
}

/// A number format that a style part declares, and its code.
pub struct DeclaredFormat {
    pub id: int,
    pub code: Seq<char>,
}

/// The tag that declares a number format.
pub open spec fn format_piece(f: DeclaredFormat) -> Piece {
    Piece::Empty {
        name: "numFmt"@,
        attributes: seq![
            Attr { key: "numFmtId"@, value: crate::text::decimal(f.id) },
            Attr { key: "formatCode"@, value: crate::xml_utils::with_entities(f.code) },
        ],
        spaced: false,
    }
}

/// The tags of the first `n` number formats.
pub open spec fn format_pieces(list: Seq<DeclaredFormat>, n: nat) -> Seq<Piece> {
    Seq::new(n, |i: int| format_piece(list[i]))
}

/// A cell format: its number format, and what else its tag says.
pub struct CellFormat {
    pub format: int,
    pub more: Seq<Attr>,
}

/// The tag of a cell format.
pub open spec fn xf_piece(x: CellFormat) -> Piece {
    Piece::Empty {
        name: "xf"@,
        attributes: seq![Attr { key: "numFmtId"@, value: crate::text::decimal(x.format) }] + x.more,
        spaced: false,
    }
}

/// The tags of the first `n` cell formats.
pub open spec fn xf_pieces(list: Seq<CellFormat>, n: nat) -> Seq<Piece> {
    Seq::new(n, |i: int| xf_piece(list[i]))
}

/// Text with entities holds no character that bounds tags.
pub proof fn lemma_entities_clear(s: Seq<char>)
    ensures
        crate::xlsx_sheet_markup::has_no_bounds(crate::xml_utils::with_entities(s)),
    decreases s.len(),
{
    if s.len() > 0 {
        let some = crate::xml_utils::with_entities(s.drop_last());
        let last = crate::xml_utils::entity(s.last());
        lemma_entities_clear(s.drop_last());
        let all = some + last;
        assert forall|i: int| 0 <= i < all.len() implies #[trigger] all[i] != '<' && all[i]
            != '>' by {
            if i < some.len() {
                assert(all[i] == some[i]);
            } else {
                assert(all[i] == last[i - some.len()]);
            }
        }
    }
}

/// Decimal digits hold no character that bounds tags, and are read as the number.
proof fn lemma_id_text(n: int)
    requires
        0 <= n <= 0xffff,
    ensures
        ({
            let text = crate::text::decimal(n);
            &&& crate::xlsx_sheet_markup::has_no_bounds(text)
            &&& crate::markup::is_value(text)
            &&& crate::xml_utils::unescaped_text(text) == text
            &&& crate::xml_patch::unsigned_decimal(text, u16::MAX as nat) == Some(n as nat)
        }),
{
    let text = crate::text::decimal(n);
    crate::text::lemma_digits(n as nat);
    crate::xlsx_style_laws::lemma_digits_radix(n as nat);
    crate::xlsx_markup::lemma_decimal_is_plain(n);
    assert forall|i: int| 0 <= i < text.len() implies crate::text::is_digit(#[trigger] text[i]) by {}
    assert forall|i: int| 0 <= i < text.len() implies crate::xml_utils::entity(#[trigger] text[i])
        == seq![text[i]] by {
        assert(crate::text::is_digit(text[i]));
    }
    crate::xml_utils::lemma_plain_with_entities(text);
    assert(!crate::xml_utils::has_control(text)) by {
        assert forall|i: int| 0 <= i < text.len() implies !crate::xml_utils::is_control(
            #[trigger] text[i],
        ) by {
            assert(crate::text::is_digit(text[i]));
        }
    }
    crate::xml_utils::law_escape_round_trip(text);
    assert(crate::text::is_digit(text[0]));
}

/// The names of the attributes of number formats and cell formats.
proof fn lemma_key_names()
    ensures
        "numFmtId"@ == seq!['n', 'u', 'm', 'F', 'm', 't', 'I', 'd'],
        "formatCode"@ == seq!['f', 'o', 'r', 'm', 'a', 't', 'C', 'o', 'd', 'e'],
        crate::markup::is_key("numFmtId"@),
        crate::markup::is_key("formatCode"@),
        crate::xml_tags::names_attribute("numFmtId"@, "numFmtId"@),
        crate::xml_tags::names_attribute("formatCode"@, "formatCode"@),
        !crate::xml_tags::names_attribute("numFmtId"@, "formatCode"@),
{
    reveal_strlit("numFmtId");
    reveal_strlit("formatCode");
    assert("numFmtId"@ =~= seq!['n', 'u', 'm', 'F', 'm', 't', 'I', 'd']);
    assert("formatCode"@ =~= seq!['f', 'o', 'r', 'm', 'a', 't', 'C', 'o', 'd', 'e']);
    assert(!"formatCode"@.contains(':'));
}

/// The first attribute of a tag is read behind its name.
pub proof fn lemma_first_attribute(tag: Seq<char>, name: Seq<char>, a: Attr, rest: Seq<char>)
    requires
        crate::markup::is_name(name),
        crate::markup::is_name(a.key),
        crate::markup::is_value(a.value),
        tag == "<"@ + name + crate::markup::attribute_text(a) + rest,
    ensures
        crate::xml_tags::attribute(tag, a.key) == Some(crate::xml_utils::unescaped_text(a.value)),
        forall|wanted: Seq<char>|
            !crate::xml_tags::names_attribute(a.key, wanted)
                ==> #[trigger] crate::xml_tags::attribute(tag, wanted)
                == crate::xml_tags::attribute_from(
                tag,
                (1 + name.len() + crate::markup::attribute_text(a).len()) as int,
                wanted,
            ),
{
    reveal_strlit("<");
    reveal_strlit(" ");
    reveal_strlit("=\"");
    reveal_strlit("\"");
    let n = name.len() as int;
    let k = a.key.len() as int;
    let text = crate::markup::attribute_text(a);
    let from = n + 2;
    let eq = from + k;
    let v = eq + 2 + a.value.len();
    assert forall|j: int| 0 <= j < text.len() implies tag[1 + n + j] == #[trigger] text[j] by {}
    assert(text[0] == ' ');
    assert(text[1 + k] == '=' && text[2 + k] == '"');
    assert(text[3 + k + a.value.len()] == '"');
    assert(text.len() == 4 + k + a.value.len());
    assert(tag[n + 1] == text[0]);
    assert(tag[eq] == text[1 + k]);
    assert(tag[eq + 1] == text[2 + k]);
    assert(tag[v] == text[3 + k + a.value.len()]);
    assert forall|j: int| from <= j < eq implies crate::markup::is_letter(#[trigger] tag[j]) by {
        assert(tag[j] == text[j - n - 1]);
        assert(text[j - n - 1] == a.key[j - from]);
    }
    assert forall|j: int| eq + 1 < j < v implies #[trigger] tag[j] != '"' by {
        assert(tag[j] == text[j - n - 1]);
        assert(text[j - n - 1] == a.value[j - eq - 2]);
    }
    assert(tag[0] == '<');
    crate::relationship_laws::lemma_scan_to(tag, 0, 0, crate::xml_tags::is_char('<'));
    assert forall|j: int| 1 <= j < n + 1 implies !crate::xml_tags::tag_name_ends()(
        #[trigger] tag[j],
    ) by {
        assert(tag[j] == name[j - 1]);
        assert(crate::markup::is_letter(name[j - 1]));
    }
    crate::relationship_laws::lemma_scan_to(tag, 1, n + 1, crate::xml_tags::tag_name_ends());
    crate::relationship_laws::lemma_attribute_step(tag, from, eq, v, a.key);
    assert(tag.subrange(from, eq) =~= a.key);
    assert(tag.subrange(eq + 2, v) =~= a.value);
    assert(crate::xml_tags::names_attribute(a.key, a.key));
    assert forall|wanted: Seq<char>|
        !crate::xml_tags::names_attribute(a.key, wanted) implies #[trigger]
        crate::xml_tags::attribute(tag, wanted) == crate::xml_tags::attribute_from(
        tag,
        (1 + n + text.len()) as int,
        wanted,
    ) by {
        crate::relationship_laws::lemma_attribute_step(tag, from, eq, v, wanted);
    }
}

/// A later attribute of a tag is read.
pub proof fn lemma_later_attribute(tag: Seq<char>, front: Seq<char>, a: Attr, rest: Seq<char>)
    requires
        crate::markup::is_name(a.key),
        crate::markup::is_value(a.value),
        tag == front + crate::markup::attribute_text(a) + rest,
    ensures
        crate::xml_tags::attribute_from(tag, front.len() as int, a.key) == Some(
            crate::xml_utils::unescaped_text(a.value),
        ),
{
    reveal_strlit(" ");
    reveal_strlit("=\"");
    reveal_strlit("\"");
    let n = front.len() as int;
    let k = a.key.len() as int;
    let text = crate::markup::attribute_text(a);
    let from = n + 1;
    let eq = from + k;
    let v = eq + 2 + a.value.len();
    assert forall|j: int| 0 <= j < text.len() implies tag[n + j] == #[trigger] text[j] by {}
    assert(text[0] == ' ');
    assert(text[1 + k] == '=' && text[2 + k] == '"');
    assert(text[3 + k + a.value.len()] == '"');
    assert(tag[n] == text[0]);
    assert(tag[eq] == text[1 + k]);
    assert(tag[eq + 1] == text[2 + k]);
    assert(tag[v] == text[3 + k + a.value.len()]);
    assert forall|j: int| from <= j < eq implies crate::markup::is_letter(#[trigger] tag[j]) by {
        assert(tag[j] == text[j - n]);
        assert(text[j - n] == a.key[j - from]);
    }
    assert forall|j: int| eq + 1 < j < v implies #[trigger] tag[j] != '"' by {
        assert(tag[j] == text[j - n]);
        assert(text[j - n] == a.value[j - eq - 2]);
    }
    crate::relationship_laws::lemma_attribute_step(tag, from, eq, v, a.key);
    assert(tag.subrange(from, eq) =~= a.key);
    assert(tag.subrange(eq + 2, v) =~= a.value);
    assert(crate::xml_tags::names_attribute(a.key, a.key));
}

/// A number format can be declared: its id has sixteen bits, and its code holds no
/// control characters, tabs or line breaks.
pub open spec fn is_declarable(f: DeclaredFormat) -> bool {
    &&& 0 <= f.id <= 0xffff
    &&& !crate::xml_utils::has_control(f.code)
    &&& crate::xlsx_book_laws::is_one_line(f.code)
}

/// Two attributes of a tag are read.
pub proof fn lemma_two_attributes(name: Seq<char>, a: Attr, b: Attr)
    requires
        crate::markup::is_name(name),
        crate::markup::is_name(a.key),
        crate::markup::is_name(b.key),
        crate::markup::is_value(a.value),
        crate::markup::is_value(b.value),
        !crate::xml_tags::names_attribute(a.key, b.key),
    ensures
        ({
            let piece = Piece::Empty { name, attributes: seq![a, b], spaced: false };
            &&& crate::xml_tags::attribute(piece.text(), a.key) == Some(
                crate::xml_utils::unescaped_text(a.value),
            )
            &&& crate::xml_tags::attribute(piece.text(), b.key) == Some(
                crate::xml_utils::unescaped_text(b.value),
            )
        }),
{
    let piece = Piece::Empty { name, attributes: seq![a, b], spaced: false };
    let ta = crate::markup::attribute_text(a);
    let tb = crate::markup::attribute_text(b);
    let list = seq![a, b];
    reveal_strlit("<");
    reveal_strlit("/>");
    assert(list =~= seq![a] + seq![b]);
    lemma_attributes_front(a, seq![b]);
    lemma_attributes_front(b, Seq::empty());
    assert(seq![b] + Seq::<Attr>::empty() =~= seq![b]);
    assert(crate::markup::attributes_text(list) =~= ta + tb);
    let tag = piece.text();
    let front = "<"@ + name + ta;
    assert(tag =~= front + (tb + "/>"@));
    assert(tag =~= front + tb + "/>"@);
    lemma_first_attribute(tag, name, a, tb + "/>"@);
    lemma_later_attribute(tag, front, b, "/>"@);
}

/// The tag of a number format is plain markup and gives its id and its code.
proof fn lemma_format_tag(f: DeclaredFormat)
    requires
        is_declarable(f),
    ensures
        ({
            let piece = format_piece(f);
            &&& piece.is_sound()
            &&& crate::xlsx_sheet_markup::is_clear(piece)
            &&& crate::xml_tags::attribute(piece.text(), "numFmtId"@) == Some(
                crate::text::decimal(f.id),
            )
            &&& crate::xml_tags::attribute(piece.text(), "formatCode"@) == Some(f.code)
        }),
{
    let a = Attr { key: "numFmtId"@, value: crate::text::decimal(f.id) };
    let b = Attr { key: "formatCode"@, value: crate::xml_utils::with_entities(f.code) };
    lemma_key_names();
    lemma_key_letters();
    lemma_id_text(f.id);
    lemma_entities_clear(f.code);
    crate::xlsx_book_laws::lemma_entities_are_value(f.code);
    crate::xml_utils::law_escape_round_trip(f.code);
    crate::xlsx_style_laws::lemma_special_names();
    lemma_two_attributes("numFmt"@, a, b);
    assert(seq![a, b].len() == 2);
}

proof fn lemma_key_letters()
    ensures
        crate::markup::is_name("numFmtId"@),
        crate::markup::is_name("formatCode"@),
{
    lemma_key_names();
    assert forall|i: int| 0 <= i < 8 implies crate::markup::is_letter(
        #[trigger] "numFmtId"@[i],
    ) by {}
    assert forall|i: int| 0 <= i < 10 implies crate::markup::is_letter(
        #[trigger] "formatCode"@[i],
    ) by {}
}

/// A cell format can stand in a style part.
pub open spec fn is_cell_format(x: CellFormat) -> bool {
    &&& 0 <= x.format <= 0xffff
    &&& crate::markup::are_attributes(
        seq![Attr { key: "numFmtId"@, value: crate::text::decimal(x.format) }] + x.more,
    )
    &&& crate::xlsx_sheet_markup::are_clear(x.more)
}

/// The text of attributes starts with the first of them.
proof fn lemma_attributes_front(a: Attr, more: Seq<Attr>)
    ensures
        crate::markup::attributes_text(seq![a] + more) == crate::markup::attribute_text(a)
            + crate::markup::attributes_text(more),
    decreases more.len(),
{
    let all = seq![a] + more;
    if more.len() == 0 {
        assert(all =~= seq![a]);
        assert(all.drop_last() =~= Seq::<Attr>::empty());
        assert(crate::markup::attributes_text(Seq::<Attr>::empty()) =~= Seq::<char>::empty());
        assert(crate::markup::attributes_text(all) =~= crate::markup::attribute_text(a)
            + crate::markup::attributes_text(more));
    } else {
        lemma_attributes_front(a, more.drop_last());
        assert(all.drop_last() =~= seq![a] + more.drop_last());
        assert(all.last() == more.last());
        assert(crate::markup::attributes_text(all) =~= crate::markup::attribute_text(a)
            + crate::markup::attributes_text(more));
    }
}

/// The tag of a cell format is plain markup and gives its number format.
proof fn lemma_xf_tag(x: CellFormat)
    requires
        is_cell_format(x),
    ensures
        ({
            let piece = xf_piece(x);
            &&& piece.is_sound()
            &&& crate::xlsx_sheet_markup::is_clear(piece)
            &&& crate::xlsx_styles::format_of(piece.text()) == x.format
        }),
{
    let piece = xf_piece(x);
    let a = Attr { key: "numFmtId"@, value: crate::text::decimal(x.format) };
    let list = seq![a] + x.more;
    lemma_key_names();
    lemma_id_text(x.format);
    crate::xlsx_style_laws::lemma_special_names();
    reveal_strlit("<");
    reveal_strlit("/>");
    assert forall|i: int| 0 <= i < list.len() implies crate::xlsx_sheet_markup::has_no_bounds(
        (#[trigger] list[i]).value,
    ) by {
        if i > 0 {
            assert(list[i] == x.more[i - 1]);
        }
    }
    lemma_attributes_front(a, x.more);
    let rest = crate::markup::attributes_text(x.more) + "/>"@;
    let tag = piece.text();
    assert(tag =~= "<"@ + "xf"@ + crate::markup::attribute_text(a) + rest);
    lemma_key_letters();
    lemma_first_attribute(tag, "xf"@, a, rest);
}

/// Pieces that declare no number format add none.
proof fn lemma_no_formats(a: Seq<char>, pieces: Seq<Piece>, b: Seq<char>, known: Seq<int>)
    requires
        crate::xlsx_sheet_markup::all_clear(pieces),
        opens_none(pieces, "numFmt"@),
    ensures
        ({
            let t = crate::markup::written(pieces);
            crate::xlsx_styles::dated_formats_from(a + t + b, a.len() as int, known)
                == crate::xlsx_styles::dated_formats_from(
                a + t + b,
                (a.len() + t.len()) as int,
                known,
            )
        }),
{
    crate::xlsx_style_laws::lemma_special_names();
    lemma_opens_passed(a, pieces, b, "numFmt"@);
}

/// A number format is found where it is declared.
proof fn lemma_format_found(a: Seq<char>, f: DeclaredFormat, b: Seq<char>, known: Seq<int>)
    requires
        is_declarable(f),
    ensures
        ({
            let t = format_piece(f).text();
            crate::xlsx_styles::dated_formats_from(a + t + b, a.len() as int, known)
                == crate::xlsx_styles::dated_formats_from(
                a + t + b,
                (a.len() + t.len()) as int,
                if crate::xlsx_styles::looks_dated(f.code) {
                    known.push(f.id)
                } else {
                    known
                },
            )
        }),
{
    let t = format_piece(f).text();
    let xml = a + t + b;
    lemma_format_tag(f);
    lemma_id_text(f.id);
    lemma_open_here(a, format_piece(f), b, "numFmt"@);
    assert(xml.subrange(a.len() as int, (a.len() + t.len()) as int) =~= t);
}

/// The ids of those of the first `n` number formats that look like dates.
spec fn dated_ids(list: Seq<DeclaredFormat>, n: nat) -> Seq<int>
    decreases n,
{
    if n == 0 {
        Seq::empty()
    } else {
        let before = dated_ids(list, (n - 1) as nat);
        if crate::xlsx_styles::looks_dated(list[n - 1].code) {
            before.push(list[n - 1].id)
        } else {
            before
        }
    }
}

/// The text of one more tag.
proof fn lemma_written_more(pieces: Seq<Piece>, piece: Piece)
    ensures
        crate::markup::written(pieces.push(piece)) == crate::markup::written(pieces) + piece.text(),
{
    assert(pieces.push(piece).drop_last() =~= pieces);
}

/// All number formats are found.
proof fn lemma_formats_found(a: Seq<char>, list: Seq<DeclaredFormat>, n: nat, b: Seq<char>)
    requires
        n <= list.len(),
        forall|i: int| 0 <= i < list.len() ==> is_declarable(#[trigger] list[i]),
    ensures
        ({
            let t = crate::markup::written(format_pieces(list, n));
            crate::xlsx_styles::dated_formats_from(a + t + b, a.len() as int, Seq::empty())
                == crate::xlsx_styles::dated_formats_from(
                a + t + b,
                (a.len() + t.len()) as int,
                dated_ids(list, n),
            )
        }),
    decreases n,
{
    let t = crate::markup::written(format_pieces(list, n));
    if n == 0 {
        assert(t =~= Seq::<char>::empty());
    } else {
        let m = (n - 1) as nat;
        let f = list[n - 1];
        let some = crate::markup::written(format_pieces(list, m));
        let last = format_piece(f).text();
        assert(format_pieces(list, n) =~= format_pieces(list, m).push(format_piece(f)));
        lemma_written_more(format_pieces(list, m), format_piece(f));
        lemma_formats_found(a, list, m, last + b);
        assert(a + some + (last + b) =~= a + t + b);
        lemma_format_found(a + some, f, b, dated_ids(list, m));
        assert(a + some + last + b =~= a + t + b);
    }
}

/// Which ids look like dates.
proof fn lemma_dated_ids(list: Seq<DeclaredFormat>, n: nat, id: int)
    requires
        n <= list.len(),
    ensures
        dated_ids(list, n).contains(id) <==> exists|f: int|
            0 <= f < n && (#[trigger] list[f]).id == id && crate::xlsx_styles::looks_dated(
                list[f].code,
            ),
    decreases n,
{
    if n > 0 {
        let m = (n - 1) as nat;
        lemma_dated_ids(list, m, id);
        let before = dated_ids(list, m);
        let all = dated_ids(list, n);
        let last = list[n - 1];
        if crate::xlsx_styles::looks_dated(last.code) {
            assert(all == before.push(last.id));
            if last.id == id {
                assert(all[before.len() as int] == id);
            }
            if before.contains(id) {
                let i = choose|i: int| 0 <= i < before.len() && before[i] == id;
                assert(all[i] == id);
            }
            if all.contains(id) && last.id != id {
                let i = choose|i: int| 0 <= i < all.len() && all[i] == id;
                assert(before[i] == id);
            }
        }
    } else {
        assert(!dated_ids(list, n).contains(id));
    }
}

/// The tags of cell formats are plain markup.
proof fn lemma_xfs_clear(list: Seq<CellFormat>, n: nat)
    requires
        n <= list.len(),
        forall|i: int| 0 <= i < list.len() ==> is_cell_format(#[trigger] list[i]),
    ensures
        crate::xlsx_sheet_markup::all_clear(xf_pieces(list, n)),
{
    let pieces = xf_pieces(list, n);
    assert forall|i: int| 0 <= i < pieces.len() implies (#[trigger] pieces[i]).is_sound()
        && crate::xlsx_sheet_markup::is_clear(pieces[i]) by {
        assert(is_cell_format(list[i]));
        lemma_xf_tag(list[i]);
    }
}

/// The tag of a cell format stands behind those before it.
proof fn lemma_xf_stands(list: Seq<CellFormat>, k: nat) -> (rest: Seq<char>)
    requires
        k < list.len(),
    ensures
        crate::markup::written(xf_pieces(list, list.len())) == crate::markup::written(
            xf_pieces(list, k),
        ) + xf_piece(list[k as int]).text() + rest,
        crate::markup::written(xf_pieces(list, k + 1)) == crate::markup::written(
            xf_pieces(list, k),
        ) + xf_piece(list[k as int]).text(),
{
    let all = xf_pieces(list, list.len());
    let some = xf_pieces(list, k + 1);
    let tail = all.skip(k as int + 1);
    assert(all =~= some + tail);
    crate::markup::lemma_written_concat(some, tail);
    assert(some =~= xf_pieces(list, k).push(xf_piece(list[k as int])));
    lemma_written_more(xf_pieces(list, k), xf_piece(list[k as int]));
    crate::markup::written(tail)
}

/// The search for a style finds the first that shows dates.
proof fn lemma_style_found(list: Seq<CellFormat>, k: nat, declared: Seq<int>)
    requires
        k <= list.len(),
        forall|i: int| 0 <= i < list.len() ==> is_cell_format(#[trigger] list[i]),
    ensures
        match crate::xlsx_styles::dated_style_from(
            crate::markup::written(xf_pieces(list, list.len())),
            crate::markup::written(xf_pieces(list, k)).len() as int,
            k as int,
            declared,
        ) {
            Some(j) => {
                &&& k <= j < list.len()
                &&& crate::xlsx_styles::is_dated(list[j].format, declared)
                &&& forall|i: int|
                    k <= i < j ==> !crate::xlsx_styles::is_dated(
                        (#[trigger] list[i]).format,
                        declared,
                    )
            },
            None => forall|i: int|
                k <= i < list.len() ==> !crate::xlsx_styles::is_dated(
                    (#[trigger] list[i]).format,
                    declared,
                ),
        },
    decreases list.len() - k,
{
    let section = crate::markup::written(xf_pieces(list, list.len()));
    let from = crate::markup::written(xf_pieces(list, k)).len() as int;
    if k < list.len() {
        let x = list[k as int];
        assert(is_cell_format(x));
        let a = crate::markup::written(xf_pieces(list, k));
        let t = xf_piece(x).text();
        let rest = lemma_xf_stands(list, k);
        lemma_xf_tag(x);
        lemma_open_here(a, xf_piece(x), rest, "xf"@);
        assert(section.subrange(from, from + t.len()) =~= t);
        lemma_style_found(list, k + 1, declared);
    }
}

/// The search for the end of an element goes on where no closing tag stands.
proof fn lemma_none_closed(xml: Seq<char>, from: int, to: int, local: Seq<char>)
    requires
        0 <= from <= to < xml.len(),
        forall|j: int| from <= j < to ==> !(#[trigger] xml[j] == '<' && xml[j + 1] == '/'),
    ensures
        crate::xml_tags::close_tag_from(xml, from, local) == crate::xml_tags::close_tag_from(
            xml,
            to,
            local,
        ),
    decreases to - from,
{
    if from < to {
        assert(!(xml[from] == '<' && xml[from + 1] == '/'));
        lemma_none_closed(xml, from + 1, to, local);
    }
}

/// The search for the end of an element passes cell formats.
proof fn lemma_xfs_passed(
    a: Seq<char>,
    list: Seq<CellFormat>,
    n: nat,
    b: Seq<char>,
    local: Seq<char>,
)
    requires
        n <= list.len(),
        b.len() > 0,
        forall|i: int| 0 <= i < list.len() ==> is_cell_format(#[trigger] list[i]),
    ensures
        ({
            let t = crate::markup::written(xf_pieces(list, n));
            crate::xml_tags::close_tag_from(a + t + b, a.len() as int, local)
                == crate::xml_tags::close_tag_from(a + t + b, (a.len() + t.len()) as int, local)
        }),
    decreases n,
{
    let t = crate::markup::written(xf_pieces(list, n));
    if n == 0 {
        assert(t =~= Seq::<char>::empty());
    } else {
        let m = (n - 1) as nat;
        let x = list[n - 1];
        assert(is_cell_format(x));
        let some = crate::markup::written(xf_pieces(list, m));
        let piece = xf_piece(x);
        let last = piece.text();
        assert(xf_pieces(list, n) =~= xf_pieces(list, m).push(piece));
        lemma_written_more(xf_pieces(list, m), piece);
        lemma_xfs_passed(a, list, m, last + b, local);
        let xml = a + t + b;
        assert(a + some + (last + b) =~= xml);
        lemma_xf_tag(x);
        crate::xlsx_sheet_markup::lemma_lone_start(piece);
        crate::xlsx_sheet_markup::lemma_tag_text(piece);
        reveal_strlit("<");
        let from = (a.len() + some.len()) as int;
        assert(last[1] == crate::xlsx_sheet_markup::tag_content(piece)[0]);
        assert(xml =~= (a + some) + last + b);
        assert forall|j: int| from <= j < from + last.len() implies !(#[trigger] xml[j] == '<'
            && xml[j + 1] == '/') by {
            assert(xml[j] == last[j - from]);
            if j == from {
                assert(xml[j + 1] == last[1]);
            }
        }
        lemma_none_closed(xml, from, (from + last.len()) as int, local);
    }
}

/// A closing tag is found where it stands.
proof fn lemma_close_here(a: Seq<char>, name: Seq<char>, b: Seq<char>)
    requires
        crate::markup::is_name(name),
    ensures
        crate::xml_tags::close_tag_from(
            a + Piece::Close(name).text() + b,
            a.len() as int,
            name,
        ) == Some(a.len() as int),
{
    reveal_strlit("</");
    reveal_strlit(">");
    let t = Piece::Close(name).text();
    let xml = a + t + b;
    let from = a.len() as int;
    let close = from + t.len() - 1;
    let n = name.len() as int;
    assert(xml[from] == t[0] && xml[from + 1] == t[1]);
    assert(xml[close] == t[t.len() - 1]);
    assert forall|j: int| from <= j < close implies xml[j] != '>' by {
        assert(xml[j] == t[j - from]);
        if 2 <= j - from < 2 + n {
            assert(t[j - from] == name[j - from - 2]);
            assert(crate::markup::is_letter(name[j - from - 2]));
        }
    }
    crate::xlsx_string_update::lemma_first_char(xml, '>', from, close);
    assert(xml.subrange(from + 2, close) =~= name);
    let full = |c: char| !crate::text::is_whitespace(c);
    let blank = |c: char| crate::text::is_whitespace(c);
    assert forall|j: int| 0 <= j < n implies !crate::text::is_whitespace(#[trigger] name[j])
        && name[j] != ':' by {
        assert(crate::markup::is_letter(name[j]));
    }
    assert(full(name[0]));
    assert(crate::xml_tags::scan(name, 0, full) == 0);
    crate::xml_tags::lemma_scan(name, 0, blank);
    let end = crate::xml_tags::scan(name, 0, blank);
    if end < n {
        assert(blank(name[end]));
    }
    assert(name.subrange(0, n) =~= name);
    crate::xml_tags::lemma_no_colon(name);
}

/// A text in lower case, part by part.
proof fn lemma_lowered_concat(a: Seq<char>, b: Seq<char>)
    ensures
        crate::text::lowered(a + b) == crate::text::lowered(a) + crate::text::lowered(b),
    decreases b.len(),
{
    if b.len() == 0 {
        assert(a + b =~= a);
        assert(crate::text::lowered(a) + crate::text::lowered(b) =~= crate::text::lowered(a));
    } else {
        lemma_lowered_concat(a, b.drop_last());
        assert((a + b).drop_last() =~= a + b.drop_last());
        assert((a + b).last() == b.last());
        assert(crate::text::lowered(a + b) =~= crate::text::lowered(a) + crate::text::lowered(b));
    }
}

/// What stands in the middle of a text occurs in it.
proof fn lemma_occurs(a: Seq<char>, pattern: Seq<char>, b: Seq<char>)
    ensures
        crate::xml_patch::occurs(a + pattern + b, pattern),
{
    let s = a + pattern + b;
    crate::xml_patch::lemma_find_text(s, pattern, 0);
    assert(s.subrange(a.len() as int, (a.len() + pattern.len()) as int) =~= pattern);
    assert(crate::xml_utils::stands_at(s, pattern, a.len() as int));
}

/// A number format with two letters of a year, a month or a day in a row, or with
/// hours and minutes, in capitals or not, looks like a date.
proof fn lemma_letters_look_dated(code: Seq<char>, i: int)
    requires
        0 <= i,
        ({
            ||| i + 1 < code.len() && (code[i] == 'y' || code[i] == 'Y') && (code[i + 1] == 'y'
                || code[i + 1] == 'Y')
            ||| i + 1 < code.len() && (code[i] == 'm' || code[i] == 'M') && (code[i + 1] == 'm'
                || code[i + 1] == 'M')
            ||| i + 1 < code.len() && (code[i] == 'd' || code[i] == 'D') && (code[i + 1] == 'd'
                || code[i + 1] == 'D')
        }),
    ensures
        crate::xlsx_styles::looks_dated(code),
{
    reveal_strlit("yy");
    reveal_strlit("mm");
    reveal_strlit("dd");
    let a = code.take(i);
    let pair = code.subrange(i, i + 2);
    let b = code.skip(i + 2);
    assert(code =~= a + pair + b);
    lemma_lowered_concat(a, pair);
    lemma_lowered_concat(a + pair, b);
    assert(pair[0] == code[i] && pair[1] == code[i + 1]);
    assert forall|k: int| 0 <= k < pair.len() implies (#[trigger] pair[k] as u32) < 128 by {}
    crate::text::lemma_plain_lowered(pair);
    let low = crate::text::lowered(pair);
    assert(low[0] == crate::text::ascii_lower(pair[0]));
    assert(low[1] == crate::text::ascii_lower(pair[1]));
    lemma_occurs(crate::text::lowered(a), low, crate::text::lowered(b));
    assert(low =~= "yy"@ || low =~= "mm"@ || low =~= "dd"@);
}

/// What looks like a date holds two letters of a year, a month or a day in a row: two
/// of its characters in lower case are a pair of these letters.
proof fn lemma_dated_holds_letters(code: Seq<char>)
    requires
        crate::xlsx_styles::looks_dated(code),
    ensures
        exists|i: int|
            0 <= i && i + 1 < crate::text::lowered(code).len() && (#[trigger] crate::text::lowered(
                code,
            )[i] == 'y' || crate::text::lowered(code)[i] == 'm' || crate::text::lowered(code)[i]
                == 'd') && crate::text::lowered(code)[i + 1] == crate::text::lowered(code)[i],
{
    reveal_strlit("yy");
    reveal_strlit("mm");
    reveal_strlit("dd");
    reveal_strlit("h:mm");
    let low = crate::text::lowered(code);
    crate::xml_patch::lemma_find_text(low, "yy"@, 0);
    crate::xml_patch::lemma_find_text(low, "mm"@, 0);
    crate::xml_patch::lemma_find_text(low, "dd"@, 0);
    crate::xml_patch::lemma_find_text(low, "h:mm"@, 0);
    if let Some(i) = crate::xml_patch::find_text(low, "yy"@, 0) {
        assert(low.subrange(i, i + 2)[0] == low[i] && low.subrange(i, i + 2)[1] == low[i + 1]);
    } else if let Some(i) = crate::xml_patch::find_text(low, "mm"@, 0) {
        assert(low.subrange(i, i + 2)[0] == low[i] && low.subrange(i, i + 2)[1] == low[i + 1]);
    } else if let Some(i) = crate::xml_patch::find_text(low, "dd"@, 0) {
        assert(low.subrange(i, i + 2)[0] == low[i] && low.subrange(i, i + 2)[1] == low[i + 1]);
    } else if let Some(i) = crate::xml_patch::find_text(low, "h:mm"@, 0) {
        let part = low.subrange(i, i + 4);
        assert(part[2] == low[i + 2] && part[3] == low[i + 3]);
        assert(low[i + 2] == 'm' && low[i + 3] == 'm');
    }
}

/// A style part: the number formats that it declares, its cell formats, and what
/// stands around them.
pub struct StylePart {
    pub front: Seq<Piece>,
    pub formats: Seq<DeclaredFormat>,
    pub middle: Seq<Piece>,
    pub attributes: Seq<Attr>,
    pub xfs: Seq<CellFormat>,
    pub back: Seq<Piece>,
}

/// Pieces around number formats and cell formats.
pub open spec fn is_around(pieces: Seq<Piece>) -> bool {
    &&& crate::xlsx_sheet_markup::all_clear(pieces)
    &&& opens_none(pieces, "numFmt"@)
    &&& opens_none(pieces, "cellXfs"@)
}

impl StylePart {
    /// What stands in front of the cell formats.
    pub open spec fn before(self) -> Seq<Piece> {
        self.front + format_pieces(self.formats, self.formats.len()) + self.middle
    }

    /// The pieces of the part.
    pub open spec fn pieces(self) -> Seq<Piece> {
        self.before() + seq![Piece::Open { name: "cellXfs"@, attributes: self.attributes }]
            + xf_pieces(self.xfs, self.xfs.len()) + seq![Piece::Close("cellXfs"@)] + self.back
    }

    /// The part is plain markup.
    pub open spec fn is_plain(self) -> bool {
        &&& is_around(self.front)
        &&& is_around(self.middle)
        &&& is_around(self.back)
        &&& crate::markup::are_attributes(self.attributes)
        &&& crate::xlsx_sheet_markup::are_clear(self.attributes)
        &&& forall|i: int| 0 <= i < self.formats.len() ==> is_declarable(#[trigger] self.formats[i])
        &&& forall|i: int| 0 <= i < self.xfs.len() ==> is_cell_format(#[trigger] self.xfs[i])
    }
}

proof fn lemma_clear_concat(a: Seq<Piece>, b: Seq<Piece>, local: Seq<char>)
    requires
        crate::xlsx_sheet_markup::all_clear(a),
        crate::xlsx_sheet_markup::all_clear(b),
        opens_none(a, local),
        opens_none(b, local),
    ensures
        crate::xlsx_sheet_markup::all_clear(a + b),
        opens_none(a + b, local),
{
    let all = a + b;
    assert forall|i: int| 0 <= i < all.len() implies (#[trigger] all[i]).is_sound()
        && crate::xlsx_sheet_markup::is_clear(all[i]) && crate::xlsx_sheet_markup::tag_name(all[i])
        != Some(local) by {
        if i < a.len() {
            assert(all[i] == a[i]);
        } else {
            assert(all[i] == b[i - a.len()]);
        }
    }
}

/// The tags of number formats are plain markup and no others.
proof fn lemma_formats_clear(list: Seq<DeclaredFormat>, n: nat)
    requires
        n <= list.len(),
        forall|i: int| 0 <= i < list.len() ==> is_declarable(#[trigger] list[i]),
    ensures
        crate::xlsx_sheet_markup::all_clear(format_pieces(list, n)),
        opens_none(format_pieces(list, n), "cellXfs"@),
{
    crate::xlsx_style_laws::lemma_special_names();
    let pieces = format_pieces(list, n);
    assert forall|i: int| 0 <= i < pieces.len() implies (#[trigger] pieces[i]).is_sound()
        && crate::xlsx_sheet_markup::is_clear(pieces[i]) by {
        assert(is_declarable(list[i]));
        lemma_format_tag(list[i]);
    }
}

/// The text of a style part, cut at its cell formats.
proof fn lemma_part_text(part: StylePart)
    ensures
        ({
            let open = Piece::Open { name: "cellXfs"@, attributes: part.attributes };
            let close = Piece::Close("cellXfs"@);
            crate::markup::written(part.pieces()) == crate::markup::written(part.before())
                + open.text() + crate::markup::written(xf_pieces(part.xfs, part.xfs.len()))
                + close.text() + crate::markup::written(part.back)
        }),
        crate::markup::written(part.before()) == crate::markup::written(part.front)
            + crate::markup::written(format_pieces(part.formats, part.formats.len()))
            + crate::markup::written(part.middle),
{
    let open = Piece::Open { name: "cellXfs"@, attributes: part.attributes };
    let close = Piece::Close("cellXfs"@);
    let xfs = xf_pieces(part.xfs, part.xfs.len());
    let formats = format_pieces(part.formats, part.formats.len());
    crate::markup::lemma_written_concat(part.front, formats);
    crate::markup::lemma_written_concat(part.front + formats, part.middle);
    crate::markup::lemma_written_one(open);
    crate::markup::lemma_written_one(close);
    let p1 = part.before() + seq![open];
    let p2 = p1 + xfs;
    let p3 = p2 + seq![close];
    crate::markup::lemma_written_concat(part.before(), seq![open]);
    crate::markup::lemma_written_concat(p1, xfs);
    crate::markup::lemma_written_concat(p2, seq![close]);
    crate::markup::lemma_written_concat(p3, part.back);
}

/// The cell formats of a style part are found.
proof fn lemma_section_found(part: StylePart)
    requires
        part.is_plain(),
    ensures
        ({
            let xml = crate::markup::written(part.pieces());
            let s = crate::markup::written(xf_pieces(part.xfs, part.xfs.len()));
            crate::xml_tags::open_tag_from(xml, 0, "cellXfs"@) matches Some((_, start))
                && crate::xml_tags::close_tag_from(xml, start, "cellXfs"@) matches Some(end)
                && xml.subrange(start, end) == s
        }),
{
    let open = Piece::Open { name: "cellXfs"@, attributes: part.attributes };
    let close = Piece::Close("cellXfs"@);
    let xml = crate::markup::written(part.pieces());
    let p = crate::markup::written(part.before());
    let o = open.text();
    let s = crate::markup::written(xf_pieces(part.xfs, part.xfs.len()));
    let c = close.text();
    let b = crate::markup::written(part.back);
    let formats = format_pieces(part.formats, part.formats.len());
    crate::xlsx_style_laws::lemma_special_names();
    lemma_part_text(part);
    lemma_formats_clear(part.formats, part.formats.len());
    lemma_clear_concat(part.front, formats, "cellXfs"@);
    lemma_clear_concat(part.front + formats, part.middle, "cellXfs"@);
    lemma_opens_passed(Seq::empty(), part.before(), o + s + c + b, "cellXfs"@);
    assert(Seq::<char>::empty() + p + (o + s + c + b) =~= xml);
    lemma_open_here(p, open, s + c + b, "cellXfs"@);
    assert(p + o + (s + c + b) =~= xml);
    let start = (p.len() + o.len()) as int;
    reveal_strlit("</");
    assert(c.len() > 0);
    lemma_xfs_passed(p + o, part.xfs, part.xfs.len(), c + b, "cellXfs"@);
    assert(p + o + s + (c + b) =~= xml);
    lemma_close_here(p + o + s, "cellXfs"@, b);
    assert(p + o + s + c + b =~= xml);
    assert(xml.subrange(start, start + s.len()) =~= s);
}

/// The number formats of a style part are found.
proof fn lemma_declared_found(part: StylePart)
    requires
        part.is_plain(),
    ensures
        crate::xlsx_styles::dated_formats_from(
            crate::markup::written(part.pieces()),
            0,
            Seq::empty(),
        ) == dated_ids(part.formats, part.formats.len()),
{
    let n = part.formats.len();
    let formats = format_pieces(part.formats, n);
    let open = Piece::Open { name: "cellXfs"@, attributes: part.attributes };
    let close = Piece::Close("cellXfs"@);
    let xfs = xf_pieces(part.xfs, part.xfs.len());
    let rest = part.middle + seq![open] + xfs + seq![close] + part.back;
    let xml = crate::markup::written(part.pieces());
    let f = crate::markup::written(part.front);
    let t = crate::markup::written(formats);
    let r = crate::markup::written(rest);
    crate::xlsx_style_laws::lemma_special_names();
    assert(part.pieces() =~= part.front + formats + rest);
    crate::markup::lemma_written_concat(part.front, formats);
    crate::markup::lemma_written_concat(part.front + formats, rest);
    assert(xml =~= f + t + r);
    lemma_no_formats(Seq::empty(), part.front, t + r, Seq::empty());
    assert(Seq::<char>::empty() + f + (t + r) =~= xml);
    lemma_formats_found(f, part.formats, n, r);
    lemma_xfs_clear(part.xfs, part.xfs.len());
    assert(opens_none(xfs, "numFmt"@));
    assert(crate::xlsx_sheet_markup::all_clear(seq![open]) && opens_none(seq![open], "numFmt"@));
    assert(crate::xlsx_sheet_markup::all_clear(seq![close]) && opens_none(seq![close], "numFmt"@));
    lemma_clear_concat(part.middle, seq![open], "numFmt"@);
    lemma_clear_concat(part.middle + seq![open], xfs, "numFmt"@);
    lemma_clear_concat(part.middle + seq![open] + xfs, seq![close], "numFmt"@);
    lemma_clear_concat(part.middle + seq![open] + xfs + seq![close], part.back, "numFmt"@);
    lemma_no_formats(f + t, rest, Seq::empty(), dated_ids(part.formats, n));
    assert(f + t + r + Seq::<char>::empty() =~= xml);
    assert(crate::xml_tags::open_tag_from(xml, xml.len() as int, "numFmt"@) is None);
}

/// A style part with a cell format for dates offers a style for dates: one of Excel's
/// own date formats, 14 to 22 and 45 to 47, or a number format that the part declares
/// with two letters of a year, a month or a day in a row, as `yyyy-mm-dd` has them, in
/// capitals or not. The style offered stands no later than any such cell format, and
/// has such a number format itself.
pub proof fn law_date_style_is_found(part: StylePart, k: int, f: int, i: int)
    requires
        part.is_plain(),
        0 <= k < part.xfs.len(),
        ({
            let format = part.xfs[k].format;
            let code = part.formats[f].code;
            ||| 14 <= format <= 22
            ||| 45 <= format <= 47
            ||| 0 <= f < part.formats.len() && part.formats[f].id == format && 0 <= i && i + 1
                < code.len() && (((code[i] == 'y' || code[i] == 'Y') && (code[i + 1] == 'y'
                || code[i + 1] == 'Y')) || ((code[i] == 'm' || code[i] == 'M') && (code[i + 1]
                == 'm' || code[i + 1] == 'M')) || ((code[i] == 'd' || code[i] == 'D') && (code[i
                + 1] == 'd' || code[i + 1] == 'D')))
        }),
    ensures
        crate::xlsx_styles::date_style(crate::markup::written(part.pieces())) matches Ok(Some(j))
            && 0 <= j <= k,
{
    let declared = dated_ids(part.formats, part.formats.len());
    let format = part.xfs[k].format;
    lemma_section_found(part);
    lemma_declared_found(part);
    lemma_style_found(part.xfs, 0, declared);
    assert(crate::markup::written(xf_pieces(part.xfs, 0)).len() == 0);
    lemma_dated_ids(part.formats, part.formats.len(), format);
    if !(14 <= format <= 22 || 45 <= format <= 47) {
        lemma_letters_look_dated(part.formats[f].code, i);
        assert(declared.contains(format));
    }
    assert(crate::xlsx_styles::is_dated(part.xfs[k].format, declared));
}

/// A style for dates that a style part offers has one of Excel's own date formats, 14
/// to 22 and 45 to 47, or a number format that the part declares with two letters of a
/// year, a month or a day in a row, once it is in lower case. A part with no such cell
/// format offers none.
pub proof fn law_date_style_shows_dates(part: StylePart)
    requires
        part.is_plain(),
    ensures
        match crate::xlsx_styles::date_style(crate::markup::written(part.pieces())) {
            Ok(Some(j)) => {
                &&& 0 <= j < part.xfs.len()
                &&& 14 <= part.xfs[j].format <= 22 || 45 <= part.xfs[j].format <= 47
                    || exists|f: int, i: int|
                    0 <= f < part.formats.len() && (#[trigger] part.formats[f]).id
                        == part.xfs[j].format && 0 <= i && i + 1 < crate::text::lowered(
                        part.formats[f].code,
                    ).len() && (#[trigger] crate::text::lowered(part.formats[f].code)[i] == 'y'
                        || crate::text::lowered(part.formats[f].code)[i] == 'm'
                        || crate::text::lowered(part.formats[f].code)[i] == 'd')
                        && crate::text::lowered(part.formats[f].code)[i + 1]
                        == crate::text::lowered(part.formats[f].code)[i]
            },
            Ok(None) => true,
            Err(_) => false,
        },
{
    let declared = dated_ids(part.formats, part.formats.len());
    lemma_section_found(part);
    lemma_declared_found(part);
    lemma_style_found(part.xfs, 0, declared);
    assert(crate::markup::written(xf_pieces(part.xfs, 0)).len() == 0);
    if let Ok(Some(j)) = crate::xlsx_styles::date_style(crate::markup::written(part.pieces())) {
        let format = part.xfs[j].format;
        lemma_dated_ids(part.formats, part.formats.len(), format);
        if !(14 <= format <= 22 || 45 <= format <= 47) {
            let f = choose|f: int|
                0 <= f < part.formats.len() && (#[trigger] part.formats[f]).id == format
                    && crate::xlsx_styles::looks_dated(part.formats[f].code);
            lemma_dated_holds_letters(part.formats[f].code);
            let low = crate::text::lowered(part.formats[f].code);
            let i = choose|i: int|
                0 <= i && i + 1 < low.len() && (#[trigger] low[i] == 'y' || low[i] == 'm' || low[i]
                    == 'd') && low[i + 1] == low[i];
            assert(part.formats[f].id == part.xfs[j].format && crate::text::lowered(
                part.formats[f].code,
            )[i] == low[i]);
        }
    }
}

/// Styles are read part by part.
proof fn lemma_styles_concat(scan: StyleScan, a: Seq<Piece>, b: Seq<Piece>)
    ensures
        scan.run(crate::markup::items(a + b)) == scan.run(crate::markup::items(a)).run(
            crate::markup::items(b),
        ),
    decreases a.len(),
{
    let all = crate::markup::items(a + b);
    if a.len() == 0 {
        assert(a + b =~= b);
        assert(crate::markup::items(a).len() == 0);
    } else {
        let more = a.skip(1);
        assert(all.skip(1) =~= crate::markup::items(more + b));
        assert(crate::markup::items(a).skip(1) =~= crate::markup::items(more));
        assert(all[0] == Ok::<XmlItem, Seq<char>>(a[0].item()));
        assert(crate::markup::items(a)[0] == Ok::<XmlItem, Seq<char>>(a[0].item()));
        lemma_styles_concat(scan.step(a[0].item()), more, b);
    }
}

/// One more piece of a style part is read.
proof fn lemma_styles_one(scan: StyleScan, piece: Piece)
    ensures
        scan.run(crate::markup::items(seq![piece])) == scan.step(piece.item()),
{
    let all = crate::markup::items(seq![piece]);
    assert(all[0] == Ok::<XmlItem, Seq<char>>(piece.item()));
    assert(all.skip(1) =~= Seq::<Result<XmlItem, Seq<char>>>::empty());
    let next = scan.step(piece.item());
    assert(next.run(Seq::empty()) == next);
}

/// Outside of the cell formats, what declares no number format changes nothing.
proof fn lemma_around_read(scan: StyleScan, pieces: Seq<Piece>)
    requires
        is_around(pieces),
        !scan.in_cell_xfs,
    ensures
        scan.run(crate::markup::items(pieces)) == scan,
    decreases pieces.len(),
{
    if pieces.len() > 0 {
        let first = pieces[0];
        let more = pieces.skip(1);
        assert forall|i: int| 0 <= i < more.len() implies (#[trigger] more[i]).is_sound()
            && crate::xlsx_sheet_markup::is_clear(more[i]) && crate::xlsx_sheet_markup::tag_name(
            more[i],
        ) != Some("numFmt"@) && crate::xlsx_sheet_markup::tag_name(more[i]) != Some(
            "cellXfs"@,
        ) by {
            assert(more[i] == pieces[i + 1]);
        }
        assert(crate::markup::items(pieces).skip(1) =~= crate::markup::items(more));
        assert(crate::markup::items(pieces)[0] == Ok::<XmlItem, Seq<char>>(first.item()));
        crate::markup::lemma_piece_tag(first, XmlKind::Start, "numFmt"@);
        crate::markup::lemma_piece_tag(first, XmlKind::Empty, "numFmt"@);
        crate::markup::lemma_piece_tag(first, XmlKind::Start, "cellXfs"@);
        crate::markup::lemma_piece_tag(first, XmlKind::Empty, "cellXfs"@);
        assert(scan.step(first.item()) == scan);
        lemma_around_read(scan, more);
    }
}

/// The number formats of a style part are read: those whose code shows dates are dates.
proof fn lemma_formats_read(list: Seq<DeclaredFormat>, n: nat, id: u16)
    requires
        n <= list.len(),
        forall|i: int| 0 <= i < list.len() ==> is_declarable(#[trigger] list[i]),
    ensures
        ({
            let scan = crate::xml_documents::no_styles().run(
                crate::markup::items(format_pieces(list, n)),
            );
            &&& !scan.in_cell_xfs
            &&& scan.formats == Seq::<u16>::empty()
            &&& scan.date_formats.contains(id) <==> exists|f: int|
                0 <= f < n && (#[trigger] list[f]).id == id && crate::formats::is_date_code(
                    list[f].code,
                )
        }),
    decreases n,
{
    let start = crate::xml_documents::no_styles();
    if n == 0 {
        assert(crate::markup::items(format_pieces(list, n)).len() == 0);
    } else {
        let m = (n - 1) as nat;
        let f = list[n - 1];
        let piece = format_piece(f);
        let some = format_pieces(list, m);
        lemma_formats_read(list, m, id);
        assert(format_pieces(list, n) =~= some + seq![piece]);
        lemma_styles_concat(start, some, seq![piece]);
        let before = start.run(crate::markup::items(some));
        lemma_styles_one(before, piece);
        assert(is_declarable(f));
        lemma_format_tag(f);
        crate::xlsx_style_laws::lemma_special_names();
        crate::markup::lemma_piece_tag(piece, XmlKind::Empty, "numFmt"@);
        crate::xlsx_style_laws::lemma_format_attributes(f.id, f.code);
        assert(crate::xlsx_style_part::format_attributes(f.id, f.code) =~= seq![
            Attr { key: "numFmtId"@, value: crate::text::decimal(f.id) },
            Attr { key: "formatCode"@, value: crate::xml_utils::with_entities(f.code) },
        ]);
        let after = start.run(crate::markup::items(format_pieces(list, n)));
        assert(after == if crate::formats::is_date_code(f.code) {
            StyleScan { date_formats: before.date_formats.insert(f.id as u16), ..before }
        } else {
            before
        });
        if after.date_formats.contains(id) {
            if before.date_formats.contains(id) {
                let g = choose|g: int|
                    0 <= g < m && (#[trigger] list[g]).id == id && crate::formats::is_date_code(
                        list[g].code,
                    );
                assert(0 <= g < n && list[g].id == id);
            } else {
                assert(list[n - 1].id == id);
            }
        }
    }
}

/// The cell formats of a style part are read, each with its number format.
proof fn lemma_xfs_read(scan: StyleScan, list: Seq<CellFormat>, n: nat)
    requires
        n <= list.len(),
        scan.in_cell_xfs,
        scan.formats == Seq::<u16>::empty(),
        forall|i: int| 0 <= i < list.len() ==> is_cell_format(#[trigger] list[i]),
    ensures
        scan.run(crate::markup::items(xf_pieces(list, n))) == (StyleScan {
            formats: Seq::new(n, |i: int| list[i].format as u16),
            ..scan
        }),
    decreases n,
{
    let all = Seq::new(n, |i: int| list[i].format as u16);
    if n == 0 {
        assert(crate::markup::items(xf_pieces(list, n)).len() == 0);
        assert(all =~= Seq::<u16>::empty());
    } else {
        let m = (n - 1) as nat;
        let x = list[n - 1];
        let piece = xf_piece(x);
        let some = xf_pieces(list, m);
        lemma_xfs_read(scan, list, m);
        assert(xf_pieces(list, n) =~= some + seq![piece]);
        lemma_styles_concat(scan, some, seq![piece]);
        let before = scan.run(crate::markup::items(some));
        lemma_styles_one(before, piece);
        assert(is_cell_format(x));
        lemma_xf_tag(x);
        crate::xlsx_style_laws::lemma_special_names();
        crate::markup::lemma_piece_tag(piece, XmlKind::Empty, "numFmt"@);
        crate::markup::lemma_piece_tag(piece, XmlKind::Empty, "cellXfs"@);
        crate::markup::lemma_piece_tag(piece, XmlKind::Empty, "xf"@);
        let attributes = seq![Attr { key: "numFmtId"@, value: crate::text::decimal(x.format) }]
            + x.more;
        assert forall|i: int| 0 < i < attributes.len() implies (#[trigger] attributes[i]).key
            != "numFmtId"@ by {
            assert(attributes[0].key != attributes[i].key);
        }
        crate::xlsx_style_laws::lemma_style_formats(attributes, x.format, attributes.len());
        assert(before.formats + seq![x.format as u16] =~= all);
    }
}

/// A style part tells the reader the number format of every cell format, and which of
/// the number formats that it declares show dates.
pub proof fn law_style_part_is_read(part: StylePart, id: u16)
    requires
        part.is_plain(),
    ensures
        ({
            let scan = crate::xml_documents::no_styles().run(crate::markup::items(part.pieces()));
            &&& scan.formats.len() == part.xfs.len()
            &&& forall|k: int|
                0 <= k < part.xfs.len() ==> #[trigger] scan.formats[k] == part.xfs[k].format
            &&& scan.date_formats.contains(id) <==> exists|f: int|
                0 <= f < part.formats.len() && (#[trigger] part.formats[f]).id == id
                    && crate::formats::is_date_code(part.formats[f].code)
        }),
{
    let start = crate::xml_documents::no_styles();
    let formats = format_pieces(part.formats, part.formats.len());
    let open = Piece::Open { name: "cellXfs"@, attributes: part.attributes };
    let close = Piece::Close("cellXfs"@);
    let xfs = xf_pieces(part.xfs, part.xfs.len());
    crate::xlsx_style_laws::lemma_special_names();
    assert(open.is_sound() && close.is_sound());
    let p1 = part.front + formats;
    let p2 = p1 + part.middle;
    let p3 = p2 + seq![open];
    let p4 = p3 + xfs;
    let p5 = p4 + seq![close];
    lemma_styles_concat(start, part.front, formats);
    lemma_styles_concat(start, p1, part.middle);
    lemma_styles_concat(start, p2, seq![open]);
    lemma_styles_concat(start, p3, xfs);
    lemma_styles_concat(start, p4, seq![close]);
    lemma_styles_concat(start, p5, part.back);
    lemma_around_read(start, part.front);
    lemma_formats_read(part.formats, part.formats.len(), id);
    let s1 = start.run(crate::markup::items(p1));
    lemma_around_read(s1, part.middle);
    lemma_styles_one(s1, open);
    crate::markup::lemma_piece_tag(open, XmlKind::Start, "numFmt"@);
    crate::markup::lemma_piece_tag(open, XmlKind::Start, "cellXfs"@);
    let s3 = start.run(crate::markup::items(p3));
    assert(s3 == StyleScan { in_cell_xfs: true, ..s1 });
    lemma_xfs_read(s3, part.xfs, part.xfs.len());
    let s4 = start.run(crate::markup::items(p4));
    lemma_styles_one(s4, close);
    crate::markup::lemma_piece_tag(close, XmlKind::Start, "numFmt"@);
    crate::markup::lemma_piece_tag(close, XmlKind::End, "cellXfs"@);
    let s5 = start.run(crate::markup::items(p5));
    assert(s5 == StyleScan { in_cell_xfs: false, ..s4 });
    lemma_around_read(s5, part.back);
}

/// A date that is put into a column without a style reads back as a date, where the
/// style part has a cell format with one of Excel's own date formats, 14 to 22 and 45
/// to 47, or with a number format that it declares with two letters of a year, a month
/// or a day in a row, such as `yyyy-mm-dd`. The first cell format, which cells without
/// a style have, has to show no dates, and the letters may not stand in a literal: a
/// number format with two such letters in a row has to show dates.
pub proof fn law_new_dates_read_back_as_dates(
    part: StylePart,
    k: int,
    f: int,
    i: int,
    looks: Looks,
    col: int,
    date: Number,
    is_shared: bool,
    numbers: NumberTable,
    info: BookInfo,
    doubles: crate::xlsx_read_laws::Doubles,
    bits: u64,
)
    requires
        part.is_plain(),
        0 < k < part.xfs.len(),
        ({
            let format = part.xfs[k].format;
            let code = part.formats[f].code;
            ||| 14 <= format <= 22
            ||| 45 <= format <= 47
            ||| 0 <= f < part.formats.len() && part.formats[f].id == format && 0 <= i && i + 1
                < code.len() && (((code[i] == 'y' || code[i] == 'Y') && (code[i + 1] == 'y'
                || code[i + 1] == 'Y')) || ((code[i] == 'm' || code[i] == 'M') && (code[i + 1]
                == 'm' || code[i + 1] == 'M')) || ((code[i] == 'd' || code[i] == 'D') && (code[i
                + 1] == 'd' || code[i + 1] == 'D')))
        }),
        part.xfs[0].format == 0,
        forall|g: int|
            0 <= g < part.formats.len() ==> (#[trigger] part.formats[g]).id != 0 && (
            crate::xlsx_styles::looks_dated(part.formats[g].code) ==> crate::formats::is_date_code(
                part.formats[g].code,
            )),
        crate::xlsx_styles::data_style(looks.cells, col) == 0,
        crate::xlsx_styles::date_style(crate::markup::written(part.pieces())) == Ok::<
            Option<int>,
            Seq<char>,
        >(looks.date),
        ({
            let scan = crate::xml_documents::no_styles().run(crate::markup::items(part.pieces()));
            info.formats == scan.formats && info.date_formats == scan.date_formats
        }),
        doubles(numbers.display(date)) == Some(bits),
    ensures
        looks.date matches Some(j) && 0 < j <= k,
        crate::xlsx_update_read::value_back(
            is_shared,
            Plain::DateTime(date),
            col,
            looks,
            numbers,
            info,
            doubles,
        ) == Plain::DateTime(Number::Double(bits)),
{
    let declared = dated_ids(part.formats, part.formats.len());
    law_date_style_is_found(part, k, f, i);
    lemma_section_found(part);
    lemma_declared_found(part);
    lemma_style_found(part.xfs, 0, declared);
    assert(crate::markup::written(xf_pieces(part.xfs, 0)).len() == 0);
    let j = looks.date->0;
    lemma_dated_ids(part.formats, part.formats.len(), 0);
    assert(!crate::xlsx_styles::is_dated(part.xfs[0].format, declared));
    assert(0 < j <= k);
    let format = part.xfs[j].format;
    assert(is_cell_format(part.xfs[j]));
    lemma_dated_ids(part.formats, part.formats.len(), format);
    law_style_part_is_read(part, format as u16);
    assert(info.formats[j] == format);
    if declared.contains(format) {
        let g = choose|g: int|
            0 <= g < part.formats.len() && (#[trigger] part.formats[g]).id == format
                && crate::xlsx_styles::looks_dated(part.formats[g].code);
        assert(part.formats[g].id == format as u16);
        assert(info.date_formats.contains(format as u16));
    }
}

} // verus!
