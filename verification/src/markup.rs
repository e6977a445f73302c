//! Documents made of plain markup, and the events they consist of.

use vstd::prelude::*;
use crate::xml_events::{XmlAttribute, XmlItem, XmlKind};

verus! {

/// An attribute of a tag.
pub struct Attr {
    pub key: Seq<char>,
    pub value: Seq<char>,
}

/// A piece of a document: the declaration at its start, a tag, text between tags,
/// or a reference. An empty tag may have a space in front of its slash.
pub enum Piece {
    Declaration(Seq<char>),
    Open { name: Seq<char>, attributes: Seq<Attr> },
    Empty { name: Seq<char>, attributes: Seq<Attr>, spaced: bool },
    Close(Seq<char>),
    Text(Seq<char>),
    Reference(Seq<char>),
}

/// The text of an attribute in a tag.
pub open spec fn attribute_text(a: Attr) -> Seq<char> {
    " "@ + a.key + "=\""@ + a.value + "\""@
}

/// The text of attributes in a tag.
pub open spec fn attributes_text(list: Seq<Attr>) -> Seq<char>
    decreases list.len(),
{
    if list.len() == 0 {
        Seq::empty()
    } else {
        attributes_text(list.drop_last()) + attribute_text(list.last())
    }
}

/// What events say of attributes.
pub open spec fn attribute_items(list: Seq<Attr>) -> Seq<Option<XmlAttribute>> {
    Seq::new(
        list.len(),
        |i: int|
            Some(
                XmlAttribute {
                    key: vstd::utf8::encode_utf8(list[i].key),
                    value: vstd::utf8::encode_utf8(list[i].value),
                },
            ),
    )
}

pub open spec fn is_letter(c: char) -> bool {
    'a' <= c <= 'z' || 'A' <= c <= 'Z'
}

/// A name is made of letters.
pub open spec fn is_name(s: Seq<char>) -> bool {
    s.len() > 0 && forall|i: int| 0 <= i < s.len() ==> is_letter(#[trigger] s[i])
}

/// A key is made of letters and colons.
pub open spec fn is_key(s: Seq<char>) -> bool {
    s.len() > 0 && forall|i: int|
        0 <= i < s.len() ==> is_letter(#[trigger] s[i]) || s[i] == ':'
}

/// The value can stand between double quotes.
pub open spec fn is_value(s: Seq<char>) -> bool {
    forall|i: int| 0 <= i < s.len() ==> #[trigger] s[i] != '"'
}

/// Text that holds no markup.
pub open spec fn is_plain(s: Seq<char>) -> bool {
    s.len() > 0 && forall|i: int| 0 <= i < s.len() ==> #[trigger] s[i] != '<' && s[i] != '&'
}

/// The attributes can stand in a tag, with no key twice.
pub open spec fn are_attributes(list: Seq<Attr>) -> bool {
    &&& forall|i: int| 0 <= i < list.len() ==> is_key((#[trigger] list[i]).key) && is_value(list[i].value)
    &&& forall|i: int, j: int| 0 <= i < j < list.len() ==> (#[trigger] list[i]).key != (#[trigger] list[j]).key
}

impl Piece {
    /// The text of the piece.
    pub open spec fn text(self) -> Seq<char> {
        match self {
            Piece::Declaration(content) => "<?"@ + content + "?>"@,
            Piece::Open { name, attributes } => "<"@ + (name + attributes_text(attributes)) + ">"@,
            Piece::Empty { name, attributes, spaced } => "<"@ + (name + attributes_text(attributes)
                + (if spaced {
                " "@
            } else {
                Seq::empty()
            })) + "/>"@,
            Piece::Close(name) => "</"@ + name + ">"@,
            Piece::Text(text) => text,
            Piece::Reference(name) => "&"@ + name + ";"@,
        }
    }

    /// The event of the piece.
    pub open spec fn item(self) -> XmlItem {
        match self {
            Piece::Declaration(content) => XmlItem {
                kind: XmlKind::Other,
                content: vstd::utf8::encode_utf8(content),
                attributes: Seq::empty(),
            },
            Piece::Open { name, attributes } => XmlItem {
                kind: XmlKind::Start,
                content: vstd::utf8::encode_utf8(name + attributes_text(attributes)),
                attributes: attribute_items(attributes),
            },
            Piece::Empty { name, attributes, spaced } => XmlItem {
                kind: XmlKind::Empty,
                content: vstd::utf8::encode_utf8(
                    name + attributes_text(attributes) + (if spaced {
                        " "@
                    } else {
                        Seq::empty()
                    }),
                ),
                attributes: attribute_items(attributes),
            },
            Piece::Close(name) => XmlItem {
                kind: XmlKind::End,
                content: vstd::utf8::encode_utf8(name),
                attributes: Seq::empty(),
            },
            Piece::Text(text) => XmlItem {
                kind: XmlKind::Text,
                content: vstd::utf8::encode_utf8(text),
                attributes: Seq::empty(),
            },
            Piece::Reference(name) => XmlItem {
                kind: XmlKind::Reference,
                content: vstd::utf8::encode_utf8(name),
                attributes: Seq::empty(),
            },
        }
    }

    /// The piece is made of what it may be made of.
    pub open spec fn is_sound(self) -> bool {
        match self {
            Piece::Declaration(content) => content.len() >= 4 && content.take(4) == "xml "@
                && forall|i: int|
                0 <= i < content.len() ==> #[trigger] content[i] != '?' && content[i] != '>',
            Piece::Open { name, attributes } => is_name(name) && are_attributes(attributes),
            Piece::Empty { name, attributes, .. } => is_name(name) && are_attributes(attributes),
            Piece::Close(name) => is_name(name),
            Piece::Text(text) => is_plain(text),
            Piece::Reference(name) => is_name(name),
        }
    }

    /// The tags that are open behind the piece, `None` where it closes another tag
    /// than the one opened last.
    pub open spec fn nest(self, open: Seq<Seq<char>>) -> Option<Seq<Seq<char>>> {
        match self {
            Piece::Open { name, .. } => Some(open.push(name)),
            Piece::Close(name) => if open.len() > 0 && open.last() == name {
                Some(open.drop_last())
            } else {
                None
            },
            _ => Some(open),
        }
    }
}

/// The text that pieces make up.
pub open spec fn written(pieces: Seq<Piece>) -> Seq<char>
    decreases pieces.len(),
{
    if pieces.len() == 0 {
        Seq::empty()
    } else {
        written(pieces.drop_last()) + pieces.last().text()
    }
}

/// The events of pieces.
pub open spec fn items(pieces: Seq<Piece>) -> Seq<Result<XmlItem, Seq<char>>> {
    Seq::new(pieces.len(), |i: int| Ok(pieces[i].item()))
}

/// The tags that are open behind pieces.
pub open spec fn nested(open: Seq<Seq<char>>, pieces: Seq<Piece>) -> Option<Seq<Seq<char>>>
    decreases pieces.len(),
{
    if pieces.len() == 0 {
        Some(open)
    } else {
        match nested(open, pieces.drop_last()) {
            Some(inner) => pieces.last().nest(inner),
            None => None,
        }
    }
}

/// No text stands next to other text.
pub open spec fn are_apart(pieces: Seq<Piece>) -> bool {
    forall|i: int, j: int|
        0 <= i < pieces.len() && j == i + 1 && j < pieces.len() ==> !(#[trigger] pieces[i] is Text
            && #[trigger] pieces[j] is Text)
}

/// The pieces make up a document: every piece is sound, the document starts with
/// markup, no text stands next to other text, and tags are closed in their order.
pub open spec fn is_document(pieces: Seq<Piece>) -> bool {
    &&& forall|i: int| 0 <= i < pieces.len() ==> (#[trigger] pieces[i]).is_sound()
    &&& are_apart(pieces)
    &&& pieces.len() > 0 && !(pieces[0] is Text)
    &&& nested(Seq::empty(), pieces) is Some
}

/// Pieces that can stand anywhere between other ones: they start and end with
/// markup and close every tag that they open.
pub open spec fn is_block(pieces: Seq<Piece>) -> bool {
    &&& forall|i: int| 0 <= i < pieces.len() ==> (#[trigger] pieces[i]).is_sound()
    &&& are_apart(pieces)
    &&& pieces.len() > 0 ==> !(pieces[0] is Text) && !(pieces.last() is Text)
    &&& forall|open: Seq<Seq<char>>| #[trigger] nested(open, pieces) == Some(open)
}

/// The pieces of an element.
pub open spec fn element(name: Seq<char>, attributes: Seq<Attr>, inner: Seq<Piece>) -> Seq<Piece> {
    seq![Piece::Open { name, attributes }] + inner + seq![Piece::Close(name)]
}

pub proof fn lemma_written_concat(a: Seq<Piece>, b: Seq<Piece>)
    ensures
        written(a + b) == written(a) + written(b),
    decreases b.len(),
{
    if b.len() == 0 {
        assert(a + b =~= a);
        assert(written(a) + written(b) =~= written(a));
    } else {
        lemma_written_concat(a, b.drop_last());
        assert((a + b).drop_last() =~= a + b.drop_last());
        assert((a + b).last() == b.last());
        assert(written(a + b) =~= written(a) + written(b));
    }
}

pub proof fn lemma_written_one(piece: Piece)
    ensures
        written(seq![piece]) == piece.text(),
{
    assert(seq![piece].drop_last() =~= Seq::<Piece>::empty());
    assert(written(Seq::<Piece>::empty()) =~= Seq::<char>::empty());
    assert(written(seq![piece]) =~= piece.text());
}

/// The text of an element.
pub proof fn lemma_element_text(name: Seq<char>, attributes: Seq<Attr>, inner: Seq<Piece>)
    ensures
        written(element(name, attributes, inner)) == (Piece::Open { name, attributes }).text()
            + written(inner) + Piece::Close(name).text(),
{
    let open = Piece::Open { name, attributes };
    lemma_written_concat(seq![open], inner);
    lemma_written_concat(seq![open] + inner, seq![Piece::Close(name)]);
    lemma_written_one(open);
    lemma_written_one(Piece::Close(name));
}

pub proof fn lemma_nested_concat(open: Seq<Seq<char>>, a: Seq<Piece>, b: Seq<Piece>)
    ensures
        nested(open, a + b) == match nested(open, a) {
            Some(inner) => nested(inner, b),
            None => None,
        },
    decreases b.len(),
{
    if b.len() == 0 {
        assert(a + b =~= a);
    } else {
        lemma_nested_concat(open, a, b.drop_last());
        assert((a + b).drop_last() =~= a + b.drop_last());
        assert((a + b).last() == b.last());
    }
}

pub proof fn lemma_nested_one(open: Seq<Seq<char>>, piece: Piece)
    ensures
        nested(open, seq![piece]) == piece.nest(open),
{
    assert(seq![piece].drop_last() =~= Seq::<Piece>::empty());
    assert(nested(open, Seq::<Piece>::empty()) == Some(open));
}

/// Blocks in a row are a block.
pub proof fn lemma_block_concat(a: Seq<Piece>, b: Seq<Piece>)
    requires
        is_block(a),
        is_block(b),
    ensures
        is_block(a + b),
{
    let all = a + b;
    assert forall|i: int| 0 <= i < all.len() implies (#[trigger] all[i]).is_sound() by {
        if i < a.len() {
            assert(all[i] == a[i]);
        } else {
            assert(all[i] == b[i - a.len()]);
        }
    }
    assert forall|i: int, j: int|
        0 <= i < all.len() && j == i + 1 && j < all.len() implies !(#[trigger] all[i] is Text
        && #[trigger] all[j] is Text) by {
        if j < a.len() {
            assert(all[i] == a[i] && all[j] == a[j]);
        } else if i >= a.len() {
            assert(all[i] == b[i - a.len()] && all[j] == b[j - a.len()]);
        } else {
            assert(all[i] == a.last());
        }
    }
    assert forall|open: Seq<Seq<char>>| #[trigger] nested(open, all) == Some(open) by {
        lemma_nested_concat(open, a, b);
        assert(nested(open, a) == Some(open));
        assert(nested(open, b) == Some(open));
    }
    if all.len() > 0 {
        if a.len() > 0 {
            assert(all[0] == a[0]);
        } else {
            assert(all[0] == b[0]);
        }
        if b.len() > 0 {
            assert(all.last() == b.last());
        } else {
            assert(all.last() == a.last());
        }
    }
}

/// A sound piece that opens and closes nothing and is no text is a block.
pub proof fn lemma_block_one(piece: Piece)
    requires
        piece.is_sound(),
        piece is Declaration || piece is Empty || piece is Reference,
    ensures
        is_block(seq![piece]),
{
    assert forall|open: Seq<Seq<char>>| #[trigger] nested(open, seq![piece]) == Some(open) by {
        lemma_nested_one(open, piece);
    }
}

pub proof fn lemma_block_none()
    ensures
        is_block(Seq::empty()),
{
    assert forall|open: Seq<Seq<char>>| #[trigger]
        nested(open, Seq::<Piece>::empty()) == Some(open) by {}
}

/// An element with sound tags around pieces that are apart and close what they
/// open is a block.
pub proof fn lemma_block_element(name: Seq<char>, attributes: Seq<Attr>, inner: Seq<Piece>)
    requires
        is_name(name),
        are_attributes(attributes),
        forall|i: int| 0 <= i < inner.len() ==> (#[trigger] inner[i]).is_sound(),
        are_apart(inner),
        forall|open: Seq<Seq<char>>| #[trigger] nested(open, inner) == Some(open),
    ensures
        is_block(element(name, attributes, inner)),
{
    let first = Piece::Open { name, attributes };
    let last = Piece::Close(name);
    let all = element(name, attributes, inner);
    assert forall|i: int| 0 <= i < all.len() implies (#[trigger] all[i]).is_sound() by {
        if i == 0 {
            assert(all[i] == first);
        } else if i <= inner.len() {
            assert(all[i] == inner[i - 1]);
        } else {
            assert(all[i] == last);
        }
    }
    assert forall|i: int, j: int|
        0 <= i < all.len() && j == i + 1 && j < all.len() implies !(#[trigger] all[i] is Text
        && #[trigger] all[j] is Text) by {
        if i == 0 {
            assert(all[i] == first);
        } else if j <= inner.len() {
            assert(all[i] == inner[i - 1] && all[j] == inner[j - 1]);
        } else {
            assert(all[j] == last);
        }
    }
    assert forall|open: Seq<Seq<char>>| #[trigger] nested(open, all) == Some(open) by {
        lemma_nested_one(open, first);
        lemma_nested_concat(open, seq![first], inner);
        lemma_nested_concat(open, seq![first] + inner, seq![last]);
        let within = open.push(name);
        assert(nested(within, inner) == Some(within));
        lemma_nested_one(within, last);
        assert(within.drop_last() =~= open);
    }
}

/// A text alone is apart from other text and opens nothing.
pub proof fn lemma_text_alone(text: Seq<char>)
    requires
        is_plain(text),
    ensures
        forall|i: int| 0 <= i < 1 ==> (#[trigger] seq![Piece::Text(text)][i]).is_sound(),
        are_apart(seq![Piece::Text(text)]),
        forall|open: Seq<Seq<char>>| #[trigger]
            nested(open, seq![Piece::Text(text)]) == Some(open),
{
    assert forall|open: Seq<Seq<char>>| #[trigger]
        nested(open, seq![Piece::Text(text)]) == Some(open) by {
        lemma_nested_one(open, Piece::Text(text));
    }
}

/// A block that is not empty is a document.
pub proof fn lemma_block_document(pieces: Seq<Piece>)
    requires
        is_block(pieces),
        pieces.len() > 0,
    ensures
        is_document(pieces),
{
    assert(nested(Seq::empty(), pieces) == Some(Seq::<Seq<char>>::empty()));
}

/// The events of pieces in a row.
pub proof fn lemma_items_concat(a: Seq<Piece>, b: Seq<Piece>)
    ensures
        items(a + b) == items(a) + items(b),
{
    assert(items(a + b) =~= items(a) + items(b));
}

proof fn lemma_letter_byte(name: Seq<char>, i: int)
    requires
        is_name(name),
        0 <= i < name.len(),
    ensures
        vstd::utf8::is_ascii_chars(name),
        vstd::utf8::encode_utf8(name).len() == name.len(),
        !crate::xml_events::is_blank(vstd::utf8::encode_utf8(name)[i]),
        vstd::utf8::encode_utf8(name)[i] != 0x3a,
{
    assert forall|k: int| 0 <= k < name.len() implies '\0' <= #[trigger] name[k] <= '\u{7f}' by {
        assert(is_letter(name[k]));
    }
    vstd::utf8::is_ascii_chars_encode_utf8(name);
    assert(is_letter(name[i]));
    assert(name[i] as u8 == vstd::utf8::encode_utf8(name)[i]);
    assert(name[i] as u32 >= 65);
}

proof fn lemma_no_colon(bytes: Seq<u8>, from: int)
    requires
        0 <= from,
        forall|i: int| 0 <= i < bytes.len() ==> #[trigger] bytes[i] != 0x3a,
    ensures
        crate::xml_events::behind_colon(bytes, from) == 0,
    decreases bytes.len() - from,
{
    if from < bytes.len() {
        lemma_no_colon(bytes, from + 1);
    }
}

proof fn lemma_name_ends(content: Seq<u8>, len: int, from: int)
    requires
        0 <= from <= len <= content.len(),
        forall|i: int| 0 <= i < len ==> !crate::xml_events::is_blank(#[trigger] content[i]),
        len < content.len() ==> content[len] == 0x20,
    ensures
        crate::xml_events::name_end(content, from) == len,
    decreases len - from,
{
    if from < len {
        lemma_name_ends(content, len, from + 1);
    }
}

/// Texts with the same bytes are the same.
pub proof fn lemma_same_bytes(a: Seq<char>, b: Seq<char>)
    ensures
        (vstd::utf8::encode_utf8(a) == vstd::utf8::encode_utf8(b)) == (a == b),
{
    vstd::utf8::encode_utf8_decode_utf8(a);
    vstd::utf8::encode_utf8_decode_utf8(b);
}

proof fn lemma_tag_content(name: Seq<char>, rest: Seq<char>)
    requires
        is_name(name),
        rest.len() > 0 ==> rest[0] == ' ',
    ensures
        ({
            let content = vstd::utf8::encode_utf8(name + rest);
            crate::xml_events::local_part(
                content.take(crate::xml_events::name_end(content, 0)),
            ) == vstd::utf8::encode_utf8(name)
        }),
{
    let bytes = vstd::utf8::encode_utf8(name);
    let content = vstd::utf8::encode_utf8(name + rest);
    crate::xlsx_laws::lemma_encode_concat(name, rest);
    assert forall|i: int| 0 <= i < name.len() implies !crate::xml_events::is_blank(
        #[trigger] content[i],
    ) by {
        lemma_letter_byte(name, i);
    }
    lemma_letter_byte(name, 0);
    if rest.len() > 0 {
        let more = vstd::utf8::encode_utf8(rest);
        assert(more[0] == 0x20) by {
            assert(vstd::utf8::has_width_1_encoding(0x20));
            assert(vstd::utf8::leading_byte_width_1(0x20) == 0x20) by (bit_vector);
        }
    }
    lemma_name_ends(content, name.len() as int, 0);
    assert(content.take(name.len() as int) =~= bytes);
    lemma_local_name(name);
}

pub proof fn lemma_local_name(name: Seq<char>)
    requires
        is_name(name),
    ensures
        crate::xml_events::local_part(vstd::utf8::encode_utf8(name)) == vstd::utf8::encode_utf8(
            name,
        ),
{
    let bytes = vstd::utf8::encode_utf8(name);
    lemma_letter_byte(name, 0);
    assert forall|i: int| 0 <= i < bytes.len() implies #[trigger] bytes[i] != 0x3a by {
        lemma_letter_byte(name, i);
    }
    lemma_no_colon(bytes, 0);
    assert(bytes.skip(0) =~= bytes);
}

proof fn lemma_attributes_start(list: Seq<Attr>)
    ensures
        attributes_text(list).len() > 0 ==> attributes_text(list)[0] == ' ',
        list.len() == 0 ==> attributes_text(list).len() == 0,
    decreases list.len(),
{
    if list.len() > 0 {
        lemma_attributes_start(list.drop_last());
        reveal_strlit(" ");
        assert(attribute_text(list.last())[0] == ' ');
    }
}

/// A tag of a sound piece has the name that the piece says.
pub proof fn lemma_piece_tag(piece: Piece, kind: XmlKind, name: Seq<char>)
    requires
        piece.is_sound(),
        kind == XmlKind::Start || kind == XmlKind::Empty || kind == XmlKind::End,
    ensures
        piece.item().is_tag(kind, name) == match piece {
            Piece::Open { name: n, .. } => kind == XmlKind::Start && n == name,
            Piece::Empty { name: n, .. } => kind == XmlKind::Empty && n == name,
            Piece::Close(n) => kind == XmlKind::End && n == name,
            _ => false,
        },
{
    match piece {
        Piece::Open { name: n, attributes } => {
            lemma_attributes_start(attributes);
            lemma_tag_content(n, attributes_text(attributes));
            lemma_same_bytes(n, name);
        },
        Piece::Empty { name: n, attributes, spaced } => {
            lemma_attributes_start(attributes);
            let rest = attributes_text(attributes) + if spaced {
                " "@
            } else {
                Seq::empty()
            };
            reveal_strlit(" ");
            assert(n + attributes_text(attributes) + (if spaced {
                " "@
            } else {
                Seq::empty()
            }) =~= n + rest);
            lemma_tag_content(n, rest);
            lemma_same_bytes(n, name);
        },
        Piece::Close(n) => {
            lemma_local_name(n);
            lemma_same_bytes(n, name);
        },
        _ => {},
    }
}

} // verus!
