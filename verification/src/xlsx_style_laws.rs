//! What the XLSX reader makes of the style sheets that the XLSX writer makes.

use vstd::prelude::*;
use crate::formats::Plain;
use crate::markup::{Attr, Piece};
use crate::number::Number;
use crate::xlsb_reader::BookInfo;
use crate::xlsx_read_laws::Doubles;
use crate::xml_documents::StyleScan;
use crate::xml_events::{XmlAttribute, XmlItem, XmlKind};

verus! {

/// A document that is being looked at: its pieces so far, the tags that are open
/// behind them, and what they say of styles.
pub struct Track {
    pub pieces: Seq<Piece>,
    pub stack: Seq<Seq<char>>,
    pub scan: StyleScan,
}

impl Track {
    #[verifier::opaque]
    pub open spec fn wf(self) -> bool {
        &&& forall|i: int| 0 <= i < self.pieces.len() ==> (#[trigger] self.pieces[i]).is_sound()
        &&& crate::markup::are_apart(self.pieces)
        &&& self.pieces.len() > 0 && !(self.pieces[0] is Text)
        &&& crate::markup::nested(Seq::empty(), self.pieces) == Some(self.stack)
        &&& crate::xml_documents::no_styles().run(crate::markup::items(self.pieces)) == self.scan
    }

    /// The last piece is no text.
    pub open spec fn ends_in_markup(self) -> bool {
        !(self.pieces.last() is Text)
    }
}

proof fn lemma_run_push(scan: StyleScan, pieces: Seq<Piece>, piece: Piece)
    ensures
        scan.run(crate::markup::items(pieces.push(piece))) == scan.run(
            crate::markup::items(pieces),
        ).step(piece.item()),
    decreases pieces.len(),
{
    let all = crate::markup::items(pieces.push(piece));
    if pieces.len() == 0 {
        assert(all.skip(1) =~= Seq::<Result<XmlItem, Seq<char>>>::empty());
        assert(all[0] == Ok::<XmlItem, Seq<char>>(piece.item()));
        let next = scan.step(piece.item());
        assert(next.run(Seq::empty()) == next);
        assert(crate::markup::items(pieces) =~= Seq::<Result<XmlItem, Seq<char>>>::empty());
    } else {
        let rest = pieces.skip(1);
        assert(all.skip(1) =~= crate::markup::items(rest.push(piece)));
        assert(crate::markup::items(pieces).skip(1) =~= crate::markup::items(rest));
        assert(all[0] == Ok::<XmlItem, Seq<char>>(pieces[0].item()));
        lemma_run_push(scan.step(pieces[0].item()), rest, piece);
    }
}

/// One more piece.
proof fn lemma_piece(t: Track, piece: Piece) -> (after: Track)
    requires
        t.wf(),
        piece.is_sound(),
        piece is Text ==> t.ends_in_markup(),
        piece.nest(t.stack) is Some,
    ensures
        after.wf(),
        after == (Track {
            pieces: t.pieces.push(piece),
            stack: piece.nest(t.stack)->0,
            scan: t.scan.step(piece.item()),
        }),
{
    reveal(Track::wf);
    let all = t.pieces.push(piece);
    assert(all.drop_last() =~= t.pieces);
    lemma_run_push(crate::xml_documents::no_styles(), t.pieces, piece);
    assert forall|i: int, j: int|
        0 <= i < all.len() && j == i + 1 && j < all.len() implies !(#[trigger] all[i] is Text
        && #[trigger] all[j] is Text) by {
        if j < t.pieces.len() {
            assert(all[i] == t.pieces[i] && all[j] == t.pieces[j]);
        } else {
            assert(all[i] == t.pieces.last());
        }
    }
    Track {
        pieces: all,
        stack: piece.nest(t.stack)->0,
        scan: t.scan.step(piece.item()),
    }
}

/// The name of a tag that says nothing of cell styles.
pub open spec fn is_other(name: Seq<char>) -> bool {
    &&& crate::markup::is_name(name)
    &&& name != "numFmt"@
    &&& name != "cellXfs"@
    &&& name != "xf"@
}

proof fn lemma_open(t: Track, name: Seq<char>, attributes: Seq<Attr>) -> (after: Track)
    requires
        t.wf(),
        is_other(name),
        crate::markup::are_attributes(attributes),
    ensures
        after.wf(),
        after.ends_in_markup(),
        after == (Track {
            pieces: crate::xlsx_style_part::with_open(t.pieces, name, attributes),
            stack: t.stack.push(name),
            scan: t.scan,
        }),
{
    let piece = Piece::Open { name, attributes };
    crate::markup::lemma_piece_tag(piece, XmlKind::Start, "numFmt"@);
    crate::markup::lemma_piece_tag(piece, XmlKind::Start, "cellXfs"@);
    crate::markup::lemma_piece_tag(piece, XmlKind::Start, "xf"@);
    lemma_piece(t, piece)
}

proof fn lemma_empty(t: Track, name: Seq<char>, attributes: Seq<Attr>) -> (after: Track)
    requires
        t.wf(),
        is_other(name),
        crate::markup::are_attributes(attributes),
    ensures
        after.wf(),
        after.ends_in_markup(),
        after == (Track {
            pieces: crate::xlsx_style_part::with_empty(t.pieces, name, attributes),
            ..t
        }),
{
    let piece = Piece::Empty { name, attributes, spaced: false };
    crate::markup::lemma_piece_tag(piece, XmlKind::Empty, "numFmt"@);
    crate::markup::lemma_piece_tag(piece, XmlKind::Empty, "cellXfs"@);
    crate::markup::lemma_piece_tag(piece, XmlKind::Empty, "xf"@);
    lemma_piece(t, piece)
}

proof fn lemma_close(t: Track, outer: Seq<Seq<char>>, name: Seq<char>) -> (after: Track)
    requires
        t.wf(),
        is_other(name),
        t.stack == outer.push(name),
    ensures
        after.wf(),
        after.ends_in_markup(),
        after == (Track {
            pieces: crate::xlsx_style_part::with_close(t.pieces, name),
            stack: outer,
            scan: t.scan,
        }),
{
    let piece = Piece::Close(name);
    crate::markup::lemma_piece_tag(piece, XmlKind::End, "cellXfs"@);
    assert(outer.push(name).drop_last() =~= outer);
    lemma_piece(t, piece)
}

proof fn lemma_break(t: Track) -> (after: Track)
    requires
        t.wf(),
        t.ends_in_markup(),
    ensures
        after.wf(),
        after == (Track { pieces: crate::xlsx_style_part::with_break(t.pieces), ..t }),
{
    reveal_strlit("\n");
    lemma_piece(t, Piece::Text("\n"@))
}

/// One attribute can stand in a tag.
proof fn lemma_alone(key: Seq<char>, value: Seq<char>)
    requires
        crate::markup::is_key(key),
        crate::markup::is_value(value),
    ensures
        crate::markup::are_attributes(crate::xlsx_style_part::alone(key, value)),
{
    crate::xlsx_markup::lemma_one_attribute(Attr { key, value });
}

pub proof fn lemma_special_names()
    ensures
        crate::markup::is_name("numFmt"@),
        crate::markup::is_name("cellXfs"@),
        crate::markup::is_name("xf"@),
        "numFmt"@.len() == 6,
        "cellXfs"@.len() == 7,
        "xf"@.len() == 2,
        "numFmt"@[0] == 'n',
        "cellXfs"@[0] == 'c',
        "xf"@[0] == 'x',
{
    reveal_strlit("numFmt");
    reveal_strlit("cellXfs");
    reveal_strlit("xf");
}

proof fn lemma_font_names()
    ensures
        is_other("font"@),
        is_other("b"@),
        is_other("sz"@),
        is_other("color"@),
        is_other("name"@),
        is_other("family"@),
        is_other("scheme"@),
        is_other("fonts"@),
{
    lemma_special_names();
    reveal_strlit("font");
    reveal_strlit("b");
    reveal_strlit("sz");
    reveal_strlit("color");
    reveal_strlit("name");
    reveal_strlit("family");
    reveal_strlit("scheme");
    reveal_strlit("fonts");
    assert("font"@.len() != "numFmt"@.len());
    assert("font"@.len() != "cellXfs"@.len());
    assert("font"@.len() != "xf"@.len());
    assert("b"@.len() != "numFmt"@.len());
    assert("b"@.len() != "cellXfs"@.len());
    assert("b"@.len() != "xf"@.len());
    assert("sz"@.len() != "numFmt"@.len());
    assert("sz"@.len() != "cellXfs"@.len());
    assert("sz"@[0] != "xf"@[0]);
    assert("color"@.len() != "numFmt"@.len());
    assert("color"@.len() != "cellXfs"@.len());
    assert("color"@.len() != "xf"@.len());
    assert("name"@.len() != "numFmt"@.len());
    assert("name"@.len() != "cellXfs"@.len());
    assert("name"@.len() != "xf"@.len());
    assert("family"@[0] != "numFmt"@[0]);
    assert("family"@.len() != "cellXfs"@.len());
    assert("family"@.len() != "xf"@.len());
    assert("scheme"@[0] != "numFmt"@[0]);
    assert("scheme"@.len() != "cellXfs"@.len());
    assert("scheme"@.len() != "xf"@.len());
    assert("fonts"@.len() != "numFmt"@.len());
    assert("fonts"@.len() != "cellXfs"@.len());
    assert("fonts"@.len() != "xf"@.len());
}

proof fn lemma_fill_names()
    ensures
        is_other("fill"@),
        is_other("patternFill"@),
        is_other("fills"@),
{
    lemma_special_names();
    reveal_strlit("fill");
    reveal_strlit("patternFill");
    reveal_strlit("fills");
    assert("fill"@.len() != "numFmt"@.len());
    assert("fill"@.len() != "cellXfs"@.len());
    assert("fill"@.len() != "xf"@.len());
    assert("patternFill"@.len() != "numFmt"@.len());
    assert("patternFill"@.len() != "cellXfs"@.len());
    assert("patternFill"@.len() != "xf"@.len());
    assert("fills"@.len() != "numFmt"@.len());
    assert("fills"@.len() != "cellXfs"@.len());
    assert("fills"@.len() != "xf"@.len());
}

proof fn lemma_border_names()
    ensures
        is_other("borders"@),
        is_other("border"@),
        is_other("left"@),
        is_other("right"@),
        is_other("top"@),
        is_other("bottom"@),
        is_other("diagonal"@),
{
    lemma_special_names();
    reveal_strlit("borders");
    reveal_strlit("border");
    reveal_strlit("left");
    reveal_strlit("right");
    reveal_strlit("top");
    reveal_strlit("bottom");
    reveal_strlit("diagonal");
    assert("borders"@.len() != "numFmt"@.len());
    assert("borders"@[0] != "cellXfs"@[0]);
    assert("borders"@.len() != "xf"@.len());
    assert("border"@[0] != "numFmt"@[0]);
    assert("border"@.len() != "cellXfs"@.len());
    assert("border"@.len() != "xf"@.len());
    assert("left"@.len() != "numFmt"@.len());
    assert("left"@.len() != "cellXfs"@.len());
    assert("left"@.len() != "xf"@.len());
    assert("right"@.len() != "numFmt"@.len());
    assert("right"@.len() != "cellXfs"@.len());
    assert("right"@.len() != "xf"@.len());
    assert("top"@.len() != "numFmt"@.len());
    assert("top"@.len() != "cellXfs"@.len());
    assert("top"@.len() != "xf"@.len());
    assert("bottom"@[0] != "numFmt"@[0]);
    assert("bottom"@.len() != "cellXfs"@.len());
    assert("bottom"@.len() != "xf"@.len());
    assert("diagonal"@.len() != "numFmt"@.len());
    assert("diagonal"@.len() != "cellXfs"@.len());
    assert("diagonal"@.len() != "xf"@.len());
}

proof fn lemma_rest_names()
    ensures
        is_other("cellStyleXfs"@),
        is_other("cellStyles"@),
        is_other("cellStyle"@),
        is_other("dxfs"@),
        is_other("tableStyles"@),
        is_other("numFmts"@),
        is_other("styleSheet"@),
{
    lemma_special_names();
    reveal_strlit("cellStyleXfs");
    reveal_strlit("cellStyles");
    reveal_strlit("cellStyle");
    reveal_strlit("dxfs");
    reveal_strlit("tableStyles");
    reveal_strlit("numFmts");
    reveal_strlit("styleSheet");
    assert("cellStyleXfs"@.len() != "numFmt"@.len());
    assert("cellStyleXfs"@.len() != "cellXfs"@.len());
    assert("cellStyleXfs"@.len() != "xf"@.len());
    assert("cellStyles"@.len() != "numFmt"@.len());
    assert("cellStyles"@.len() != "cellXfs"@.len());
    assert("cellStyles"@.len() != "xf"@.len());
    assert("cellStyle"@.len() != "numFmt"@.len());
    assert("cellStyle"@.len() != "cellXfs"@.len());
    assert("cellStyle"@.len() != "xf"@.len());
    assert("dxfs"@.len() != "numFmt"@.len());
    assert("dxfs"@.len() != "cellXfs"@.len());
    assert("dxfs"@.len() != "xf"@.len());
    assert("tableStyles"@.len() != "numFmt"@.len());
    assert("tableStyles"@.len() != "cellXfs"@.len());
    assert("tableStyles"@.len() != "xf"@.len());
    assert("numFmts"@.len() != "numFmt"@.len());
    assert("numFmts"@[0] != "cellXfs"@[0]);
    assert("numFmts"@.len() != "xf"@.len());
    assert("styleSheet"@.len() != "numFmt"@.len());
    assert("styleSheet"@.len() != "cellXfs"@.len());
    assert("styleSheet"@.len() != "xf"@.len());
}

/// A font says nothing of cell styles.
proof fn lemma_font(t: Track, bold: bool) -> (after: Track)
    requires
        t.wf(),
    ensures
        after.wf(),
        after == (Track {
            pieces: crate::xlsx_style_part::with_font(t.pieces, bold),
            ..t
        }),
{
    lemma_font_names();
    crate::xlsx_markup::lemma_no_attributes();
    reveal_strlit("val");
    reveal_strlit("11");
    reveal_strlit("theme");
    reveal_strlit("1");
    reveal_strlit("Calibri");
    reveal_strlit("2");
    reveal_strlit("minor");
    lemma_alone("val"@, "11"@);
    lemma_alone("theme"@, "1"@);
    lemma_alone("val"@, "Calibri"@);
    lemma_alone("val"@, "2"@);
    lemma_alone("val"@, "minor"@);
    let t1 = lemma_open(t, "font"@, Seq::empty());
    let t2 = if bold {
        lemma_empty(t1, "b"@, Seq::empty())
    } else {
        t1
    };
    let t3 = lemma_empty(
        t2,
        "sz"@,
        crate::xlsx_style_part::alone("val"@, "11"@),
    );
    let t4 = lemma_empty(
        t3,
        "color"@,
        crate::xlsx_style_part::alone("theme"@, "1"@),
    );
    let t5 = lemma_empty(
        t4,
        "name"@,
        crate::xlsx_style_part::alone("val"@, "Calibri"@),
    );
    let t6 = lemma_empty(
        t5,
        "family"@,
        crate::xlsx_style_part::alone("val"@, "2"@),
    );
    let t7 = lemma_empty(
        t6,
        "scheme"@,
        crate::xlsx_style_part::alone("val"@, "minor"@),
    );
    let t8 = lemma_close(t7, t.stack, "font"@);
    let t9 = lemma_break(t8);
    t9
}

/// The fonts say nothing of cell styles.
proof fn lemma_fonts(t: Track) -> (after: Track)
    requires
        t.wf(),
    ensures
        after.wf(),
        after == (Track {
            pieces: crate::xlsx_style_part::with_fonts(t.pieces),
            ..t
        }),
{
    lemma_font_names();
    crate::xlsx_markup::lemma_no_attributes();
    reveal_strlit("count");
    reveal_strlit("2");
    lemma_alone("count"@, "2"@);
    let t1 = lemma_open(
        t,
        "fonts"@,
        crate::xlsx_style_part::alone("count"@, "2"@),
    );
    let t2 = lemma_break(t1);
    let t3 = lemma_font(t2, false);
    let t4 = lemma_font(t3, true);
    let t5 = lemma_close(t4, t.stack, "fonts"@);
    let t6 = lemma_break(t5);
    t6
}

/// A fill says nothing of cell styles.
proof fn lemma_fill(t: Track, kind: Seq<char>) -> (after: Track)
    requires
        t.wf(),
        crate::markup::is_value(kind),
    ensures
        after.wf(),
        after == (Track { pieces: crate::xlsx_style_part::with_fill(t.pieces, kind), ..t }),
{
    lemma_fill_names();
    crate::xlsx_markup::lemma_no_attributes();
    reveal_strlit("patternType");
    lemma_alone("patternType"@, kind);
    let t1 = lemma_open(t, "fill"@, Seq::empty());
    let t2 = lemma_empty(
        t1,
        "patternFill"@,
        crate::xlsx_style_part::alone("patternType"@, kind),
    );
    let t3 = lemma_close(t2, t.stack, "fill"@);
    lemma_break(t3)
}

/// The fills say nothing of cell styles.
proof fn lemma_fills(t: Track) -> (after: Track)
    requires
        t.wf(),
    ensures
        after.wf(),
        after == (Track {
            pieces: crate::xlsx_style_part::with_fills(t.pieces),
            ..t
        }),
{
    lemma_fill_names();
    crate::xlsx_markup::lemma_no_attributes();
    reveal_strlit("count");
    reveal_strlit("2");
    lemma_alone("count"@, "2"@);
    reveal_strlit("none");
    reveal_strlit("gray125");
    let t1 = lemma_open(
        t,
        "fills"@,
        crate::xlsx_style_part::alone("count"@, "2"@),
    );
    let t2 = lemma_break(t1);
    let t3 = lemma_fill(t2, "none"@);
    let t4 = lemma_fill(t3, "gray125"@);
    let t5 = lemma_close(t4, t.stack, "fills"@);
    let t6 = lemma_break(t5);
    t6
}

/// The borders say nothing of cell styles.
proof fn lemma_borders(t: Track) -> (after: Track)
    requires
        t.wf(),
    ensures
        after.wf(),
        after == (Track {
            pieces: crate::xlsx_style_part::with_borders(t.pieces),
            ..t
        }),
{
    lemma_border_names();
    crate::xlsx_markup::lemma_no_attributes();
    reveal_strlit("count");
    reveal_strlit("1");
    lemma_alone("count"@, "1"@);
    let t1 = lemma_open(
        t,
        "borders"@,
        crate::xlsx_style_part::alone("count"@, "1"@),
    );
    let t2 = lemma_break(t1);
    let t3 = lemma_open(t2, "border"@, Seq::empty());
    let t4 = lemma_empty(t3, "left"@, Seq::empty());
    let t5 = lemma_empty(t4, "right"@, Seq::empty());
    let t6 = lemma_empty(t5, "top"@, Seq::empty());
    let t7 = lemma_empty(t6, "bottom"@, Seq::empty());
    let t8 = lemma_empty(t7, "diagonal"@, Seq::empty());
    let t9 = lemma_close(t8, t2.stack, "border"@);
    let t10 = lemma_break(t9);
    let t11 = lemma_close(t10, t.stack, "borders"@);
    let t12 = lemma_break(t11);
    t12
}

proof fn lemma_style_keys()
    ensures
        crate::markup::is_key("numFmtId"@),
        crate::markup::is_key("fontId"@),
        crate::markup::is_key("fillId"@),
        crate::markup::is_key("borderId"@),
        crate::markup::is_key("xfId"@),
        crate::markup::is_key("applyNumberFormat"@),
        crate::markup::is_key("applyFont"@),
        crate::markup::is_value("0"@),
        crate::markup::is_value("1"@),
        "numFmtId"@.len() == 8,
        "fontId"@.len() == 6,
        "fillId"@.len() == 6,
        "borderId"@.len() == 8,
        "xfId"@.len() == 4,
        "applyNumberFormat"@.len() == 17,
        "applyFont"@.len() == 9,
        "numFmtId"@ != "borderId"@,
        "fontId"@ != "fillId"@,
{
    reveal_strlit("numFmtId");
    reveal_strlit("fontId");
    reveal_strlit("fillId");
    reveal_strlit("borderId");
    reveal_strlit("xfId");
    reveal_strlit("applyNumberFormat");
    reveal_strlit("applyFont");
    reveal_strlit("0");
    reveal_strlit("1");
    assert("numFmtId"@[0] != "borderId"@[0]);
    assert("fontId"@[1] != "fillId"@[1]);
}

/// The attributes of a style that all styles have.
proof fn lemma_style_base(format: int, font: Seq<char>)
    requires
        crate::markup::is_value(font),
    ensures
        crate::markup::are_attributes(crate::xlsx_style_part::style_base(format, font)),
{
    lemma_style_keys();
    crate::xlsx_markup::lemma_decimal_is_plain(format);
    let a = Attr { key: "numFmtId"@, value: crate::text::decimal(format) };
    let b = Attr { key: "fontId"@, value: font };
    let c = Attr { key: "fillId"@, value: "0"@ };
    let d = Attr { key: "borderId"@, value: "0"@ };
    let one = Seq::<Attr>::empty().push(a);
    let two = one.push(b);
    let three = two.push(c);
    crate::xlsx_markup::lemma_one_attribute(a);
    crate::xlsx_markup::lemma_attribute_more(one, b);
    crate::xlsx_markup::lemma_attribute_more(two, c);
    crate::xlsx_markup::lemma_attribute_more(three, d);
}

/// What a cell style may apply.
pub open spec fn is_applied(key: Seq<char>) -> bool {
    key == "applyNumberFormat"@ || key == "applyFont"@
}

proof fn lemma_style_attributes(format: int, font: Seq<char>, applies: Seq<char>)
    requires
        crate::markup::is_value(font),
        is_applied(applies),
    ensures
        crate::markup::are_attributes(crate::xlsx_style_part::style_attributes(format, font)),
        crate::markup::are_attributes(
            crate::xlsx_style_part::style_attributes(format, font).push(
                Attr { key: applies, value: "1"@ },
            ),
        ),
{
    lemma_style_keys();
    lemma_style_base(format, font);
    let base = crate::xlsx_style_part::style_base(format, font);
    let a = Attr { key: "xfId"@, value: "0"@ };
    crate::xlsx_markup::lemma_attribute_more(base, a);
    crate::xlsx_markup::lemma_attribute_more(base.push(a), Attr { key: applies, value: "1"@ });
}

/// The decimal digits of a number stand for it.
pub proof fn lemma_digits_radix(n: nat)
    ensures
        crate::xml_utils::radix_value(crate::text::digits(n), 10) == Some(n),
    decreases n,
{
    let all = crate::text::digits(n);
    if n < 10 {
        assert(all.drop_last() =~= Seq::<char>::empty());
        assert(crate::xml_utils::radix_value(all.drop_last(), 10) == Some(0nat));
    } else {
        lemma_digits_radix(n / 10);
        assert(all.drop_last() =~= crate::text::digits(n / 10));
    }
}

/// The id of a number format reads back.
proof fn lemma_format_number(n: int)
    requires
        0 <= n <= 0xffff,
    ensures
        crate::xml_documents::format_number(crate::text::decimal(n)) == Some(n as u16),
        crate::xml_documents::raw_format_number(
            vstd::utf8::encode_utf8(crate::text::decimal(n)),
        ) == Some(n as u16),
{
    let text = crate::text::decimal(n);
    crate::text::lemma_digits(n as nat);
    lemma_digits_radix(n as nat);
    assert(crate::text::is_digit(text[0]));
    vstd::utf8::encode_utf8_valid_utf8(text);
    vstd::utf8::encode_utf8_decode_utf8(text);
}

/// The number format that the attributes of a style give.
pub proof fn lemma_style_formats(attributes: Seq<Attr>, format: int, n: nat)
    requires
        0 <= format <= 0xffff,
        0 < n <= attributes.len(),
        attributes[0] == (Attr { key: "numFmtId"@, value: crate::text::decimal(format) }),
        forall|i: int| 0 < i < attributes.len() ==> (#[trigger] attributes[i]).key != "numFmtId"@,
    ensures
        crate::xml_documents::style_formats(crate::markup::attribute_items(attributes), n)
            == seq![format as u16],
    decreases n,
{
    let list = crate::markup::attribute_items(attributes);
    let a = attributes[n - 1];
    assert(list[n - 1] == Some(
        XmlAttribute {
            key: vstd::utf8::encode_utf8(a.key),
            value: vstd::utf8::encode_utf8(a.value),
        },
    ));
    crate::markup::lemma_same_bytes(a.key, "numFmtId"@);
    if n == 1 {
        lemma_format_number(format);
        assert(crate::xml_documents::style_formats(list, 0) == Seq::<u16>::empty());
        assert(Seq::<u16>::empty().push(format as u16) =~= seq![format as u16]);
    } else {
        lemma_style_formats(attributes, format, (n - 1) as nat);
    }
}

/// A cell style gives its number format, if it stands among the cell styles.
proof fn lemma_style(t: Track, attributes: Seq<Attr>, format: int) -> (after: Track)
    requires
        t.wf(),
        0 <= format <= 0xffff,
        crate::markup::are_attributes(attributes),
        attributes.len() > 0,
        attributes[0] == (Attr { key: "numFmtId"@, value: crate::text::decimal(format) }),
    ensures
        after.wf(),
        after.ends_in_markup(),
        after == (Track {
            pieces: crate::xlsx_style_part::with_empty(t.pieces, "xf"@, attributes),
            scan: if t.scan.in_cell_xfs {
                StyleScan { formats: t.scan.formats.push(format as u16), ..t.scan }
            } else {
                t.scan
            },
            ..t
        }),
{
    let piece = Piece::Empty { name: "xf"@, attributes, spaced: false };
    lemma_special_names();
    crate::markup::lemma_piece_tag(piece, XmlKind::Empty, "numFmt"@);
    crate::markup::lemma_piece_tag(piece, XmlKind::Empty, "cellXfs"@);
    crate::markup::lemma_piece_tag(piece, XmlKind::Empty, "xf"@);
    assert forall|i: int| 0 < i < attributes.len() implies (#[trigger] attributes[i]).key
        != "numFmtId"@ by {
        assert(attributes[0].key != attributes[i].key);
    }
    lemma_style_formats(attributes, format, attributes.len());
    assert(t.scan.formats + seq![format as u16] =~= t.scan.formats.push(format as u16));
    lemma_piece(t, piece)
}

/// The style that all cell styles are made from is none of them.
proof fn lemma_base(t: Track) -> (after: Track)
    requires
        t.wf(),
        !t.scan.in_cell_xfs,
    ensures
        after.wf(),
        after == (Track { pieces: crate::xlsx_style_part::with_base(t.pieces), ..t }),
{
    lemma_rest_names();
    lemma_style_keys();
    reveal_strlit("count");
    lemma_alone("count"@, "1"@);
    lemma_style_base(0, "0"@);
    let t1 = lemma_open(
        t,
        "cellStyleXfs"@,
        crate::xlsx_style_part::alone("count"@, "1"@),
    );
    let t2 = lemma_break(t1);
    let t3 = lemma_style(t2, crate::xlsx_style_part::style_base(0, "0"@), 0);
    let t4 = lemma_break(t3);
    let t5 = lemma_close(t4, t.stack, "cellStyleXfs"@);
    lemma_break(t5)
}

/// A cell style among the cell styles, with what it applies.
proof fn lemma_applied_style(
    t: Track,
    format: int,
    font: Seq<char>,
    applies: Seq<char>,
) -> (after: Track)
    requires
        t.wf(),
        t.scan.in_cell_xfs,
        0 <= format <= 0xffff,
        crate::markup::is_value(font),
        is_applied(applies),
    ensures
        after.wf(),
        after.ends_in_markup(),
        after == (Track {
            pieces: crate::xlsx_style_part::with_style(t.pieces, format, font, applies),
            scan: StyleScan { formats: t.scan.formats.push(format as u16), ..t.scan },
            ..t
        }),
{
    lemma_style_attributes(format, font, applies);
    lemma_style(
        t,
        crate::xlsx_style_part::style_attributes(format, font).push(
            Attr { key: applies, value: "1"@ },
        ),
        format,
    )
}

/// The four cell styles that every workbook has.
proof fn lemma_own_styles(t: Track) -> (after: Track)
    requires
        t.wf(),
        t.ends_in_markup(),
        t.scan.in_cell_xfs,
    ensures
        after.wf(),
        after.ends_in_markup(),
        after == (Track {
            pieces: crate::xlsx_style_part::with_own_styles(t.pieces),
            scan: StyleScan {
                formats: t.scan.formats.push(0).push(14).push(22).push(0),
                ..t.scan
            },
            ..t
        }),
{
    lemma_style_keys();
    lemma_style_attributes(0, "0"@, "applyFont"@);
    let t1 = lemma_break(t);
    let t2 = lemma_style(t1, crate::xlsx_style_part::style_attributes(0, "0"@), 0);
    let t3 = lemma_break(t2);
    let t4 = lemma_applied_style(t3, 14, "0"@, "applyNumberFormat"@);
    let t5 = lemma_break(t4);
    let t6 = lemma_applied_style(t5, 22, "0"@, "applyNumberFormat"@);
    let t7 = lemma_break(t6);
    lemma_applied_style(t7, 0, "1"@, "applyFont"@)
}

/// The ids of the first `n` number formats behind others.
pub open spec fn with_ids(list: Seq<u16>, n: nat) -> Seq<u16>
    decreases n,
{
    if n == 0 {
        list
    } else {
        with_ids(list, (n - 1) as nat).push((164 + n) as u16)
    }
}

proof fn lemma_format_styles(t: Track, n: nat) -> (after: Track)
    requires
        t.wf(),
        t.ends_in_markup(),
        t.scan.in_cell_xfs,
        164 + n <= 0xffff,
    ensures
        after.wf(),
        after.ends_in_markup(),
        after == (Track {
            pieces: crate::xlsx_style_part::with_format_styles(t.pieces, n),
            scan: StyleScan { formats: with_ids(t.scan.formats, n), ..t.scan },
            ..t
        }),
    decreases n,
{
    if n == 0 {
        t
    } else {
        lemma_style_keys();
        let t1 = lemma_format_styles(t, (n - 1) as nat);
        let t2 = lemma_break(t1);
        lemma_applied_style(t2, 164 + n as int, "0"@, "applyNumberFormat"@)
    }
}

/// The number formats of the cell styles of a workbook with `n` number formats of
/// its own.
pub open spec fn style_formats(n: nat) -> Seq<u16> {
    with_ids(Seq::empty().push(0u16).push(14).push(22).push(0), n)
}

proof fn lemma_styles(t: Track, n: nat) -> (after: Track)
    requires
        t.wf(),
        !t.scan.in_cell_xfs,
        t.scan.formats == Seq::<u16>::empty(),
        164 + n <= 0xffff,
    ensures
        after.wf(),
        after == (Track {
            pieces: crate::xlsx_style_part::with_styles(t.pieces, n),
            scan: StyleScan { formats: style_formats(n), ..t.scan },
            ..t
        }),
{
    let count = crate::text::decimal(4 + n as int);
    let attributes = crate::xlsx_style_part::alone("count"@, count);
    let open = Piece::Open { name: "cellXfs"@, attributes };
    let close = Piece::Close("cellXfs"@);
    lemma_special_names();
    reveal_strlit("count");
    crate::xlsx_markup::lemma_decimal_is_plain(4 + n as int);
    lemma_alone("count"@, count);
    crate::markup::lemma_piece_tag(open, XmlKind::Start, "numFmt"@);
    crate::markup::lemma_piece_tag(open, XmlKind::Start, "cellXfs"@);
    let t1 = lemma_piece(t, open);
    let t2 = lemma_own_styles(t1);
    let t3 = lemma_format_styles(t2, n);
    let t4 = lemma_break(t3);
    crate::markup::lemma_piece_tag(close, XmlKind::End, "cellXfs"@);
    assert(t.stack.push("cellXfs"@).drop_last() =~= t.stack);
    let t5 = lemma_piece(t4, close);
    lemma_break(t5)
}

proof fn lemma_rest_attributes()
    ensures
        crate::markup::are_attributes(crate::xlsx_style_part::normal_attributes()),
        crate::markup::are_attributes(crate::xlsx_style_part::table_style_attributes()),
{
    reveal_strlit("name");
    reveal_strlit("Normal");
    reveal_strlit("xfId");
    reveal_strlit("builtinId");
    reveal_strlit("0");
    reveal_strlit("count");
    reveal_strlit("defaultTableStyle");
    reveal_strlit("defaultPivotStyle");
    reveal_strlit("TableStyleMedium2");
    reveal_strlit("PivotStyleLight16");
    assert("name"@[0] != "xfId"@[0]);
    assert("name"@.len() == 4 && "xfId"@.len() == 4 && "builtinId"@.len() == 9 && "count"@.len()
        == 5 && "defaultTableStyle"@.len() == 17 && "defaultPivotStyle"@.len() == 17);
    assert("defaultTableStyle"@[7] != "defaultPivotStyle"@[7]);
    let a = crate::xlsx_style_part::alone("name"@, "Normal"@);
    let b = Attr { key: "xfId"@, value: "0"@ };
    lemma_alone("name"@, "Normal"@);
    crate::xlsx_markup::lemma_attribute_more(a, b);
    crate::xlsx_markup::lemma_attribute_more(a.push(b), Attr { key: "builtinId"@, value: "0"@ });
    let c = crate::xlsx_style_part::alone("count"@, "0"@);
    let d = Attr { key: "defaultTableStyle"@, value: "TableStyleMedium2"@ };
    lemma_alone("count"@, "0"@);
    crate::xlsx_markup::lemma_attribute_more(c, d);
    crate::xlsx_markup::lemma_attribute_more(
        c.push(d),
        Attr { key: "defaultPivotStyle"@, value: "PivotStyleLight16"@ },
    );
}

/// What stands behind the cell styles says nothing of them.
proof fn lemma_rest(t: Track) -> (after: Track)
    requires
        t.wf(),
    ensures
        after.wf(),
        after == (Track { pieces: crate::xlsx_style_part::with_rest(t.pieces), ..t }),
{
    lemma_rest_names();
    lemma_rest_attributes();
    reveal_strlit("count");
    reveal_strlit("1");
    reveal_strlit("0");
    lemma_alone("count"@, "1"@);
    lemma_alone("count"@, "0"@);
    let t1 = lemma_open(t, "cellStyles"@, crate::xlsx_style_part::alone("count"@, "1"@));
    let t2 = lemma_break(t1);
    let t3 = lemma_empty(t2, "cellStyle"@, crate::xlsx_style_part::normal_attributes());
    let t4 = lemma_break(t3);
    let t5 = lemma_close(t4, t.stack, "cellStyles"@);
    let t6 = lemma_break(t5);
    let t7 = lemma_empty(t6, "dxfs"@, crate::xlsx_style_part::alone("count"@, "0"@));
    let t8 = lemma_break(t7);
    let t9 = lemma_empty(t8, "tableStyles"@, crate::xlsx_style_part::table_style_attributes());
    lemma_break(t9)
}

/// The text that XML holds of a number format.
pub open spec fn format_back(format: Seq<char>) -> Seq<char> {
    crate::xlsx_update_read::kept_text(format)
}

pub proof fn lemma_format_attributes(id: int, format: Seq<char>)
    requires
        0 <= id <= 0xffff,
        crate::xlsx_book_laws::is_one_line(format_back(format)),
    ensures
        ({
            let attributes = crate::xlsx_style_part::format_attributes(id, format);
            let list = crate::markup::attribute_items(attributes);
            &&& crate::markup::are_attributes(attributes)
            &&& crate::xml_documents::declared_format(list, list.len()) == Some(id as u16)
            &&& crate::xml_documents::declared_code(list, list.len()) == Some(format_back(format))
        }),
{
    let attributes = crate::xlsx_style_part::format_attributes(id, format);
    let list = crate::markup::attribute_items(attributes);
    let number = crate::text::decimal(id);
    let code = crate::xml_utils::escaped_text(format);
    reveal_strlit("numFmtId");
    reveal_strlit("formatCode");
    assert("numFmtId"@.len() != "formatCode"@.len());
    crate::xlsx_markup::lemma_decimal_is_plain(id);
    lemma_alone("numFmtId"@, number);
    crate::xlsx_book_laws::lemma_entities_are_value(format_back(format));
    crate::xlsx_markup::lemma_attribute_more(
        crate::xlsx_style_part::alone("numFmtId"@, number),
        Attr { key: "formatCode"@, value: code },
    );
    crate::markup::lemma_same_bytes("formatCode"@, "numFmtId"@);
    assert(list[0] == Some(
        XmlAttribute {
            key: vstd::utf8::encode_utf8("numFmtId"@),
            value: vstd::utf8::encode_utf8(number),
        },
    ));
    assert(list[1] == Some(
        XmlAttribute {
            key: vstd::utf8::encode_utf8("formatCode"@),
            value: vstd::utf8::encode_utf8(code),
        },
    ));
    crate::xlsx_book_laws::lemma_text_of_value(format_back(format));
    assert(Seq::<char>::empty() + number =~= number);
    crate::xlsx_book_laws::lemma_text_of_number(Seq::empty(), id);
    lemma_format_number(id);
    reveal_with_fuel(crate::xml_documents::declared_format, 3);
    reveal_with_fuel(crate::xml_documents::declared_code, 3);
}

/// The ids of those of the first `n` number formats that show dates.
pub open spec fn date_ids(formats: Seq<Seq<char>>, n: nat) -> Set<u16>
    decreases n,
{
    if n == 0 {
        Set::empty()
    } else {
        let before = date_ids(formats, (n - 1) as nat);
        if crate::formats::is_date_code(format_back(formats[n - 1])) {
            before.insert((164 + n) as u16)
        } else {
            before
        }
    }
}

/// The number formats hold no tabs or line breaks.
pub open spec fn are_one_line(formats: Seq<Seq<char>>) -> bool {
    forall|i: int|
        0 <= i < formats.len() ==> crate::xlsx_book_laws::is_one_line(
            format_back(#[trigger] formats[i]),
        )
}

proof fn lemma_formats(t: Track, formats: Seq<Seq<char>>, n: nat) -> (after: Track)
    requires
        t.wf(),
        t.ends_in_markup(),
        t.scan.date_formats == Set::<u16>::empty(),
        n <= formats.len(),
        164 + formats.len() <= 0xffff,
        are_one_line(formats),
    ensures
        after.wf(),
        after.ends_in_markup(),
        after == (Track {
            pieces: crate::xlsx_style_part::with_formats(t.pieces, formats, n),
            scan: StyleScan { date_formats: date_ids(formats, n), ..t.scan },
            ..t
        }),
    decreases n,
{
    if n == 0 {
        t
    } else {
        let t1 = lemma_formats(t, formats, (n - 1) as nat);
        let format = formats[n - 1];
        let id = 164 + n as int;
        let attributes = crate::xlsx_style_part::format_attributes(id, format);
        let piece = Piece::Empty { name: "numFmt"@, attributes, spaced: false };
        lemma_special_names();
        lemma_format_attributes(id, format);
        crate::markup::lemma_piece_tag(piece, XmlKind::Empty, "numFmt"@);
        lemma_piece(t1, piece)
    }
}

proof fn lemma_number_formats(t: Track, formats: Seq<Seq<char>>) -> (after: Track)
    requires
        t.wf(),
        t.ends_in_markup(),
        t.scan.date_formats == Set::<u16>::empty(),
        164 + formats.len() <= 0xffff,
        are_one_line(formats),
    ensures
        after.wf(),
        after == (Track {
            pieces: crate::xlsx_style_part::with_number_formats(t.pieces, formats),
            scan: StyleScan { date_formats: date_ids(formats, formats.len()), ..t.scan },
            ..t
        }),
{
    if formats.len() == 0 {
        reveal_strlit("\n\n");
        lemma_piece(t, Piece::Text("\n\n"@))
    } else {
        let count = crate::text::decimal(formats.len() as int);
        lemma_rest_names();
        reveal_strlit("count");
        crate::xlsx_markup::lemma_decimal_is_plain(formats.len() as int);
        lemma_alone("count"@, count);
        let t1 = lemma_break(t);
        let t2 = lemma_open(t1, "numFmts"@, crate::xlsx_style_part::alone("count"@, count));
        let t3 = lemma_formats(t2, formats, formats.len());
        let t4 = lemma_close(t3, t.stack, "numFmts"@);
        lemma_break(t4)
    }
}

/// The declaration and the opening tag of the style sheet.
proof fn lemma_sheet_opening() -> (t: Track)
    ensures
        t.wf(),
        t.ends_in_markup(),
        t == (Track {
            pieces: crate::xlsx_style_part::sheet_opening(),
            stack: Seq::empty().push("styleSheet"@),
            scan: crate::xml_documents::no_styles(),
        }),
{
    let declaration = crate::xlsx_frame::declaration_piece();
    let start = Track {
        pieces: Seq::empty().push(declaration),
        stack: Seq::empty(),
        scan: crate::xml_documents::no_styles(),
    };
    crate::xlsx_frame::lemma_declaration();
    crate::xlsx_frame::lemma_namespaces();
    lemma_rest_names();
    lemma_alone("xmlns"@, crate::xlsx_cells::MAIN_NAMESPACE@);
    assert(start.wf()) by {
        reveal(Track::wf);
        assert(start.pieces =~= seq![declaration]);
        crate::markup::lemma_nested_one(Seq::empty(), declaration);
        lemma_run_push(crate::xml_documents::no_styles(), Seq::empty(), declaration);
        assert(crate::markup::items(Seq::<Piece>::empty()) =~= Seq::<
            Result<XmlItem, Seq<char>>,
        >::empty());
        let none = crate::xml_documents::no_styles();
        assert(none.run(Seq::empty()) == none);
    }
    let t1 = lemma_break(start);
    lemma_open(
        t1,
        "styleSheet"@,
        crate::xlsx_style_part::alone("xmlns"@, crate::xlsx_cells::MAIN_NAMESPACE@),
    )
}

/// The style sheet that the writer makes is plain markup, which says of every cell
/// style which number format it has, and of the number formats which of them show
/// dates. With this
/// [`load_styles`](crate::xlsx_reader::XlsxReader::load_styles) tells dates from
/// numbers as the writer meant them. The number formats have to be few enough for
/// ids of sixteen bits; a tab or a line break in one would read back as a space.
pub proof fn law_styles_read_back(formats: Seq<Seq<char>>)
    requires
        164 + formats.len() <= 0xffff,
        are_one_line(formats),
    ensures
        ({
            let pieces = crate::xlsx_style_part::style_pieces(formats);
            &&& crate::markup::is_document(pieces)
            &&& crate::markup::written(pieces) == crate::xlsx_style_part::styles_xml(formats)
            &&& crate::xml_documents::no_styles().run(crate::markup::items(pieces)) == (StyleScan {
                in_cell_xfs: false,
                formats: style_formats(formats.len()),
                date_formats: date_ids(formats, formats.len()),
            })
        }),
{
    lemma_rest_names();
    let t0 = lemma_sheet_opening();
    let t1 = lemma_number_formats(t0, formats);
    let t2 = lemma_fonts(t1);
    let t3 = lemma_fills(t2);
    let t4 = lemma_borders(t3);
    let t5 = lemma_base(t4);
    let t6 = lemma_styles(t5, formats.len());
    let t7 = lemma_rest(t6);
    let t8 = lemma_close(t7, Seq::empty(), "styleSheet"@);
    reveal(Track::wf);
}

proof fn lemma_ids(list: Seq<u16>, n: nat, i: int)
    requires
        0 <= i < list.len() + n,
    ensures
        with_ids(list, n).len() == list.len() + n,
        with_ids(list, n)[i] == if i < list.len() {
            list[i]
        } else {
            (165 + i - list.len()) as u16
        },
    decreases n,
{
    if n > 0 {
        let m = (n - 1) as nat;
        if i < list.len() + m {
            lemma_ids(list, m, i);
        } else if m > 0 {
            lemma_ids(list, m, 0);
        }
    }
}

proof fn lemma_date_ids(formats: Seq<Seq<char>>, n: nat, i: int)
    requires
        0 <= i < formats.len(),
        n <= formats.len(),
        164 + formats.len() <= 0xffff,
    ensures
        date_ids(formats, n).contains((165 + i) as u16) == (i < n
            && crate::formats::is_date_code(format_back(formats[i]))),
    decreases n,
{
    if n > 0 {
        lemma_date_ids(formats, (n - 1) as nat, i);
    }
}

/// Where the reader has the styles of the writer, a date that was written without
/// a number format reads back as a date, a value that was written with one reads
/// back as a date exactly if the format shows dates, and a number that was written
/// without one reads back as a number.
pub proof fn law_dates_read_back_as_dates(
    formats: Seq<Seq<char>>,
    info: BookInfo,
    doubles: Doubles,
    text: Seq<char>,
    bits: u64,
    i: int,
)
    requires
        164 + formats.len() <= 0xffff,
        info.formats == style_formats(formats.len()),
        info.date_formats == date_ids(formats, formats.len()),
        doubles(text) == Some(bits),
    ensures
        crate::xlsx_read_laws::number_back(text, Some(1), info, doubles) == Plain::DateTime(
            Number::Double(bits),
        ),
        0 <= i < formats.len() ==> crate::xlsx_read_laws::number_back(
            text,
            Some(4 + i),
            info,
            doubles,
        ) == if crate::formats::is_date_code(format_back(formats[i])) {
            Plain::DateTime(Number::Double(bits))
        } else {
            Plain::Number(Number::Double(bits))
        },
        crate::xlsx_read_laws::number_back(text, None, info, doubles) == Plain::Number(
            Number::Double(bits),
        ),
{
    let own = Seq::<u16>::empty().push(0u16).push(14).push(22).push(0);
    lemma_ids(own, formats.len(), 1);
    if 0 <= i < formats.len() {
        lemma_ids(own, formats.len(), 4 + i);
        lemma_date_ids(formats, formats.len(), i);
    }
}

} // verus!
