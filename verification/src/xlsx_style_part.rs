//! The style sheet of an XLSX workbook.
//!
//! The sheet has four styles of its own, for plain cells, dates, date-times and
//! headers, and one for each number format that was asked for. Number formats of
//! the workbook have ids from 165 on.

use vstd::prelude::*;
use crate::markup::{Attr, Piece};
use crate::markup_writer::{Draft, MarkupWriter};
use crate::string_table::StringTable;
use crate::text::decimal_text;
use crate::xlsx_cells::{DECLARATION, MAIN_NAMESPACE};
use crate::xml_utils::escape_xml_text;

verus! {

/// One attribute.
pub open spec fn alone(key: Seq<char>, value: Seq<char>) -> Seq<Attr> {
    Seq::empty().push(Attr { key, value })
}

pub open spec fn with_open(p: Seq<Piece>, name: Seq<char>, attributes: Seq<Attr>) -> Seq<Piece> {
    p.push(Piece::Open { name, attributes })
}

pub open spec fn with_empty(p: Seq<Piece>, name: Seq<char>, attributes: Seq<Attr>) -> Seq<Piece> {
    p.push(Piece::Empty { name, attributes, spaced: false })
}

pub open spec fn with_close(p: Seq<Piece>, name: Seq<char>) -> Seq<Piece> {
    p.push(Piece::Close(name))
}

pub open spec fn with_break(p: Seq<Piece>) -> Seq<Piece> {
    p.push(Piece::Text("\n"@))
}

fn open_tag(w: &mut MarkupWriter, name: &str, key: &str, value: &str)
    requires
        old(w).wf(),
        old(w)@.tag is None,
    ensures
        final(w).wf(),
        final(w)@ == (Draft {
            pieces: with_open(old(w)@.pieces, name@, alone(key@, value@)),
            tag: None,
        }),
{
    w.tag(name);
    w.attribute(key, value);
    w.opens();
}

fn open_bare_tag(w: &mut MarkupWriter, name: &str)
    requires
        old(w).wf(),
        old(w)@.tag is None,
    ensures
        final(w).wf(),
        final(w)@ == (Draft {
            pieces: with_open(old(w)@.pieces, name@, Seq::empty()),
            tag: None,
        }),
{
    w.tag(name);
    w.opens();
}

fn empty_tag(w: &mut MarkupWriter, name: &str, key: &str, value: &str)
    requires
        old(w).wf(),
        old(w)@.tag is None,
    ensures
        final(w).wf(),
        final(w)@ == (Draft {
            pieces: with_empty(old(w)@.pieces, name@, alone(key@, value@)),
            tag: None,
        }),
{
    w.tag(name);
    w.attribute(key, value);
    w.stays_empty();
}

fn empty_bare_tag(w: &mut MarkupWriter, name: &str)
    requires
        old(w).wf(),
        old(w)@.tag is None,
    ensures
        final(w).wf(),
        final(w)@ == (Draft {
            pieces: with_empty(old(w)@.pieces, name@, Seq::empty()),
            tag: None,
        }),
{
    w.tag(name);
    w.stays_empty();
}

fn line_break(w: &mut MarkupWriter)
    requires
        old(w).wf(),
        old(w)@.tag is None,
    ensures
        final(w).wf(),
        final(w)@ == (Draft { pieces: with_break(old(w)@.pieces), tag: None }),
{
    w.text("\n");
}

fn close_line(w: &mut MarkupWriter, name: &str)
    requires
        old(w).wf(),
        old(w)@.tag is None,
    ensures
        final(w).wf(),
        final(w)@ == (Draft {
            pieces: with_break(with_close(old(w)@.pieces, name@)),
            tag: None,
        }),
{
    w.close(name);
    line_break(w);
}

/// The start of a font, a bold one for headers.
pub open spec fn with_font_start(p: Seq<Piece>, bold: bool) -> Seq<Piece> {
    let open = with_open(p, "font"@, Seq::empty());
    if bold {
        with_empty(open, "b"@, Seq::empty())
    } else {
        open
    }
}

/// A font, on a line of its own.
pub open spec fn with_font(p: Seq<Piece>, bold: bool) -> Seq<Piece> {
    let p1 = with_font_start(p, bold);
    let p2 = with_empty(p1, "sz"@, alone("val"@, "11"@));
    let p3 = with_empty(p2, "color"@, alone("theme"@, "1"@));
    let p4 = with_empty(p3, "name"@, alone("val"@, "Calibri"@));
    let p5 = with_empty(p4, "family"@, alone("val"@, "2"@));
    let p6 = with_empty(p5, "scheme"@, alone("val"@, "minor"@));
    with_break(with_close(p6, "font"@))
}

fn push_font(w: &mut MarkupWriter, bold: bool)
    requires
        old(w).wf(),
        old(w)@.tag is None,
    ensures
        final(w).wf(),
        final(w)@ == (Draft { pieces: with_font(old(w)@.pieces, bold), tag: None }),
{
    open_bare_tag(w, "font");
    if bold {
        empty_bare_tag(w, "b");
    }
    empty_tag(w, "sz", "val", "11");
    empty_tag(w, "color", "theme", "1");
    empty_tag(w, "name", "val", "Calibri");
    empty_tag(w, "family", "val", "2");
    empty_tag(w, "scheme", "val", "minor");
    close_line(w, "font");
}

/// The fonts.
pub open spec fn with_fonts(p: Seq<Piece>) -> Seq<Piece> {
    let p1 = with_open(p, "fonts"@, alone("count"@, "2"@));
    let p2 = with_break(p1);
    let p3 = with_font(p2, false);
    let p4 = with_font(p3, true);
    with_break(with_close(p4, "fonts"@))
}

fn push_fonts(w: &mut MarkupWriter)
    requires
        old(w).wf(),
        old(w)@.tag is None,
    ensures
        final(w).wf(),
        final(w)@ == (Draft { pieces: with_fonts(old(w)@.pieces), tag: None }),
{
    open_tag(w, "fonts", "count", "2");
    line_break(w);
    push_font(w, false);
    push_font(w, true);
    close_line(w, "fonts");
}

/// A fill, on a line of its own.
pub open spec fn with_fill(p: Seq<Piece>, kind: Seq<char>) -> Seq<Piece> {
    let p1 = with_open(p, "fill"@, Seq::empty());
    let p2 = with_empty(p1, "patternFill"@, alone("patternType"@, kind));
    with_break(with_close(p2, "fill"@))
}

fn push_fill(w: &mut MarkupWriter, kind: &str)
    requires
        old(w).wf(),
        old(w)@.tag is None,
    ensures
        final(w).wf(),
        final(w)@ == (Draft { pieces: with_fill(old(w)@.pieces, kind@), tag: None }),
{
    open_bare_tag(w, "fill");
    empty_tag(w, "patternFill", "patternType", kind);
    close_line(w, "fill");
}

/// The fills.
pub open spec fn with_fills(p: Seq<Piece>) -> Seq<Piece> {
    let p1 = with_open(p, "fills"@, alone("count"@, "2"@));
    let p2 = with_break(p1);
    let p3 = with_fill(p2, "none"@);
    let p4 = with_fill(p3, "gray125"@);
    with_break(with_close(p4, "fills"@))
}

fn push_fills(w: &mut MarkupWriter)
    requires
        old(w).wf(),
        old(w)@.tag is None,
    ensures
        final(w).wf(),
        final(w)@ == (Draft { pieces: with_fills(old(w)@.pieces), tag: None }),
{
    open_tag(w, "fills", "count", "2");
    line_break(w);
    push_fill(w, "none");
    push_fill(w, "gray125");
    close_line(w, "fills");
}

/// The borders.
pub open spec fn with_borders(p: Seq<Piece>) -> Seq<Piece> {
    let p1 = with_open(p, "borders"@, alone("count"@, "1"@));
    let p2 = with_break(p1);
    let p3 = with_open(p2, "border"@, Seq::empty());
    let p4 = with_empty(p3, "left"@, Seq::empty());
    let p5 = with_empty(p4, "right"@, Seq::empty());
    let p6 = with_empty(p5, "top"@, Seq::empty());
    let p7 = with_empty(p6, "bottom"@, Seq::empty());
    let p8 = with_empty(p7, "diagonal"@, Seq::empty());
    let p9 = with_break(with_close(p8, "border"@));
    with_break(with_close(p9, "borders"@))
}

fn push_borders(w: &mut MarkupWriter)
    requires
        old(w).wf(),
        old(w)@.tag is None,
    ensures
        final(w).wf(),
        final(w)@ == (Draft { pieces: with_borders(old(w)@.pieces), tag: None }),
{
    open_tag(w, "borders", "count", "1");
    line_break(w);
    open_bare_tag(w, "border");
    empty_bare_tag(w, "left");
    empty_bare_tag(w, "right");
    empty_bare_tag(w, "top");
    empty_bare_tag(w, "bottom");
    empty_bare_tag(w, "diagonal");
    close_line(w, "border");
    close_line(w, "borders");
}

/// The attributes that every style has: the ids of its number format, its font,
/// its fill and its border.
pub open spec fn style_base(format: int, font: Seq<char>) -> Seq<Attr> {
    Seq::empty().push(Attr { key: "numFmtId"@, value: crate::text::decimal(format) }).push(
        Attr { key: "fontId"@, value: font },
    ).push(Attr { key: "fillId"@, value: "0"@ }).push(Attr { key: "borderId"@, value: "0"@ })
}

/// The attributes of a cell style.
pub open spec fn style_attributes(format: int, font: Seq<char>) -> Seq<Attr> {
    style_base(format, font).push(Attr { key: "xfId"@, value: "0"@ })
}

fn begin_style(w: &mut MarkupWriter, format: i128, font: &str)
    requires
        old(w).wf(),
        old(w)@.tag is None,
    ensures
        final(w).wf(),
        final(w)@ == (Draft {
            tag: Some(("xf"@, style_base(format as int, font@))),
            ..old(w)@
        }),
{
    w.tag("xf");
    w.attribute("numFmtId", decimal_text(format).as_str());
    w.attribute("fontId", font);
    w.attribute("fillId", "0");
    w.attribute("borderId", "0");
}

/// A cell style, with one more attribute that says what it applies.
pub open spec fn with_style(
    p: Seq<Piece>,
    format: int,
    font: Seq<char>,
    applies: Seq<char>,
) -> Seq<Piece> {
    with_empty(
        p,
        "xf"@,
        style_attributes(format, font).push(Attr { key: applies, value: "1"@ }),
    )
}

fn push_style(w: &mut MarkupWriter, format: i128, font: &str, applies: &str)
    requires
        old(w).wf(),
        old(w)@.tag is None,
    ensures
        final(w).wf(),
        final(w)@ == (Draft { pieces: with_style(old(w)@.pieces, format as int, font@, applies@), tag: None }),
{
    begin_style(w, format, font);
    w.attribute("xfId", "0");
    w.attribute(applies, "1");
    w.stays_empty();
}

/// The style that all cell styles are made from.
pub open spec fn with_base(p: Seq<Piece>) -> Seq<Piece> {
    let p1 = with_open(p, "cellStyleXfs"@, alone("count"@, "1"@));
    let p2 = with_break(p1);
    let p3 = with_empty(p2, "xf"@, style_base(0, "0"@));
    let p4 = with_break(p3);
    with_break(with_close(p4, "cellStyleXfs"@))
}

fn push_base(w: &mut MarkupWriter)
    requires
        old(w).wf(),
        old(w)@.tag is None,
    ensures
        final(w).wf(),
        final(w)@ == (Draft { pieces: with_base(old(w)@.pieces), tag: None }),
{
    open_tag(w, "cellStyleXfs", "count", "1");
    line_break(w);
    begin_style(w, 0, "0");
    w.stays_empty();
    line_break(w);
    close_line(w, "cellStyleXfs");
}

/// The four cell styles that every workbook has.
pub open spec fn with_own_styles(p: Seq<Piece>) -> Seq<Piece> {
    let p1 = with_break(p);
    let p2 = with_empty(p1, "xf"@, style_attributes(0, "0"@));
    let p3 = with_break(p2);
    let p4 = with_style(p3, 14, "0"@, "applyNumberFormat"@);
    let p5 = with_break(p4);
    let p6 = with_style(p5, 22, "0"@, "applyNumberFormat"@);
    let p7 = with_break(p6);
    with_style(p7, 0, "1"@, "applyFont"@)
}

fn push_own_styles(w: &mut MarkupWriter)
    requires
        old(w).wf(),
        old(w)@.tag is None,
    ensures
        final(w).wf(),
        final(w)@ == (Draft { pieces: with_own_styles(old(w)@.pieces), tag: None }),
{
    line_break(w);
    begin_style(w, 0, "0");
    w.attribute("xfId", "0");
    w.stays_empty();
    line_break(w);
    push_style(w, 14, "0", "applyNumberFormat");
    line_break(w);
    push_style(w, 22, "0", "applyNumberFormat");
    line_break(w);
    push_style(w, 0, "1", "applyFont");
}

/// The cell styles of the first `n` number formats.
pub open spec fn with_format_styles(p: Seq<Piece>, n: nat) -> Seq<Piece>
    decreases n,
{
    if n == 0 {
        p
    } else {
        with_style(
            with_break(with_format_styles(p, (n - 1) as nat)),
            164 + n as int,
            "0"@,
            "applyNumberFormat"@,
        )
    }
}

/// All cell styles.
pub open spec fn with_styles(p: Seq<Piece>, n: nat) -> Seq<Piece> {
    let p1 = with_open(p, "cellXfs"@, alone("count"@, crate::text::decimal(4 + n as int)));
    let p2 = with_own_styles(p1);
    let p3 = with_format_styles(p2, n);
    with_break(with_close(with_break(p3), "cellXfs"@))
}

fn push_styles(w: &mut MarkupWriter, n: usize)
    requires
        old(w).wf(),
        old(w)@.tag is None,
    ensures
        final(w).wf(),
        final(w)@ == (Draft { pieces: with_styles(old(w)@.pieces, n as nat), tag: None }),
{
    open_tag(w, "cellXfs", "count", decimal_text(4 + n as i128).as_str());
    push_own_styles(w);
    let ghost own = w@.pieces;
    let mut i: usize = 0;
    while i < n
        invariant
            i <= n,
            w.wf(),
            w@ == (Draft { pieces: with_format_styles(own, i as nat), tag: None }),
        decreases n - i,
    {
        line_break(w);
        push_style(w, 165 + i as i128, "0", "applyNumberFormat");
        i += 1;
    }
    line_break(w);
    close_line(w, "cellXfs");
}

/// The attributes of a number format.
pub open spec fn format_attributes(id: int, format: Seq<char>) -> Seq<Attr> {
    alone("numFmtId"@, crate::text::decimal(id)).push(
        Attr { key: "formatCode"@, value: crate::xml_utils::escaped_text(format) },
    )
}

/// The first `n` number formats.
pub open spec fn with_formats(p: Seq<Piece>, formats: Seq<Seq<char>>, n: nat) -> Seq<Piece>
    decreases n,
{
    if n == 0 {
        p
    } else {
        with_empty(
            with_formats(p, formats, (n - 1) as nat),
            "numFmt"@,
            format_attributes(164 + n as int, formats[n - 1]),
        )
    }
}

/// The number formats, where there are any, between line breaks.
pub open spec fn with_number_formats(p: Seq<Piece>, formats: Seq<Seq<char>>) -> Seq<Piece> {
    if formats.len() > 0 {
        let p1 = with_open(
            with_break(p),
            "numFmts"@,
            alone("count"@, crate::text::decimal(formats.len() as int)),
        );
        with_break(with_close(with_formats(p1, formats, formats.len()), "numFmts"@))
    } else {
        p.push(Piece::Text("\n\n"@))
    }
}

fn push_number_formats(w: &mut MarkupWriter, formats: &StringTable)
    requires
        old(w).wf(),
        old(w)@.tag is None,
    ensures
        final(w).wf(),
        final(w)@ == (Draft { pieces: with_number_formats(old(w)@.pieces, formats@), tag: None }),
{
    let n: usize = formats.len();
    if n == 0 {
        w.text("\n\n");
        return;
    }
    line_break(w);
    open_tag(w, "numFmts", "count", decimal_text(n as i128).as_str());
    let ghost open = w@.pieces;
    let mut i: usize = 0;
    while i < n
        invariant
            i <= n == formats@.len(),
            w.wf(),
            w@ == (Draft { pieces: with_formats(open, formats@, i as nat), tag: None }),
        decreases n - i,
    {
        let escaped = escape_xml_text(formats.get(i));
        w.tag("numFmt");
        w.attribute("numFmtId", decimal_text(165 + i as i128).as_str());
        w.attribute("formatCode", escaped.as_str());
        w.stays_empty();
        i += 1;
    }
    close_line(w, "numFmts");
}

/// The attributes of the named style.
pub open spec fn normal_attributes() -> Seq<Attr> {
    alone("name"@, "Normal"@).push(Attr { key: "xfId"@, value: "0"@ }).push(
        Attr { key: "builtinId"@, value: "0"@ },
    )
}

/// The attributes of the table styles.
pub open spec fn table_style_attributes() -> Seq<Attr> {
    alone("count"@, "0"@).push(
        Attr { key: "defaultTableStyle"@, value: "TableStyleMedium2"@ },
    ).push(Attr { key: "defaultPivotStyle"@, value: "PivotStyleLight16"@ })
}

/// What stands behind the cell styles.
pub open spec fn with_rest(p: Seq<Piece>) -> Seq<Piece> {
    let p1 = with_open(p, "cellStyles"@, alone("count"@, "1"@));
    let p2 = with_break(p1);
    let p3 = with_empty(p2, "cellStyle"@, normal_attributes());
    let p4 = with_break(p3);
    let p5 = with_break(with_close(p4, "cellStyles"@));
    let p6 = with_empty(p5, "dxfs"@, alone("count"@, "0"@));
    let p7 = with_break(p6);
    let p8 = with_empty(p7, "tableStyles"@, table_style_attributes());
    with_break(p8)
}

fn push_rest(w: &mut MarkupWriter)
    requires
        old(w).wf(),
        old(w)@.tag is None,
    ensures
        final(w).wf(),
        final(w)@ == (Draft { pieces: with_rest(old(w)@.pieces), tag: None }),
{
    open_tag(w, "cellStyles", "count", "1");
    line_break(w);
    w.tag("cellStyle");
    w.attribute("name", "Normal");
    w.attribute("xfId", "0");
    w.attribute("builtinId", "0");
    w.stays_empty();
    line_break(w);
    close_line(w, "cellStyles");
    empty_tag(w, "dxfs", "count", "0");
    line_break(w);
    w.tag("tableStyles");
    w.attribute("count", "0");
    w.attribute("defaultTableStyle", "TableStyleMedium2");
    w.attribute("defaultPivotStyle", "PivotStyleLight16");
    w.stays_empty();
    line_break(w);
}

/// The declaration and the opening tag of the style sheet.
pub open spec fn sheet_opening() -> Seq<Piece> {
    with_open(
        with_break(Seq::empty().push(Piece::Declaration(DECLARATION@))),
        "styleSheet"@,
        alone("xmlns"@, MAIN_NAMESPACE@),
    )
}

/// The style sheet as pieces.
pub open spec fn style_pieces(formats: Seq<Seq<char>>) -> Seq<Piece> {
    let p1 = with_number_formats(sheet_opening(), formats);
    let p2 = with_borders(with_fills(with_fonts(p1)));
    let p3 = with_styles(with_base(p2), formats.len());
    with_close(with_rest(p3), "styleSheet"@)
}

/// The style sheet.
pub open spec fn styles_xml(formats: Seq<Seq<char>>) -> Seq<char> {
    crate::markup::written(style_pieces(formats))
}

/// Renders the style sheet.
pub fn render_styles(formats: &StringTable) -> (xml: String)
    ensures
        xml@ == styles_xml(formats@),
{
    let mut w = MarkupWriter::new();
    w.declare(DECLARATION);
    line_break(&mut w);
    open_tag(&mut w, "styleSheet", "xmlns", MAIN_NAMESPACE);
    push_number_formats(&mut w, formats);
    push_fonts(&mut w);
    push_fills(&mut w);
    push_borders(&mut w);
    push_base(&mut w);
    push_styles(&mut w, formats.len());
    push_rest(&mut w);
    w.close("styleSheet");
    w.finish()
}

} // verus!
