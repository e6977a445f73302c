//! The rows that an update puts into a worksheet, as a search for tags sees them.

use vstd::prelude::*;
use crate::formats::{Cell, Plain};
use crate::markup::{Attr, Piece};
use crate::number::NumberTable;
use crate::xlsx_update_read::NewSheet;
use crate::xlsx_update_rows::{Looks, Strings};

verus! {

/// Pieces that hold the characters that bound tags at their ends only, none of which
/// opens a filter.
pub open spec fn are_inner(pieces: Seq<Piece>) -> bool {
    forall|i: int|
        0 <= i < pieces.len() ==> crate::xlsx_sheet_markup::is_clear(#[trigger] pieces[i])
            && !crate::xlsx_sheet_markup::is_tag(pieces[i], "autoFilter"@)
}

proof fn lemma_inner_concat(a: Seq<Piece>, b: Seq<Piece>)
    requires
        are_inner(a),
        are_inner(b),
    ensures
        are_inner(a + b),
{
    let all = a + b;
    assert forall|i: int| 0 <= i < all.len() implies crate::xlsx_sheet_markup::is_clear(
        #[trigger] all[i],
    ) && !crate::xlsx_sheet_markup::is_tag(all[i], "autoFilter"@) by {
        if i < a.len() {
            assert(all[i] == a[i]);
        } else {
            assert(all[i] == b[i - a.len()]);
        }
    }
}

proof fn lemma_inner_element(name: Seq<char>, attributes: Seq<Attr>, inner: Seq<Piece>)
    requires
        name.len() < 10,
        crate::xlsx_sheet_markup::are_clear(attributes),
        are_inner(inner),
    ensures
        are_inner(crate::markup::element(name, attributes, inner)),
{
    reveal_strlit("autoFilter");
    let open = seq![Piece::Open { name, attributes }];
    assert(are_inner(open));
    assert(are_inner(seq![Piece::Close(name)]));
    lemma_inner_concat(open, inner);
    lemma_inner_concat(open + inner, seq![Piece::Close(name)]);
}

pub proof fn lemma_decimal_clear(n: int)
    ensures
        crate::xlsx_sheet_markup::has_no_bounds(crate::text::decimal(n)),
{
    let m = if n < 0 {
        (-n) as nat
    } else {
        n as nat
    };
    let s = crate::text::decimal(n);
    crate::text::lemma_digits(m);
    assert forall|i: int| 0 <= i < s.len() implies #[trigger] s[i] != '<' && s[i] != '>' by {
        if n < 0 {
            if i > 0 {
                assert(s[i] == crate::text::digits(m)[i - 1]);
            }
        } else {
            assert(s[i] == crate::text::digits(m)[i]);
        }
    }
}

pub proof fn lemma_cell_attributes_clear(kind: Option<Seq<char>>, style: Option<int>)
    requires
        kind matches Some(k) ==> crate::xlsx_sheet_markup::has_no_bounds(k),
    ensures
        crate::xlsx_sheet_markup::are_clear(crate::xlsx_markup::cell_attributes(kind, style)),
{
    if let Some(s) = style {
        lemma_decimal_clear(s);
    }
}

proof fn lemma_cell_inner(kind: Option<Seq<char>>, style: Option<int>, value: Seq<char>)
    requires
        kind matches Some(k) ==> crate::xlsx_sheet_markup::has_no_bounds(k),
    ensures
        are_inner(crate::xlsx_markup::cell_pieces(kind, style, value)),
{
    let text = seq![Piece::Text(value)];
    reveal_strlit("c");
    reveal_strlit("v");
    lemma_cell_attributes_clear(kind, style);
    assert(are_inner(text));
    lemma_inner_element("v"@, Seq::empty(), text);
    lemma_inner_element(
        "c"@,
        crate::xlsx_markup::cell_attributes(kind, style),
        crate::markup::element("v"@, Seq::empty(), text),
    );
}

proof fn lemma_text_cell_inner(strings: Strings, style: int, text: Seq<char>)
    ensures
        are_inner(crate::xlsx_update_read::text_cell_pieces(strings, style, text)),
{
    let said = crate::xlsx_update_rows::said_style(style);
    reveal_strlit("s");
    reveal_strlit("inlineStr");
    if strings.xml is None {
        let kept = crate::xlsx_update_read::kept_text(text);
        let pieces = crate::xlsx_string_laws::text_pieces(kept);
        let preserved = crate::xlsx_patch::keeps_space(crate::xml_utils::escaped_text(text));
        let space = crate::xlsx_string_laws::space_attributes(preserved);
        reveal_strlit("c");
        reveal_strlit("is");
        reveal_strlit("t");
        reveal_strlit("preserve");
        crate::xlsx_string_laws::lemma_text_pieces(kept);
        assert(are_inner(pieces)) by {
            assert forall|i: int| 0 <= i < pieces.len() implies crate::xlsx_sheet_markup::is_clear(
                #[trigger] pieces[i],
            ) && !crate::xlsx_sheet_markup::is_tag(pieces[i], "autoFilter"@) by {
                assert(pieces[i] is Text || pieces[i] is Reference);
            }
        }
        assert(crate::xlsx_sheet_markup::are_clear(space));
        lemma_inner_element("t"@, space, pieces);
        let t = crate::markup::element("t"@, space, pieces);
        lemma_inner_element("is"@, Seq::empty(), t);
        lemma_cell_attributes_clear(Some("inlineStr"@), said);
        lemma_inner_element(
            "c"@,
            crate::xlsx_markup::cell_attributes(Some("inlineStr"@), said),
            crate::markup::element("is"@, Seq::empty(), t),
        );
    } else {
        lemma_cell_inner(
            Some("s"@),
            said,
            crate::text::decimal(crate::string_table::index_for(strings.values, text)),
        );
    }
}

proof fn lemma_value_inner(
    strings: Strings,
    value: Plain,
    col: int,
    looks: Looks,
    numbers: NumberTable,
)
    ensures
        are_inner(crate::xlsx_update_read::value_pieces(strings, value, col, looks, numbers)),
{
    let style = crate::xlsx_styles::data_style(looks.cells, col);
    let said = crate::xlsx_update_rows::said_style(style);
    reveal_strlit("b");
    match value {
        Plain::Empty => {},
        Plain::Number(n) => {
            lemma_cell_inner(None, said, numbers.display(n));
            lemma_text_cell_inner(strings, style, numbers.display(n));
        },
        Plain::Integer(n) => {
            lemma_cell_inner(None, said, crate::text::decimal(n as int));
        },
        Plain::Boolean(b) => {
            lemma_cell_inner(
                Some("b"@),
                said,
                if b {
                    "1"@
                } else {
                    "0"@
                },
            );
        },
        Plain::DateTime(d) => {
            lemma_cell_inner(
                None,
                crate::xlsx_update_rows::said_style(
                    crate::xlsx_update_read::date_style(looks, col),
                ),
                numbers.display(d),
            );
        },
        Plain::Text(s) => {
            lemma_text_cell_inner(strings, style, s);
        },
    }
}

proof fn lemma_cells_inner(
    strings: Strings,
    row: Seq<Cell>,
    n: nat,
    looks: Looks,
    numbers: NumberTable,
)
    ensures
        are_inner(crate::xlsx_update_read::cells_pieces(strings, row, n, looks, numbers)),
    decreases n,
{
    if n > 0 {
        let m = (n - 1) as nat;
        lemma_cells_inner(strings, row, m, looks, numbers);
        let before = crate::xlsx_update_rows::value_cells(strings, row, m, looks, numbers).strings;
        lemma_value_inner(before, row[n - 1].value, n - 1, looks, numbers);
        lemma_inner_concat(
            crate::xlsx_update_read::cells_pieces(strings, row, m, looks, numbers),
            crate::xlsx_update_read::value_pieces(
                before,
                row[n - 1].value,
                n - 1,
                looks,
                numbers,
            ),
        );
    }
}

proof fn lemma_headers_inner(strings: Strings, headers: Seq<Seq<char>>, n: nat, looks: Looks)
    ensures
        are_inner(crate::xlsx_update_read::header_pieces(strings, headers, n, looks)),
    decreases n,
{
    if n > 0 {
        let m = (n - 1) as nat;
        let style = crate::xlsx_styles::header_style(looks.cells, n - 1);
        lemma_headers_inner(strings, headers, m, looks);
        let before = crate::xlsx_update_rows::header_cells(strings, headers, m, looks).strings;
        lemma_text_cell_inner(before, style, headers[n - 1]);
        lemma_inner_concat(
            crate::xlsx_update_read::header_pieces(strings, headers, m, looks),
            crate::xlsx_update_read::text_cell_pieces(before, style, headers[n - 1]),
        );
    }
}

proof fn lemma_lines_inner(new: NewSheet, i: int)
    requires
        0 <= i <= new.lines(),
    ensures
        are_inner(crate::xlsx_read_laws::joined(new.line_list(), i)),
    decreases new.lines() - i,
{
    if i < new.lines() {
        let here = new.line_pieces(i);
        reveal_strlit("row");
        assert(new.line_list()[i] == here);
        lemma_lines_inner(new, i + 1);
        lemma_decimal_clear(i + 1);
        if i < new.first() {
            lemma_headers_inner(
                new.strings,
                new.headers->0,
                (new.headers->0).len(),
                new.looks,
            );
        } else {
            let r = i - new.first();
            lemma_cells_inner(
                new.strings_after(r),
                new.rows[r],
                new.rows[r].len(),
                new.looks,
                new.numbers,
            );
        }
        lemma_inner_element("row"@, new.line_attributes(i), new.inner_pieces(i));
        lemma_inner_concat(here, crate::xlsx_read_laws::joined(new.line_list(), i + 1));
    }
}

/// New rows hold the characters that bound tags at the ends of their pieces only, and
/// no filter.
pub proof fn lemma_new_rows_inner(new: NewSheet)
    requires
        crate::xlsx_markup::prints_plainly(new.numbers),
    ensures
        crate::xlsx_sheet_markup::all_clear(new.pieces()),
        crate::xlsx_sheet_markup::has_no_tag(new.pieces(), "autoFilter"@),
        crate::markup::is_block(new.pieces()),
{
    lemma_lines_inner(new, 0);
    crate::xlsx_update_read::law_new_rows_are_markup(new);
    let pieces = new.pieces();
    assert forall|i: int| 0 <= i < pieces.len() implies (#[trigger] pieces[i]).is_sound()
        && crate::xlsx_sheet_markup::is_clear(pieces[i]) by {
        assert(crate::xlsx_sheet_markup::is_clear(pieces[i]));
    }
}

} // verus!
