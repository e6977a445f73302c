//! Worksheets that are plain markup around their rows, and what replacing the rows
//! makes of them.

use vstd::prelude::*;
use crate::markup::Piece;
use crate::xml_patch::TagSpan;

verus! {

/// The tag in front of the rows.
pub open spec fn rows_open() -> Piece {
    Piece::Open { name: "sheetData"@, attributes: Seq::empty() }
}

/// The tag behind the rows.
pub open spec fn rows_close() -> Piece {
    Piece::Close("sheetData"@)
}

/// The first piece from `i` on that opens an element of this name.
pub open spec fn first_from(pieces: Seq<Piece>, i: int, local: Seq<char>) -> Option<int>
    decreases pieces.len() - i,
{
    if i >= pieces.len() {
        None
    } else if crate::xlsx_sheet_markup::is_tag(pieces[i], local) {
        Some(i)
    } else {
        first_from(pieces, i + 1, local)
    }
}

/// The first piece that opens an element of this name.
pub open spec fn first_tag(pieces: Seq<Piece>, local: Seq<char>) -> Option<int> {
    first_from(pieces, 0, local)
}

/// Pieces that are no part of rows: sound, with the characters that bound tags at
/// their ends only, and neither tags of a row nor of the rows.
pub open spec fn are_outside(pieces: Seq<Piece>) -> bool {
    forall|i: int|
        0 <= i < pieces.len() ==> (#[trigger] pieces[i]).is_sound()
            && crate::xlsx_sheet_markup::is_clear(pieces[i])
            && crate::xlsx_sheet_markup::is_foreign(pieces[i]) && crate::xlsx_frame::is_no_row(
            pieces[i],
        )
}

/// Pieces with the range of their first tag of this name set.
pub open spec fn with_first_range(
    pieces: Seq<Piece>,
    local: Seq<char>,
    dim: Seq<char>,
) -> Seq<Piece> {
    match first_tag(pieces, local) {
        Some(k) => pieces.update(k, crate::xlsx_range_markup::with_range(pieces[k], dim)),
        None => pieces,
    }
}

/// What stands in front of the rows, with its dimension set. Where there is none, one
/// goes behind the tag of the worksheet.
pub open spec fn dimensioned(head: Seq<Piece>, dim: Seq<char>) -> Seq<Piece> {
    if first_tag(head, "dimension"@) is Some {
        with_first_range(head, "dimension"@, dim)
    } else {
        match first_tag(head, "worksheet"@) {
            Some(w) => head.take(w + 1) + seq![
                crate::xlsx_frame::range_piece("dimension"@, dim),
            ] + head.skip(w + 1),
            None => head,
        }
    }
}

/// A worksheet as plain markup: what stands in front of its rows, the rows, `None`
/// where an empty tag stands for them, with a space in front of its slash or not, and
/// what stands behind.
pub struct SheetMarkup {
    pub head: Seq<Piece>,
    pub rows: Option<Seq<Piece>>,
    pub spaced: bool,
    pub tail: Seq<Piece>,
}

impl SheetMarkup {
    /// The rows between their tags.
    pub open spec fn middle(self) -> Seq<Piece> {
        match self.rows {
            Some(rows) => seq![rows_open()] + rows + seq![rows_close()],
            None => seq![
                Piece::Empty {
                    name: "sheetData"@,
                    attributes: Seq::empty(),
                    spaced: self.spaced,
                },
            ],
        }
    }

    /// The rows.
    pub open spec fn inner(self) -> Seq<Piece> {
        match self.rows {
            Some(rows) => rows,
            None => Seq::empty(),
        }
    }

    /// The worksheet.
    pub open spec fn pieces(self) -> Seq<Piece> {
        self.head + self.middle() + self.tail
    }

    /// The worksheet is a document with its parts in their order: the dimension in
    /// front of the rows, or at least the tag of the worksheet, the filter behind
    /// them; rows and their tags stand between the tags of the rows only, and values
    /// of attributes hold no character that bounds tags. The dimension and the filter
    /// have ranges that nothing in front of them in their tags looks like.
    pub open spec fn is_tidy(self) -> bool {
        &&& crate::markup::is_document(self.pieces())
        &&& are_outside(self.head)
        &&& are_outside(self.tail)
        &&& crate::xlsx_sheet_markup::all_clear(self.inner())
        &&& crate::xlsx_sheet_markup::all_foreign(self.inner())
        &&& forall|open: Seq<Seq<char>>| #[trigger]
            crate::markup::nested(open, self.inner()) == Some(open)
        &&& crate::xlsx_sheet_markup::has_no_tag(self.inner(), "dimension"@)
        &&& crate::xlsx_sheet_markup::has_no_tag(self.inner(), "autoFilter"@)
        &&& crate::xlsx_sheet_markup::has_no_tag(self.tail, "dimension"@)
        &&& crate::xlsx_sheet_markup::has_no_tag(self.head, "autoFilter"@)
        &&& match first_tag(self.head, "dimension"@) {
            Some(d) => crate::xlsx_range_markup::has_range(self.head[d]),
            None => first_tag(self.head, "worksheet"@) matches Some(w) && self.head[w] is Open,
        }
        &&& first_tag(self.tail, "autoFilter"@) matches Some(f)
            ==> crate::xlsx_range_markup::has_range(self.tail[f])
    }

    /// What stands in front of new rows.
    pub open spec fn front(self, dim: Seq<char>) -> Seq<Piece> {
        dimensioned(self.head, dim) + seq![rows_open()]
    }

    /// What stands behind new rows, with the range of the filter set or not.
    pub open spec fn back(self, dim: Seq<char>, filtered: bool) -> Seq<Piece> {
        seq![rows_close()] + if filtered {
            with_first_range(self.tail, "autoFilter"@, dim)
        } else {
            self.tail
        }
    }
}

pub proof fn lemma_first(pieces: Seq<Piece>, i: int, local: Seq<char>)
    requires
        0 <= i,
    ensures
        match first_from(pieces, i, local) {
            Some(k) => i <= k < pieces.len() && crate::xlsx_sheet_markup::is_tag(
                pieces[k],
                local,
            ) && forall|j: int|
                i <= j < k ==> !crate::xlsx_sheet_markup::is_tag(#[trigger] pieces[j], local),
            None => forall|j: int|
                i <= j < pieces.len() ==> !crate::xlsx_sheet_markup::is_tag(
                    #[trigger] pieces[j],
                    local,
                ),
        },
    decreases pieces.len() - i,
{
    if i < pieces.len() && !crate::xlsx_sheet_markup::is_tag(pieces[i], local) {
        lemma_first(pieces, i + 1, local);
    }
}

/// The text of pieces around one of them.
pub proof fn lemma_split(pieces: Seq<Piece>, k: int)
    requires
        0 <= k < pieces.len(),
    ensures
        crate::markup::written(pieces) == crate::markup::written(pieces.take(k))
            + pieces[k].text() + crate::markup::written(pieces.skip(k + 1)),
{
    let a = pieces.take(k);
    let b = pieces.skip(k + 1);
    assert(pieces =~= a + seq![pieces[k]] + b);
    crate::markup::lemma_written_concat(a, seq![pieces[k]]);
    crate::markup::lemma_written_concat(a + seq![pieces[k]], b);
    crate::markup::lemma_written_one(pieces[k]);
}

/// The first tag of a name is found in the text.
pub proof fn lemma_found(a: Seq<char>, pieces: Seq<Piece>, b: Seq<char>, local: Seq<char>)
    requires
        crate::xlsx_sheet_markup::all_clear(pieces),
    ensures
        crate::xml_patch::tag_from(a + crate::markup::written(pieces) + b, a.len() as int, local)
            == match first_tag(pieces, local) {
            Some(k) => Some(
                TagSpan {
                    start: (a.len() + crate::markup::written(pieces.take(k)).len()) as int,
                    end: (a.len() + crate::markup::written(pieces.take(k)).len()
                        + pieces[k].text().len()) as int,
                    prefix: Seq::empty(),
                },
            ),
            None => crate::xml_patch::tag_from(
                a + crate::markup::written(pieces) + b,
                (a.len() + crate::markup::written(pieces).len()) as int,
                local,
            ),
        },
{
    lemma_first(pieces, 0, local);
    match first_tag(pieces, local) {
        Some(k) => {
            let front = pieces.take(k);
            let w = crate::markup::written(front);
            let rest = crate::markup::written(pieces.skip(k + 1)) + b;
            let t = pieces[k].text();
            lemma_split(pieces, k);
            assert forall|i: int| 0 <= i < front.len() implies (#[trigger] front[i]).is_sound()
                && crate::xlsx_sheet_markup::is_clear(front[i])
                && !crate::xlsx_sheet_markup::is_tag(front[i], local) by {
                assert(front[i] == pieces[i]);
            }
            crate::xlsx_sheet_markup::lemma_tags_passed(a, front, t + rest, local);
            crate::xlsx_sheet_markup::lemma_tag_here(a + w, pieces[k], rest, local);
            assert(a + w + (t + rest) =~= a + crate::markup::written(pieces) + b);
            assert(a + w + t + rest =~= a + crate::markup::written(pieces) + b);
        },
        None => {
            crate::xlsx_sheet_markup::lemma_tags_passed(a, pieces, b, local);
        },
    }
}

/// Putting a piece in the place of another one.
pub proof fn lemma_piece_replaced(
    a: Seq<char>,
    pieces: Seq<Piece>,
    b: Seq<char>,
    k: int,
    new: Piece,
)
    requires
        0 <= k < pieces.len(),
    ensures
        ({
            let start = (a.len() + crate::markup::written(pieces.take(k)).len()) as int;
            let end = start + pieces[k].text().len();
            let xml = a + crate::markup::written(pieces) + b;
            &&& xml.subrange(start, end) == pieces[k].text()
            &&& crate::xml_patch::spliced(xml, start, end, new.text()) == a
                + crate::markup::written(pieces.update(k, new)) + b
        }),
{
    let other = pieces.update(k, new);
    lemma_split(pieces, k);
    lemma_split(other, k);
    assert(other.take(k) =~= pieces.take(k));
    assert(other.skip(k + 1) =~= pieces.skip(k + 1));
    let start = (a.len() + crate::markup::written(pieces.take(k)).len()) as int;
    let end = start + pieces[k].text().len();
    let xml = a + crate::markup::written(pieces) + b;
    assert(xml.subrange(start, end) =~= pieces[k].text());
    assert(crate::xml_patch::spliced(xml, start, end, new.text()) =~= a + crate::markup::written(
        other,
    ) + b);
}

/// Putting a piece behind another one.
pub proof fn lemma_piece_added(pieces: Seq<Piece>, b: Seq<char>, k: int, new: Piece)
    requires
        0 <= k < pieces.len(),
    ensures
        ({
            let end = (crate::markup::written(pieces.take(k)).len() + pieces[k].text().len())
                as int;
            crate::xml_patch::spliced(
                crate::markup::written(pieces) + b,
                end,
                end,
                new.text(),
            ) == crate::markup::written(pieces.take(k + 1) + seq![new] + pieces.skip(k + 1)) + b
        }),
{
    let front = pieces.take(k + 1);
    let back = pieces.skip(k + 1);
    lemma_split(pieces, k);
    assert(front =~= pieces.take(k) + seq![pieces[k]]);
    crate::markup::lemma_written_concat(pieces.take(k), seq![pieces[k]]);
    crate::markup::lemma_written_one(pieces[k]);
    crate::markup::lemma_written_concat(front, seq![new]);
    crate::markup::lemma_written_one(new);
    crate::markup::lemma_written_concat(front + seq![new], back);
    let end = (crate::markup::written(pieces.take(k)).len() + pieces[k].text().len()) as int;
    assert(crate::xml_patch::spliced(
        crate::markup::written(pieces) + b,
        end,
        end,
        new.text(),
    ) =~= crate::markup::written(front + seq![new] + back) + b);
}

pub proof fn lemma_outside(pieces: Seq<Piece>)
    requires
        are_outside(pieces),
    ensures
        crate::xlsx_sheet_markup::all_clear(pieces),
        crate::xlsx_sheet_markup::all_foreign(pieces),
        crate::xlsx_read_laws::is_quiet(pieces),
{
    assert forall|i: int| 0 <= i < pieces.len() implies crate::xlsx_sheet_markup::is_foreign(
        #[trigger] pieces[i],
    ) by {
        assert(pieces[i].is_sound());
    }
    assert forall|i: int| 0 <= i < pieces.len() implies (#[trigger] pieces[i]).is_sound()
        && crate::xlsx_frame::is_no_row(pieces[i]) by {}
}

/// The dimension that goes into a worksheet without one.
pub proof fn lemma_new_dimension(dim: Seq<char>)
    requires
        crate::markup::is_value(dim),
        crate::xlsx_sheet_markup::has_no_bounds(dim),
    ensures
        ({
            let piece = crate::xlsx_frame::range_piece("dimension"@, dim);
            &&& are_outside(seq![piece])
            &&& crate::xlsx_sheet_markup::has_no_tag(seq![piece], "autoFilter"@)
            &&& piece.text() == "<dimension ref=\""@ + dim + "\"/>"@
            &&& piece.text() == "<"@ + Seq::<char>::empty() + "dimension ref=\""@ + dim + "\"/>"@
        }),
{
    reveal_strlit("dimension");
    reveal_strlit("sheetData");
    reveal_strlit("autoFilter");
    reveal_strlit("row");
    let piece = crate::xlsx_frame::range_piece("dimension"@, dim);
    crate::xlsx_frame::lemma_range_piece("dimension"@, dim);
    assert("<dimension ref=\""@ =~= "<"@ + "dimension"@ + " ref=\""@) by {
        reveal_strlit("<dimension ref=\"");
        reveal_strlit("<");
        reveal_strlit(" ref=\"");
    }
    assert("<dimension ref=\""@ =~= "<"@ + Seq::<char>::empty() + "dimension ref=\""@) by {
        reveal_strlit("<dimension ref=\"");
        reveal_strlit("<");
        reveal_strlit("dimension ref=\"");
    }
    assert(crate::xlsx_sheet_markup::is_foreign(piece)) by {
        assert("dimension"@.take(9)[0] == 'd');
        assert("sheetData"@[0] == 's');
    }
    assert("dimension"@.len() != "row"@.len());
}

/// Pieces with a range set stay outside of rows.
pub proof fn lemma_ranged_outside(pieces: Seq<Piece>, local: Seq<char>, dim: Seq<char>)
    requires
        are_outside(pieces),
        crate::markup::is_value(dim),
        crate::xlsx_sheet_markup::has_no_bounds(dim),
    ensures
        are_outside(with_first_range(pieces, local, dim)),
        forall|name: Seq<char>|
            crate::xlsx_sheet_markup::has_no_tag(pieces, name)
                ==> #[trigger] crate::xlsx_sheet_markup::has_no_tag(
                with_first_range(pieces, local, dim),
                name,
            ),
{
    let new = with_first_range(pieces, local, dim);
    lemma_first(pieces, 0, local);
    if let Some(k) = first_tag(pieces, local) {
        crate::xlsx_range_markup::lemma_range_kept(pieces[k], dim);
        assert forall|i: int| 0 <= i < new.len() implies (#[trigger] new[i]).is_sound()
            && crate::xlsx_sheet_markup::is_clear(new[i])
            && crate::xlsx_sheet_markup::is_foreign(new[i]) && crate::xlsx_frame::is_no_row(
            new[i],
        ) by {
            assert(pieces[i].is_sound());
        }
        assert forall|name: Seq<char>|
            crate::xlsx_sheet_markup::has_no_tag(
                pieces,
                name,
            ) implies #[trigger] crate::xlsx_sheet_markup::has_no_tag(new, name) by {
            assert forall|i: int|
                0 <= i < new.len() implies !crate::xlsx_sheet_markup::is_tag(
                #[trigger] new[i],
                name,
            ) by {
                assert(!crate::xlsx_sheet_markup::is_tag(pieces[i], name));
            }
        }
    }
}

/// What stands in front of rows stays outside of them when its dimension is set.
pub proof fn lemma_dimensioned_outside(head: Seq<Piece>, dim: Seq<char>)
    requires
        are_outside(head),
        crate::xlsx_sheet_markup::has_no_tag(head, "autoFilter"@),
        crate::markup::is_value(dim),
        crate::xlsx_sheet_markup::has_no_bounds(dim),
    ensures
        are_outside(dimensioned(head, dim)),
        crate::xlsx_sheet_markup::has_no_tag(dimensioned(head, dim), "autoFilter"@),
{
    lemma_ranged_outside(head, "dimension"@, dim);
    lemma_first(head, 0, "worksheet"@);
    if first_tag(head, "dimension"@) is None {
        if let Some(w) = first_tag(head, "worksheet"@) {
            let piece = crate::xlsx_frame::range_piece("dimension"@, dim);
            let new = dimensioned(head, dim);
            lemma_new_dimension(dim);
            assert(seq![piece][0] == piece);
            assert forall|i: int| 0 <= i < new.len() implies (#[trigger] new[i]).is_sound()
                && crate::xlsx_sheet_markup::is_clear(new[i])
                && crate::xlsx_sheet_markup::is_foreign(new[i]) && crate::xlsx_frame::is_no_row(
                new[i],
            ) && !crate::xlsx_sheet_markup::is_tag(new[i], "autoFilter"@) by {
                if i <= w {
                    assert(new[i] == head[i]);
                } else if i == w + 1 {
                    assert(new[i] == piece);
                } else {
                    assert(new[i] == head[i - 1]);
                }
            }
        }
    }
}

/// The parts of a worksheet in its text.
pub proof fn lemma_parts(m: SheetMarkup)
    ensures
        crate::markup::written(m.pieces()) == crate::markup::written(m.head)
            + crate::markup::written(m.middle()) + crate::markup::written(m.tail),
{
    crate::markup::lemma_written_concat(m.head, m.middle());
    crate::markup::lemma_written_concat(m.head + m.middle(), m.tail);
}

/// The tags of the rows.
pub proof fn lemma_rows_pieces(m: SheetMarkup)
    ensures
        rows_open().text() == "<sheetData>"@,
        rows_close().text() == "</sheetData>"@,
        rows_open().is_sound(),
        rows_close().is_sound(),
        crate::xlsx_frame::is_no_row(rows_open()),
        crate::xlsx_frame::is_no_row(rows_close()),
        crate::xlsx_sheet_markup::is_clear(rows_open()),
        !crate::xlsx_sheet_markup::is_tag(rows_open(), "dimension"@),
        !crate::xlsx_sheet_markup::is_tag(rows_open(), "autoFilter"@),
        crate::xlsx_sheet_markup::is_tag(rows_open(), "sheetdata"@),
        match m.rows {
            Some(rows) => crate::markup::written(m.middle()) == "<sheetData>"@
                + crate::markup::written(rows) + "</sheetData>"@,
            None => crate::markup::written(m.middle()) == m.middle()[0].text() && m.middle()[0].text()
                == (if m.spaced {
                "<sheetData />"@
            } else {
                "<sheetData/>"@
            }) && m.middle()[0].is_sound() && crate::xlsx_sheet_markup::is_clear(m.middle()[0])
                && crate::xlsx_sheet_markup::is_tag(m.middle()[0], "sheetdata"@)
                && !crate::xlsx_sheet_markup::is_tag(m.middle()[0], "dimension"@)
                && !crate::xlsx_sheet_markup::is_tag(m.middle()[0], "autoFilter"@),
        },
{
    crate::xlsx_frame::lemma_rows_tag();
    crate::xlsx_markup::lemma_no_attributes();
    reveal_strlit("sheetData");
    reveal_strlit("sheetdata");
    reveal_strlit("dimension");
    reveal_strlit("autoFilter");
    assert("sheetData"@[0] == 's' && "dimension"@[0] == 'd');
    assert(crate::text::same_ignoring_case("sheetData"@, "sheetdata"@));
    match m.rows {
        Some(rows) => {
            crate::markup::lemma_element_text("sheetData"@, Seq::empty(), rows);
        },
        None => {
            let piece = m.middle()[0];
            crate::markup::lemma_written_one(piece);
            reveal_strlit("<");
            reveal_strlit("/>");
            reveal_strlit(" ");
            reveal_strlit("<sheetData />");
            reveal_strlit("<sheetData/>");
            if m.spaced {
                assert("<"@ + ("sheetData"@ + Seq::<char>::empty() + " "@) + "/>"@
                    =~= "<sheetData />"@);
            } else {
                assert("<"@ + ("sheetData"@ + Seq::<char>::empty() + Seq::<char>::empty()) + "/>"@
                    =~= "<sheetData/>"@);
            }
        },
    }
}

/// The rows and their tags hold neither a dimension nor a filter.
pub proof fn lemma_middle(m: SheetMarkup)
    requires
        m.is_tidy(),
    ensures
        crate::xlsx_sheet_markup::all_clear(m.middle()),
        crate::xlsx_sheet_markup::has_no_tag(m.middle(), "dimension"@),
        crate::xlsx_sheet_markup::has_no_tag(m.middle(), "autoFilter"@),
{
    let middle = m.middle();
    lemma_rows_pieces(m);
    assert forall|i: int| 0 <= i < middle.len() implies (#[trigger] middle[i]).is_sound()
        && crate::xlsx_sheet_markup::is_clear(middle[i]) && !crate::xlsx_sheet_markup::is_tag(
        middle[i],
        "dimension"@,
    ) && !crate::xlsx_sheet_markup::is_tag(middle[i], "autoFilter"@) by {
        if let Some(rows) = m.rows {
            if i == 0 {
                assert(middle[i] == rows_open());
            } else if i <= rows.len() {
                assert(middle[i] == rows[i - 1]);
                assert(rows == m.inner());
            } else {
                assert(middle[i] == rows_close());
            }
        }
    }
}

/// What a search for a dimension finds in a worksheet.
pub proof fn lemma_dimension_place(m: SheetMarkup, local: Seq<char>)
    requires
        m.is_tidy(),
    ensures
        ({
            let xml = crate::markup::written(m.pieces());
            &&& first_tag(m.head, local) matches Some(k) ==> crate::xml_patch::tag_from(
                xml,
                0,
                local,
            ) == Some(
                TagSpan {
                    start: crate::markup::written(m.head.take(k)).len() as int,
                    end: (crate::markup::written(m.head.take(k)).len()
                        + m.head[k].text().len()) as int,
                    prefix: Seq::empty(),
                },
            )
            &&& local == "dimension"@ && first_tag(m.head, local) is None
                ==> crate::xml_patch::tag_from(xml, 0, local) is None
        }),
{
    let xml = crate::markup::written(m.pieces());
    let rest = crate::markup::written(m.middle()) + crate::markup::written(m.tail);
    let none = Seq::<char>::empty();
    let w = crate::markup::written(m.head);
    lemma_parts(m);
    lemma_outside(m.head);
    lemma_outside(m.tail);
    lemma_middle(m);
    lemma_found(none, m.head, rest, local);
    assert(none + w + rest =~= xml);
    if local == "dimension"@ && first_tag(m.head, local) is None {
        let mid = crate::markup::written(m.middle());
        let end = crate::markup::written(m.tail);
        crate::xlsx_sheet_markup::lemma_tags_passed(w, m.middle(), end, local);
        crate::xlsx_sheet_markup::lemma_tags_passed(w + mid, m.tail, none, local);
        assert(w + mid + end =~= xml);
        assert(w + mid + end + none =~= xml);
    }
}

/// Setting the dimension of a worksheet changes what stands in front of its rows.
pub proof fn lemma_dimension_set(m: SheetMarkup, dim: Seq<char>)
    requires
        m.is_tidy(),
        crate::xml_utils::escaped_text(dim) == dim,
        crate::markup::is_value(dim),
        crate::xlsx_sheet_markup::has_no_bounds(dim),
    ensures
        crate::xlsx_patch::with_dimension(crate::markup::written(m.pieces()), dim)
            == crate::markup::written(dimensioned(m.head, dim)) + crate::markup::written(
            m.middle(),
        ) + crate::markup::written(m.tail),
{
    let xml = crate::markup::written(m.pieces());
    let rest = crate::markup::written(m.middle()) + crate::markup::written(m.tail);
    let none = Seq::<char>::empty();
    let w = crate::markup::written(m.head);
    lemma_parts(m);
    assert(xml =~= none + w + rest);
    assert(xml =~= w + rest);
    lemma_dimension_place(m, "dimension"@);
    lemma_dimension_place(m, "worksheet"@);
    lemma_first(m.head, 0, "dimension"@);
    lemma_first(m.head, 0, "worksheet"@);
    let new = crate::markup::written(dimensioned(m.head, dim));
    match first_tag(m.head, "dimension"@) {
        Some(k) => {
            let piece = m.head[k];
            crate::xlsx_range_markup::lemma_range_set(piece, dim);
            lemma_piece_replaced(
                none,
                m.head,
                rest,
                k,
                crate::xlsx_range_markup::with_range(piece, dim),
            );
            assert(none + new + rest =~= new + crate::markup::written(m.middle())
                + crate::markup::written(m.tail));
        },
        None => {
            let k = first_tag(m.head, "worksheet"@)->0;
            lemma_new_dimension(dim);
            lemma_piece_added(
                m.head,
                rest,
                k,
                crate::xlsx_frame::range_piece("dimension"@, dim),
            );
            assert(new + rest =~= new + crate::markup::written(m.middle())
                + crate::markup::written(m.tail));
        },
    }
}

/// No tag of the rows stands in what is outside of them.
proof fn lemma_no_rows_in(a: Seq<char>, pieces: Seq<Piece>, b: Seq<char>, j: int)
    requires
        crate::xlsx_sheet_markup::all_clear(pieces),
        crate::xlsx_sheet_markup::all_foreign(pieces),
        a.len() <= j < a.len() + crate::markup::written(pieces).len(),
    ensures
        ({
            let xml = a + crate::markup::written(pieces) + b;
            &&& !crate::xml_utils::stands_at(xml, "<sheetData>"@, j)
            &&& !crate::xml_utils::stands_at(xml, "</sheetData>"@, j)
            &&& !crate::xml_utils::stands_at(xml, "</"@ + Seq::<char>::empty() + "sheetData"@, j)
        }),
{
    crate::xlsx_sheet_markup::lemma_rows_not_among(a, pieces, b, j);
    crate::xlsx_sheet_markup::lemma_rows_tags(a + crate::markup::written(pieces) + b, j);
}

/// The closing tag does not stand at or in the opening one.
proof fn lemma_closing_behind(a: Seq<char>, b: Seq<char>, j: int)
    requires
        a.len() <= j < a.len() + 11,
    ensures
        !crate::xml_utils::stands_at(a + "<sheetData>"@ + b, "</sheetData>"@, j),
{
    reveal_strlit("<sheetData>");
    reveal_strlit("</sheetData>");
    let s = a + "<sheetData>"@ + b;
    if crate::xml_utils::stands_at(s, "</sheetData>"@, j) {
        let here = s.subrange(j, j + 12);
        assert(here == "</sheetData>"@);
        assert(here[0] == s[j] && here[1] == s[j + 1]);
        assert(s[j] == "<sheetData>"@[j - a.len()]);
        if j == a.len() {
            assert(s[j + 1] == "<sheetData>"@[1]);
        }
    }
}

/// The rows are found between their tags.
#[verifier::spinoff_prover]
pub proof fn lemma_rows_found(head: Seq<Piece>, rows: Seq<Piece>, tail: Seq<Piece>)
    requires
        are_outside(head),
        crate::xlsx_sheet_markup::all_clear(rows),
        crate::xlsx_sheet_markup::all_foreign(rows),
    ensures
        ({
            let w = crate::markup::written(head);
            let old = crate::markup::written(rows);
            let xml = w + "<sheetData>"@ + old + "</sheetData>"@ + crate::markup::written(tail);
            &&& crate::xml_patch::find_text(xml, "<sheetData>"@, 0) == Some(w.len() as int)
            &&& crate::xml_patch::find_text(xml, "</sheetData>"@, w.len() as int) == Some(
                w.len() + 11int + old.len(),
            )
            &&& crate::xml_patch::find_text(
                xml,
                "</"@ + Seq::<char>::empty() + "sheetData"@,
                w.len() + 11int,
            ) == Some(w.len() + 11int + old.len())
        }),
{
    let w = crate::markup::written(head);
    let old = crate::markup::written(rows);
    let end = crate::markup::written(tail);
    let xml = w + "<sheetData>"@ + old + "</sheetData>"@ + end;
    let none = Seq::<char>::empty();
    let close = "</"@ + none + "sheetData"@;
    reveal_strlit("<sheetData>");
    reveal_strlit("</sheetData>");
    reveal_strlit("</");
    reveal_strlit("sheetData");
    let n = w.len() as int;
    let m = n + 11 + old.len();
    lemma_outside(head);
    let after = "<sheetData>"@ + old + "</sheetData>"@ + end;
    assert(none + w + after =~= xml);
    assert forall|j: int| 0 <= j < n implies !#[trigger] crate::xml_utils::stands_at(
        xml,
        "<sheetData>"@,
        j,
    ) by {
        lemma_no_rows_in(none, head, after, j);
    }
    crate::xlsx_sheet_markup::lemma_find_on(xml, "<sheetData>"@, 0, n);
    assert(xml.subrange(n, n + 11) =~= "<sheetData>"@);
    let before = w + "<sheetData>"@;
    let behind = "</sheetData>"@ + end;
    assert(before + old + behind =~= xml);
    assert forall|j: int| n <= j < m implies !#[trigger] crate::xml_utils::stands_at(
        xml,
        "</sheetData>"@,
        j,
    ) by {
        if j < n + 11 {
            lemma_closing_behind(w, old + behind, j);
            assert(w + "<sheetData>"@ + (old + behind) =~= xml);
        } else {
            lemma_no_rows_in(before, rows, behind, j);
        }
    }
    crate::xlsx_sheet_markup::lemma_find_on(xml, "</sheetData>"@, n, m);
    assert(xml.subrange(m, m + 12) =~= "</sheetData>"@);
    assert forall|j: int| n + 11 <= j < m implies !#[trigger] crate::xml_utils::stands_at(
        xml,
        close,
        j,
    ) by {
        lemma_no_rows_in(before, rows, behind, j);
    }
    crate::xlsx_sheet_markup::lemma_find_on(xml, close, n + 11, m);
    assert(xml.subrange(m, m + 11) =~= close) by {
        assert forall|i: int| 0 <= i < 11 implies xml[m + i] == close[i] by {
            assert(xml[m + i] == "</sheetData>"@[i]);
        }
    }
}

/// A tag outside of rows is not that of the rows.
pub proof fn lemma_no_rows_tag(pieces: Seq<Piece>)
    requires
        crate::xlsx_sheet_markup::all_foreign(pieces),
    ensures
        crate::xlsx_sheet_markup::has_no_tag(pieces, "sheetdata"@),
{
    reveal_strlit("sheetdata");
    reveal_strlit("sheetData");
    assert forall|i: int| 0 <= i < pieces.len() implies !crate::xlsx_sheet_markup::is_tag(
        #[trigger] pieces[i],
        "sheetdata"@,
    ) by {
        assert(crate::xlsx_sheet_markup::is_foreign(pieces[i]));
        if crate::xlsx_sheet_markup::is_tag(pieces[i], "sheetdata"@) {
            let name = crate::xlsx_sheet_markup::tag_name(pieces[i])->0;
            assert(name.take(9) =~= name);
            assert forall|j: int| 0 <= j < name.len() implies crate::text::ascii_lower(
                #[trigger] name[j],
            ) == crate::text::ascii_lower("sheetData"@[j]) by {
                assert(crate::text::ascii_lower(name[j]) == crate::text::ascii_lower(
                    "sheetdata"@[j],
                ));
            }
        }
    }
}

/// An empty tag that stands for the rows is found.
#[verifier::spinoff_prover]
pub proof fn lemma_empty_rows_found(head: Seq<Piece>, m: SheetMarkup)
    requires
        are_outside(head),
        are_outside(m.tail),
        m.rows is None,
    ensures
        ({
            let w = crate::markup::written(head);
            let mid = crate::markup::written(m.middle());
            let xml = w + mid + crate::markup::written(m.tail);
            let start = w.len() as int;
            let end = start + mid.len();
            &&& crate::xml_patch::find_text(xml, "<sheetData>"@, 0) is None
            &&& crate::xml_patch::tag_from(xml, 0, "sheetdata"@) == Some(
                TagSpan { start, end, prefix: Seq::empty() },
            )
            &&& xml.subrange(start, end) == mid
            &&& crate::xml_patch::ends_with(mid, "/>"@)
        }),
{
    let w = crate::markup::written(head);
    let mid = crate::markup::written(m.middle());
    let after = crate::markup::written(m.tail);
    let xml = w + mid + after;
    let none = Seq::<char>::empty();
    let piece = m.middle()[0];
    lemma_rows_pieces(m);
    lemma_outside(head);
    lemma_outside(m.tail);
    lemma_no_rows_tag(head);
    reveal_strlit("<sheetData>");
    reveal_strlit("<sheetData/>");
    reveal_strlit("<sheetData />");
    reveal_strlit("/>");
    let n = w.len() as int;
    let len = xml.len() as int;
    assert(none + w + (mid + after) =~= xml);
    crate::xlsx_sheet_markup::lemma_tags_passed(none, head, mid + after, "sheetdata"@);
    crate::xlsx_sheet_markup::lemma_tag_here(w, piece, after, "sheetdata"@);
    assert(xml.subrange(n, n + mid.len()) =~= mid);
    assert(mid.subrange(mid.len() - 2, mid.len() as int) =~= "/>"@);
    assert(w + mid + after + none =~= xml);
    assert forall|j: int| 0 <= j < len implies !#[trigger] crate::xml_utils::stands_at(
        xml,
        "<sheetData>"@,
        j,
    ) by {
        if j < n {
            lemma_no_rows_in(none, head, mid + after, j);
        } else if j < n + mid.len() {
            if crate::xml_utils::stands_at(xml, "<sheetData>"@, j) {
                let here = xml.subrange(j, j + 11);
                assert(here == "<sheetData>"@);
                assert(here[0] == xml[j] && here[10] == xml[j + 10]);
                assert(xml[j] == mid[j - n]);
                if j == n {
                    assert(xml[n + 10] == mid[10]);
                }
            }
        } else {
            lemma_no_rows_in(w + mid, m.tail, none, j);
        }
    }
    crate::xlsx_sheet_markup::lemma_find_on(xml, "<sheetData>"@, 0, len);
    assert(!crate::xml_utils::stands_at(xml, "<sheetData>"@, len));
    crate::xml_patch::lemma_find_text(xml, "<sheetData>"@, len);
    if let Some(at) = crate::xml_patch::find_text(xml, "<sheetData>"@, len) {
        assert(crate::xml_utils::stands_at(xml, "<sheetData>"@, at));
    }
}

/// New rows take the place of the old ones, whatever tags these had.
pub proof fn lemma_rows_filled(head: Seq<Piece>, m: SheetMarkup, data: Seq<char>)
    requires
        are_outside(head),
        m.is_tidy(),
    ensures
        crate::xlsx_patch::with_rows(
            crate::markup::written(head) + crate::markup::written(m.middle())
                + crate::markup::written(m.tail),
            data,
        ) == Ok::<Seq<char>, Seq<char>>(
            crate::markup::written(head) + "<sheetData>"@ + data + "</sheetData>"@
                + crate::markup::written(m.tail),
        ),
{
    let w = crate::markup::written(head);
    let mid = crate::markup::written(m.middle());
    let after = crate::markup::written(m.tail);
    let xml = w + mid + after;
    lemma_rows_pieces(m);
    match m.rows {
        Some(rows) => {
            let old = crate::markup::written(rows);
            assert(rows == m.inner());
            assert(xml =~= w + "<sheetData>"@ + old + "</sheetData>"@ + after);
            lemma_rows_found(head, rows, m.tail);
            crate::xlsx_patch::law_rows_are_replaced_in_place(w, old, after, data);
        },
        None => {
            let start = w.len() as int;
            let end = start + mid.len();
            lemma_empty_rows_found(head, m);
            assert(crate::xml_patch::empty_tag_from(xml, 0, "sheetdata"@) == Some((start, end)));
            assert(crate::xml_patch::spliced(
                xml,
                start,
                end,
                "<sheetData>"@ + data + "</sheetData>"@,
            ) =~= w + "<sheetData>"@ + data + "</sheetData>"@ + after);
        },
    }
}

/// Setting the range of the filter changes what stands behind the rows.
pub proof fn lemma_filter_set(
    front: Seq<Piece>,
    rows: Seq<Piece>,
    tail: Seq<Piece>,
    dim: Seq<char>,
)
    requires
        crate::xlsx_sheet_markup::all_clear(front),
        crate::xlsx_sheet_markup::has_no_tag(front, "autoFilter"@),
        crate::xlsx_sheet_markup::all_clear(rows),
        crate::xlsx_sheet_markup::has_no_tag(rows, "autoFilter"@),
        are_outside(tail),
        first_tag(tail, "autoFilter"@) matches Some(f) ==> crate::xlsx_range_markup::has_range(
            tail[f],
        ),
        crate::xml_utils::escaped_text(dim) == dim,
    ensures
        crate::xlsx_patch::with_filter_range(
            crate::markup::written(front + rows + tail),
            dim,
        ) == crate::markup::written(front + rows + with_first_range(tail, "autoFilter"@, dim)),
{
    let local = "autoFilter"@;
    let a = crate::markup::written(front);
    let b = crate::markup::written(rows);
    let c = crate::markup::written(tail);
    let none = Seq::<char>::empty();
    let new = with_first_range(tail, local, dim);
    crate::markup::lemma_written_concat(front, rows);
    crate::markup::lemma_written_concat(front + rows, tail);
    crate::markup::lemma_written_concat(front + rows, new);
    lemma_outside(tail);
    lemma_first(tail, 0, local);
    let xml = crate::markup::written(front + rows + tail);
    assert(none + a + (b + c) =~= xml);
    assert(a + b + c =~= xml);
    assert(a + b + c + none =~= xml);
    crate::xlsx_sheet_markup::lemma_tags_passed(none, front, b + c, local);
    crate::xlsx_sheet_markup::lemma_tags_passed(a, rows, c, local);
    lemma_found(a + b, tail, none, local);
    match first_tag(tail, local) {
        Some(f) => {
            let piece = crate::xlsx_range_markup::with_range(tail[f], dim);
            crate::xlsx_range_markup::lemma_range_set(tail[f], dim);
            lemma_piece_replaced(a + b, tail, none, f, piece);
            assert(a + b + crate::markup::written(new) + none =~= a + b + crate::markup::written(
                new,
            ));
        },
        None => {},
    }
}

pub proof fn lemma_apart_parts(a: Seq<Piece>, b: Seq<Piece>)
    requires
        crate::markup::are_apart(a + b),
    ensures
        crate::markup::are_apart(a),
        crate::markup::are_apart(b),
{
    let all = a + b;
    assert forall|i: int, j: int|
        0 <= i < a.len() && j == i + 1 && j < a.len() implies !(#[trigger] a[i] is Text
        && #[trigger] a[j] is Text) by {
        assert(all[i] == a[i] && all[j] == a[j]);
    }
    assert forall|i: int, j: int|
        0 <= i < b.len() && j == i + 1 && j < b.len() implies !(#[trigger] b[i] is Text
        && #[trigger] b[j] is Text) by {
        assert(all[a.len() + i] == b[i] && all[a.len() + j] == b[j]);
    }
}

pub proof fn lemma_apart_joined(a: Seq<Piece>, b: Seq<Piece>)
    requires
        crate::markup::are_apart(a),
        crate::markup::are_apart(b),
        a.len() > 0 && b.len() > 0 ==> !(a.last() is Text && b[0] is Text),
    ensures
        crate::markup::are_apart(a + b),
{
    let all = a + b;
    assert forall|i: int, j: int|
        0 <= i < all.len() && j == i + 1 && j < all.len() implies !(#[trigger] all[i] is Text
        && #[trigger] all[j] is Text) by {
        if j < a.len() {
            assert(all[i] == a[i] && all[j] == a[j]);
        } else if i >= a.len() {
            assert(all[i] == b[i - a.len()] && all[j] == b[j - a.len()]);
        } else {
            assert(all[i] == a.last() && all[j] == b[0]);
        }
    }
}

/// A piece in the place of another one that opens and closes the same.
proof fn lemma_update_nests(pieces: Seq<Piece>, k: int, new: Piece)
    requires
        0 <= k < pieces.len(),
        crate::markup::are_apart(pieces),
        !(new is Text),
        forall|open: Seq<Seq<char>>| #[trigger] new.nest(open) == pieces[k].nest(open),
    ensures
        crate::markup::are_apart(pieces.update(k, new)),
        forall|open: Seq<Seq<char>>| #[trigger]
            crate::markup::nested(open, pieces.update(k, new)) == crate::markup::nested(
                open,
                pieces,
            ),
{
    let other = pieces.update(k, new);
    let a = pieces.take(k);
    let b = pieces.skip(k + 1);
    assert(pieces =~= a + seq![pieces[k]] + b);
    assert(other =~= a + seq![new] + b);
    assert forall|open: Seq<Seq<char>>| #[trigger]
        crate::markup::nested(open, other) == crate::markup::nested(open, pieces) by {
        crate::markup::lemma_nested_concat(open, a, seq![pieces[k]]);
        crate::markup::lemma_nested_concat(open, a + seq![pieces[k]], b);
        crate::markup::lemma_nested_concat(open, a, seq![new]);
        crate::markup::lemma_nested_concat(open, a + seq![new], b);
        if let Some(inner) = crate::markup::nested(open, a) {
            crate::markup::lemma_nested_one(inner, pieces[k]);
            crate::markup::lemma_nested_one(inner, new);
            assert(new.nest(inner) == pieces[k].nest(inner));
        }
    }
    assert forall|i: int, j: int|
        0 <= i < other.len() && j == i + 1 && j < other.len() implies !(#[trigger] other[i] is Text
        && #[trigger] other[j] is Text) by {
        if i != k && j != k {
            assert(!(pieces[i] is Text && pieces[j] is Text));
        }
    }
}

/// An empty tag behind a piece that is no text opens nothing.
proof fn lemma_insert_nests(pieces: Seq<Piece>, k: int, new: Piece)
    requires
        0 <= k < pieces.len(),
        crate::markup::are_apart(pieces),
        new is Empty,
    ensures
        ({
            let other = pieces.take(k + 1) + seq![new] + pieces.skip(k + 1);
            &&& crate::markup::are_apart(other)
            &&& forall|open: Seq<Seq<char>>| #[trigger]
                crate::markup::nested(open, other) == crate::markup::nested(open, pieces)
        }),
{
    let a = pieces.take(k + 1);
    let b = pieces.skip(k + 1);
    let other = a + seq![new] + b;
    assert(pieces =~= a + b);
    lemma_apart_parts(a, b);
    assert(crate::markup::are_apart(seq![new]));
    lemma_apart_joined(a, seq![new]);
    lemma_apart_joined(a + seq![new], b);
    assert forall|open: Seq<Seq<char>>| #[trigger]
        crate::markup::nested(open, other) == crate::markup::nested(open, pieces) by {
        crate::markup::lemma_nested_concat(open, a, b);
        crate::markup::lemma_nested_concat(open, a, seq![new]);
        crate::markup::lemma_nested_concat(open, a + seq![new], b);
        if let Some(inner) = crate::markup::nested(open, a) {
            crate::markup::lemma_nested_one(inner, new);
        }
    }
}

/// A range that is set opens and closes nothing else.
pub proof fn lemma_range_nests(pieces: Seq<Piece>, local: Seq<char>, dim: Seq<char>)
    requires
        are_outside(pieces),
        crate::markup::are_apart(pieces),
        crate::markup::is_value(dim),
        crate::xlsx_sheet_markup::has_no_bounds(dim),
    ensures
        ({
            let new = with_first_range(pieces, local, dim);
            &&& crate::markup::are_apart(new)
            &&& new.len() == pieces.len()
            &&& pieces.len() > 0 ==> (new[0] is Text) == (pieces[0] is Text)
            &&& forall|open: Seq<Seq<char>>| #[trigger]
                crate::markup::nested(open, new) == crate::markup::nested(open, pieces)
        }),
{
    lemma_first(pieces, 0, local);
    if let Some(k) = first_tag(pieces, local) {
        let piece = crate::xlsx_range_markup::with_range(pieces[k], dim);
        crate::xlsx_range_markup::lemma_range_kept(pieces[k], dim);
        lemma_update_nests(pieces, k, piece);
    }
}

/// A dimension that is set opens and closes nothing else.
pub proof fn lemma_dimension_nests(head: Seq<Piece>, dim: Seq<char>)
    requires
        are_outside(head),
        crate::markup::are_apart(head),
        crate::markup::is_value(dim),
        crate::xlsx_sheet_markup::has_no_bounds(dim),
    ensures
        ({
            let new = dimensioned(head, dim);
            &&& crate::markup::are_apart(new)
            &&& new.len() >= head.len()
            &&& head.len() > 0 ==> (new[0] is Text) == (head[0] is Text)
            &&& forall|open: Seq<Seq<char>>| #[trigger]
                crate::markup::nested(open, new) == crate::markup::nested(open, head)
        }),
{
    lemma_range_nests(head, "dimension"@, dim);
    lemma_first(head, 0, "worksheet"@);
    if first_tag(head, "dimension"@) is None {
        if let Some(w) = first_tag(head, "worksheet"@) {
            lemma_insert_nests(head, w, crate::xlsx_frame::range_piece("dimension"@, dim));
        }
    }
}

} // verus!
