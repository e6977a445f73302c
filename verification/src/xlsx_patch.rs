//! Patching the parts of an XLSX workbook in place: worksheets, shared strings
//! and pivot tables.

use vstd::prelude::*;
use crate::error::{invalid, SpreadsheetResult};
use crate::text::{chars_of, decimal_text, eq_str, string_of};
use crate::xlsx_cells::push_used_range;
use crate::xml_patch::{
    contains_text, find_self_closing, find_tag, has_ending, index_of_text, last_index_of_text,
    push_all, push_text, replace_int_attr, replace_or_add_xml_attribute, splice,
};
use crate::xml_tags::tag_attribute;
use crate::xml_utils::{escape_xml_text, matches_at};

verus! {

/// The range that a sheet with so many rows and columns uses.
pub open spec fn range_ref(rows: int, columns: int) -> Seq<char> {
    if rows > 0 && columns > 0 {
        crate::xlsx_cells::used_range(rows, columns)
    } else {
        "A1"@
    }
}

/// The range that a sheet with so many rows and columns uses.
pub fn dim_ref_for(total_rows: u64, columns: usize) -> (s: String)
    ensures
        s@ == range_ref(total_rows as int, columns as int),
{
    if total_rows > 0 && columns > 0 {
        let mut s = String::new();
        push_used_range(&mut s, total_rows, columns);
        assert(s@ =~= range_ref(total_rows as int, columns as int));
        s
    } else {
        "A1".to_owned()
    }
}

/// The tag with its `ref` attribute set to a range.
pub open spec fn with_ref(
    xml: Seq<char>,
    t: crate::xml_patch::TagSpan,
    dim: Seq<char>,
) -> Seq<char> {
    crate::xml_patch::with_attribute(xml.subrange(t.start, t.end), "ref"@, dim)
}

/// The worksheet with its dimension set. A worksheet without a dimension gets one
/// behind its opening tag.
pub open spec fn with_dimension(xml: Seq<char>, dim: Seq<char>) -> Seq<char> {
    match crate::xml_patch::tag_from(xml, 0, "dimension"@) {
        Some(t) => crate::xml_patch::spliced(xml, t.start, t.end, with_ref(xml, t, dim)),
        None => match crate::xml_patch::tag_from(xml, 0, "worksheet"@) {
            Some(t) => crate::xml_patch::spliced(
                xml,
                t.end,
                t.end,
                "<dimension ref=\""@ + dim + "\"/>"@,
            ),
            None => xml,
        },
    }
}

/// The message for a worksheet whose rows have no end.
pub open spec fn rows_not_closed() -> Seq<char> {
    "XlsxUpdater: <sheetData> element not closed in worksheet XML."@
}

/// The message for a worksheet without rows.
pub open spec fn rows_not_found() -> Seq<char> {
    "XlsxUpdater: <sheetData> element not found in worksheet XML."@
}

/// The worksheet with its rows replaced.
pub open spec fn with_rows(xml: Seq<char>, data: Seq<char>) -> Result<Seq<char>, Seq<char>> {
    match crate::xml_patch::find_text(xml, "<sheetData>"@, 0) {
        Some(start) => match crate::xml_patch::find_text(xml, "</sheetData>"@, start) {
            Some(end) => Ok(crate::xml_patch::spliced(xml, start + 11, end, data)),
            None => Err(rows_not_closed()),
        },
        None => match crate::xml_patch::empty_tag_from(xml, 0, "sheetdata"@) {
            Some((start, end)) => Ok(
                crate::xml_patch::spliced(
                    xml,
                    start,
                    end,
                    "<sheetData>"@ + data + "</sheetData>"@,
                ),
            ),
            None => match crate::xml_patch::tag_from(xml, 0, "sheetdata"@) {
                Some(t) => match crate::xml_patch::find_text(
                    xml,
                    "</"@ + t.prefix + "sheetData"@,
                    t.end,
                ) {
                    Some(end) => Ok(crate::xml_patch::spliced(xml, t.end, end, data)),
                    None => Err(rows_not_closed()),
                },
                None => Err(rows_not_found()),
            },
        },
    }
}

/// The worksheet with the range of its filter set, where it has one.
pub open spec fn with_filter_range(xml: Seq<char>, dim: Seq<char>) -> Seq<char> {
    match crate::xml_patch::tag_from(xml, 0, "autoFilter"@) {
        Some(t) => if crate::xml_patch::occurs(xml.subrange(t.start, t.end), "ref="@) {
            crate::xml_patch::spliced(xml, t.start, t.end, with_ref(xml, t, dim))
        } else {
            xml
        },
        None => xml,
    }
}

/// The worksheet with new rows, and with its dimension and its filter in step with
/// them.
pub open spec fn patched_sheet(
    xml: Seq<char>,
    data: Seq<char>,
    rows: int,
    columns: int,
) -> Result<Seq<char>, Seq<char>> {
    let dim = range_ref(rows, columns);
    match with_rows(with_dimension(xml, dim), data) {
        Ok(filled) => Ok(
            if rows > 0 && columns > 0 {
                with_filter_range(filled, dim)
            } else {
                filled
            },
        ),
        Err(message) => Err(message),
    }
}

/// New rows take the place of the old ones and change nothing else: what stands in
/// front of the opening tag, the tags, and what stands behind the closing tag.
pub proof fn law_rows_are_replaced_in_place(
    head: Seq<char>,
    old_rows: Seq<char>,
    tail: Seq<char>,
    data: Seq<char>,
)
    requires
        crate::xml_patch::find_text(
            head + "<sheetData>"@ + old_rows + "</sheetData>"@ + tail,
            "<sheetData>"@,
            0,
        ) == Some(head.len() as int),
        crate::xml_patch::find_text(
            head + "<sheetData>"@ + old_rows + "</sheetData>"@ + tail,
            "</sheetData>"@,
            head.len() as int,
        ) == Some(head.len() + 11int + old_rows.len()),
    ensures
        with_rows(head + "<sheetData>"@ + old_rows + "</sheetData>"@ + tail, data) == Ok::<
            Seq<char>,
            Seq<char>,
        >(head + "<sheetData>"@ + data + "</sheetData>"@ + tail),
{
    reveal_strlit("<sheetData>");
    let xml = head + "<sheetData>"@ + old_rows + "</sheetData>"@ + tail;
    assert(crate::xml_patch::spliced(
        xml,
        head.len() + 11int,
        head.len() + 11int + old_rows.len(),
        data,
    ) =~= head + "<sheetData>"@ + data + "</sheetData>"@ + tail);
}

fn set_ref(xml: &[char], start: usize, end: usize, dim: &str) -> (r: Vec<char>)
    requires
        start < end <= xml.len(),
    ensures
        r@ == crate::xml_patch::with_attribute(
            xml@.subrange(start as int, end as int),
            "ref"@,
            dim@,
        ),
{
    replace_or_add_xml_attribute(vstd::slice::slice_subrange(xml, start, end), "ref", dim)
}

fn set_dimension(xml: &[char], dim: &str) -> (r: Vec<char>)
    ensures
        r@ == with_dimension(xml@, dim@),
{
    match find_tag(xml, 0, "dimension") {
        Some(t) => {
            let tag = set_ref(xml, t.start, t.end, dim);
            splice(xml, t.start, t.end, &tag)
        },
        None => match find_tag(xml, 0, "worksheet") {
            Some(t) => {
                let mut tag = chars_of("<dimension ref=\"");
                push_text(&mut tag, dim);
                push_text(&mut tag, "\"/>");
                splice(xml, t.end, t.end, &tag)
            },
            None => vstd::slice::slice_to_vec(xml),
        },
    }
}

/// The pattern of the closing tag of the rows.
fn rows_closing(prefix: &Vec<char>) -> (r: String)
    ensures
        r@ == "</"@ + prefix@ + "sheetData"@,
{
    let mut closing = chars_of("</");
    push_all(&mut closing, prefix);
    push_text(&mut closing, "sheetData");
    string_of(&closing)
}

fn set_rows(xml: &[char], data: &[char]) -> (r: SpreadsheetResult<Vec<char>>)
    ensures
        match r {
            Ok(text) => with_rows(xml@, data@) == Ok::<Seq<char>, Seq<char>>(text@),
            Err(e) => with_rows(xml@, data@) matches Err(message) && e.says(message),
        },
{
    proof {
        reveal_strlit("<sheetData>");
        reveal_strlit("</sheetData>");
    }
    match index_of_text(xml, "<sheetData>", 0) {
        Some(start) => match index_of_text(xml, "</sheetData>", start) {
            Some(end) => {
                proof {
                    crate::xml_patch::lemma_find_text(xml@, "<sheetData>"@, 0);
                    crate::xml_patch::lemma_find_text(xml@, "</sheetData>"@, start as int);
                    lemma_tags_apart(xml@, start as int, end as int);
                }
                Ok(splice(xml, start + 11, end, data))
            },
            None => Err(
                invalid("XlsxUpdater: <sheetData> element not closed in worksheet XML."),
            ),
        },
        None => match find_self_closing(xml, "sheetdata") {
            Some((start, end)) => {
                let mut element = chars_of("<sheetData>");
                push_all(&mut element, data);
                push_text(&mut element, "</sheetData>");
                Ok(splice(xml, start, end, &element))
            },
            None => match find_tag(xml, 0, "sheetdata") {
                Some(t) => {
                    let closing = rows_closing(&t.prefix);
                    match index_of_text(xml, closing.as_str(), t.end) {
                        Some(end) => Ok(splice(xml, t.end, end, data)),
                        None => Err(
                            invalid(
                                "XlsxUpdater: <sheetData> element not closed in worksheet XML.",
                            ),
                        ),
                    }
                },
                None => Err(
                    invalid("XlsxUpdater: <sheetData> element not found in worksheet XML."),
                ),
            },
        },
    }
}

/// A closing tag does not start inside the opening one.
proof fn lemma_tags_apart(xml: Seq<char>, start: int, end: int)
    requires
        crate::xml_utils::stands_at(xml, "<sheetData>"@, start),
        crate::xml_utils::stands_at(xml, "</sheetData>"@, end),
        start <= end,
    ensures
        start + 11 <= end,
{
    reveal_strlit("<sheetData>");
    reveal_strlit("</sheetData>");
    let opening = xml.subrange(start, start + 11);
    let closing = xml.subrange(end, end + 12);
    assert(closing[0] == '<' && closing[1] == '/');
    if end < start + 11 {
        assert(opening[end - start] == closing[0]);
        assert(end == start);
        assert(opening[1] == closing[1]);
    }
}

fn set_filter_range(xml: &[char], dim: &str) -> (r: Vec<char>)
    ensures
        r@ == with_filter_range(xml@, dim@),
{
    match find_tag(xml, 0, "autoFilter") {
        Some(t) => {
            if contains_text(vstd::slice::slice_subrange(xml, t.start, t.end), "ref=") {
                let tag = set_ref(xml, t.start, t.end, dim);
                splice(xml, t.start, t.end, &tag)
            } else {
                vstd::slice::slice_to_vec(xml)
            }
        },
        None => vstd::slice::slice_to_vec(xml),
    }
}

/// Replaces the rows of a worksheet, and sets its dimension and its filter.
pub fn patch_sheet_xml(
    sheet_xml: &[char],
    new_sheet_data: &[char],
    total_rows: u64,
    columns: usize,
) -> (r: SpreadsheetResult<Vec<char>>)
    ensures
        match r {
            Ok(text) => patched_sheet(
                sheet_xml@,
                new_sheet_data@,
                total_rows as int,
                columns as int,
            ) == Ok::<Seq<char>, Seq<char>>(text@),
            Err(e) => patched_sheet(
                sheet_xml@,
                new_sheet_data@,
                total_rows as int,
                columns as int,
            ) matches Err(message) && e.says(message),
        },
{
    let dim = dim_ref_for(total_rows, columns);
    let sized = set_dimension(sheet_xml, dim.as_str());
    match set_rows(&sized, new_sheet_data) {
        Ok(filled) => if total_rows > 0 && columns > 0 {
            Ok(set_filter_range(&filled, dim.as_str()))
        } else {
            Ok(filled)
        },
        Err(e) => Err(e),
    }
}

/// A replacement in a worksheet whose rows stand in a file: what goes in front of
/// the rows, whether the rows go in, and what goes behind them.
pub struct Edit {
    pub start: int,
    pub end: int,
    pub before: Seq<char>,
    pub rows: bool,
    pub after: Seq<char>,
}

/// The place where the rows go.
pub open spec fn rows_edit(xml: Seq<char>) -> Result<Edit, Seq<char>> {
    match crate::xml_patch::tag_from(xml, 0, "sheetdata"@) {
        None => Err(rows_not_found()),
        Some(t) => if crate::xml_patch::ends_with(xml.subrange(t.start, t.end), "/>"@) {
            Ok(
                Edit {
                    start: t.start,
                    end: t.end,
                    before: "<"@ + t.prefix + "sheetData>"@,
                    rows: true,
                    after: "</"@ + t.prefix + "sheetData>"@,
                },
            )
        } else {
            match crate::xml_patch::find_text(xml, "</"@ + t.prefix + "sheetData"@, t.end) {
                Some(end) => Ok(
                    Edit {
                        start: t.end,
                        end,
                        before: Seq::empty(),
                        rows: true,
                        after: Seq::empty(),
                    },
                ),
                None => Err(rows_not_closed()),
            }
        },
    }
}

/// The replacement of the dimension.
pub open spec fn dimension_edit(xml: Seq<char>, dim: Seq<char>) -> Option<Edit> {
    match crate::xml_patch::tag_from(xml, 0, "dimension"@) {
        Some(t) => Some(
            Edit {
                start: t.start,
                end: t.end,
                before: with_ref(xml, t, dim),
                rows: false,
                after: Seq::empty(),
            },
        ),
        None => match crate::xml_patch::tag_from(xml, 0, "worksheet"@) {
            Some(t) => Some(
                Edit {
                    start: t.end,
                    end: t.end,
                    before: "<"@ + t.prefix + "dimension ref=\""@ + dim + "\"/>"@,
                    rows: false,
                    after: Seq::empty(),
                },
            ),
            None => None,
        },
    }
}

/// The replacement of the filter.
pub open spec fn filter_edit(xml: Seq<char>, dim: Seq<char>) -> Option<Edit> {
    match crate::xml_patch::tag_from(xml, 0, "autoFilter"@) {
        Some(t) => Some(
            Edit {
                start: t.start,
                end: t.end,
                before: with_ref(xml, t, dim),
                rows: false,
                after: Seq::empty(),
            },
        ),
        None => None,
    }
}

/// One replacement comes before another: it starts earlier, or ends earlier where
/// both start together.
pub open spec fn precedes(a: Edit, b: Edit) -> bool {
    a.start < b.start || (a.start == b.start && a.end < b.end)
}

/// The replacements in order, with one more among them.
pub open spec fn with_edit(list: Seq<Edit>, edit: Edit) -> Seq<Edit>
    decreases list.len(),
{
    if list.len() == 0 || !precedes(edit, list.last()) {
        list.push(edit)
    } else {
        with_edit(list.drop_last(), edit).push(list.last())
    }
}

/// The replacements with one more, if there is one.
pub open spec fn with_optional(list: Seq<Edit>, edit: Option<Edit>) -> Seq<Edit> {
    match edit {
        Some(e) => with_edit(list, e),
        None => list,
    }
}

/// A worksheet around rows that stand in a file: what goes in front of the rows,
/// what goes behind them, whether their place has been met, and how far the
/// worksheet has been taken over.
pub struct Layout {
    pub head: Seq<char>,
    pub tail: Seq<char>,
    pub placed: bool,
    pub cursor: int,
}

/// The message for replacements that overlap.
pub open spec fn edits_overlap() -> Seq<char> {
    "XlsxUpdater: overlapping worksheet replacements."@
}

/// The layout that the first `n` replacements lead to.
pub open spec fn laid_out(xml: Seq<char>, edits: Seq<Edit>, n: nat) -> Result<Layout, Seq<char>>
    decreases n,
{
    if n == 0 {
        Ok(Layout { head: Seq::empty(), tail: Seq::empty(), placed: false, cursor: 0 })
    } else {
        let edit = edits[n - 1];
        match laid_out(xml, edits, (n - 1) as nat) {
            Err(message) => Err(message),
            Ok(l) => if edit.start < l.cursor {
                Err(edits_overlap())
            } else {
                let front = xml.subrange(l.cursor, edit.start) + edit.before;
                Ok(
                    if l.placed {
                        Layout { tail: l.tail + front + edit.after, cursor: edit.end, ..l }
                    } else if edit.rows {
                        Layout {
                            head: l.head + front,
                            tail: edit.after,
                            placed: true,
                            cursor: edit.end,
                        }
                    } else {
                        Layout { head: l.head + front + edit.after, cursor: edit.end, ..l }
                    },
                )
            },
        }
    }
}

/// The worksheet around rows that stand in a file: what goes in front of them and
/// what goes behind.
pub open spec fn around_rows(
    xml: Seq<char>,
    dim: Seq<char>,
) -> Result<(Seq<char>, Seq<char>), Seq<char>> {
    match rows_edit(xml) {
        Err(message) => Err(message),
        Ok(rows) => {
            let edits = with_optional(
                with_optional(seq![rows], dimension_edit(xml, dim)),
                filter_edit(xml, dim),
            );
            match laid_out(xml, edits, edits.len()) {
                Err(message) => Err(message),
                Ok(l) => Ok((l.head, l.tail + xml.skip(l.cursor))),
            }
        },
    }
}

struct PlannedEdit {
    start: usize,
    end: usize,
    before: Vec<char>,
    rows: bool,
    after: Vec<char>,
}

impl View for PlannedEdit {
    type V = Edit;

    closed spec fn view(&self) -> Edit {
        Edit {
            start: self.start as int,
            end: self.end as int,
            before: self.before@,
            rows: self.rows,
            after: self.after@,
        }
    }
}

spec fn planned(list: Seq<PlannedEdit>) -> Seq<Edit> {
    Seq::new(list.len(), |i: int| list[i]@)
}

spec fn within(list: Seq<PlannedEdit>, len: int) -> bool {
    forall|i: int| 0 <= i < list.len() ==> (#[trigger] list[i]).start <= list[i].end <= len
}

fn plan_rows(xml: &[char]) -> (r: SpreadsheetResult<PlannedEdit>)
    ensures
        match r {
            Ok(edit) => rows_edit(xml@) == Ok::<Edit, Seq<char>>(edit@) && edit.start <= edit.end
                <= xml.len() && edit.rows,
            Err(e) => rows_edit(xml@) matches Err(message) && e.says(message),
        },
{
    match find_tag(xml, 0, "sheetdata") {
        None => Err(invalid("XlsxUpdater: <sheetData> element not found in worksheet XML.")),
        Some(t) => {
            if has_ending(vstd::slice::slice_subrange(xml, t.start, t.end), "/>") {
                let mut before = chars_of("<");
                push_all(&mut before, &t.prefix);
                push_text(&mut before, "sheetData>");
                let mut after = chars_of("</");
                push_all(&mut after, &t.prefix);
                push_text(&mut after, "sheetData>");
                Ok(PlannedEdit { start: t.start, end: t.end, before, rows: true, after })
            } else {
                let closing = rows_closing(&t.prefix);
                match index_of_text(xml, closing.as_str(), t.end) {
                    Some(end) => {
                        let before: Vec<char> = Vec::new();
                        let after: Vec<char> = Vec::new();
                        assert(before@ =~= Seq::<char>::empty());
                        assert(after@ =~= Seq::<char>::empty());
                        Ok(PlannedEdit { start: t.end, end, before, rows: true, after })
                    },
                    None => Err(
                        invalid("XlsxUpdater: <sheetData> element not closed in worksheet XML."),
                    ),
                }
            }
        },
    }
}

fn plan_dimension(xml: &[char], dim: &str) -> (r: Option<PlannedEdit>)
    ensures
        match r {
            Some(edit) => dimension_edit(xml@, dim@) == Some(edit@) && edit.start <= edit.end
                <= xml.len(),
            None => dimension_edit(xml@, dim@) is None,
        },
{
    let after: Vec<char> = Vec::new();
    assert(after@ =~= Seq::<char>::empty());
    match find_tag(xml, 0, "dimension") {
        Some(t) => {
            let before = set_ref(xml, t.start, t.end, dim);
            Some(PlannedEdit { start: t.start, end: t.end, before, rows: false, after })
        },
        None => match find_tag(xml, 0, "worksheet") {
            Some(t) => {
                let mut before = chars_of("<");
                push_all(&mut before, &t.prefix);
                push_text(&mut before, "dimension ref=\"");
                push_text(&mut before, dim);
                push_text(&mut before, "\"/>");
                Some(PlannedEdit { start: t.end, end: t.end, before, rows: false, after })
            },
            None => None,
        },
    }
}

fn plan_filter(xml: &[char], dim: &str) -> (r: Option<PlannedEdit>)
    ensures
        match r {
            Some(edit) => filter_edit(xml@, dim@) == Some(edit@) && edit.start <= edit.end
                <= xml.len(),
            None => filter_edit(xml@, dim@) is None,
        },
{
    let after: Vec<char> = Vec::new();
    assert(after@ =~= Seq::<char>::empty());
    match find_tag(xml, 0, "autoFilter") {
        Some(t) => {
            let before = set_ref(xml, t.start, t.end, dim);
            Some(PlannedEdit { start: t.start, end: t.end, before, rows: false, after })
        },
        None => None,
    }
}

fn add_edit(list: &mut Vec<PlannedEdit>, edit: PlannedEdit, Ghost(len): Ghost<int>)
    requires
        within(old(list)@, len),
        edit.start <= edit.end <= len,
    ensures
        within(final(list)@, len),
        planned(final(list)@) == with_edit(planned(old(list)@), edit@),
{
    let ghost start = list@;
    let ghost all = planned(start);
    let mut at: usize = list.len();
    proof {
        assert(all.take(at as int) =~= all);
        assert(with_edit(all, edit@) + all.skip(at as int) =~= with_edit(all, edit@));
    }
    while at > 0 && (edit.start < list[at - 1].start || (edit.start == list[at - 1].start
        && edit.end < list[at - 1].end))
        invariant
            at <= list.len(),
            list@ == start,
            all == planned(start),
            with_edit(all, edit@) == with_edit(all.take(at as int), edit@) + all.skip(at as int),
        decreases at,
    {
        proof {
            let part = all.take(at as int);
            assert(part.last() == start[at - 1]@);
            assert(part.drop_last() =~= all.take(at as int - 1));
            assert(with_edit(part.drop_last(), edit@).push(part.last()) + all.skip(at as int)
                =~= with_edit(all.take(at as int - 1), edit@) + all.skip(at as int - 1));
        }
        at -= 1;
    }
    proof {
        let part = all.take(at as int);
        if at > 0 {
            assert(part.last() == start[at - 1]@);
        }
        assert(with_edit(part, edit@) == part.push(edit@));
    }
    let ghost new = edit@;
    list.insert(at, edit);
    proof {
        assert(planned(list@) =~= all.take(at as int).push(new) + all.skip(at as int));
        assert forall|i: int| 0 <= i < list@.len() implies (#[trigger] list@[i]).start
            <= list@[i].end <= len by {
            if i < at {
                assert(list@[i] == start[i]);
            } else if i > at {
                assert(list@[i] == start[i - 1]);
            }
        }
    }
}

/// Lays a worksheet out around rows that stand in a file: returns what goes in
/// front of the rows and what goes behind them.
pub fn lay_out_around_rows(sheet_xml: &[char], dim: &str) -> (r: SpreadsheetResult<
    (Vec<char>, Vec<char>),
>)
    ensures
        match r {
            Ok((head, tail)) => around_rows(sheet_xml@, dim@) == Ok::<
                (Seq<char>, Seq<char>),
                Seq<char>,
            >((head@, tail@)),
            Err(e) => around_rows(sheet_xml@, dim@) matches Err(message) && e.says(message),
        },
{
    let ghost len = sheet_xml@.len() as int;
    let rows = match plan_rows(sheet_xml) {
        Ok(rows) => rows,
        Err(e) => return Err(e),
    };
    let mut edits: Vec<PlannedEdit> = Vec::new();
    let ghost first = rows@;
    edits.push(rows);
    assert(planned(edits@) =~= seq![first]);
    match plan_dimension(sheet_xml, dim) {
        Some(edit) => add_edit(&mut edits, edit, Ghost(len)),
        None => {},
    }
    match plan_filter(sheet_xml, dim) {
        Some(edit) => add_edit(&mut edits, edit, Ghost(len)),
        None => {},
    }
    let ghost all = planned(edits@);
    let mut head: Vec<char> = Vec::new();
    let mut tail: Vec<char> = Vec::new();
    let mut placed = false;
    let mut cursor: usize = 0;
    let mut i: usize = 0;
    assert(head@ =~= Seq::<char>::empty());
    assert(tail@ =~= Seq::<char>::empty());
    while i < edits.len()
        invariant
            i <= edits.len(),
            len == sheet_xml@.len(),
            within(edits@, len),
            all == planned(edits@),
            cursor <= sheet_xml.len(),
            laid_out(sheet_xml@, all, i as nat) == Ok::<Layout, Seq<char>>(
                Layout { head: head@, tail: tail@, placed, cursor: cursor as int },
            ),
            around_rows(sheet_xml@, dim@) == (match laid_out(sheet_xml@, all, all.len()) {
                Err(message) => Err::<(Seq<char>, Seq<char>), Seq<char>>(message),
                Ok(l) => Ok((l.head, l.tail + sheet_xml@.skip(l.cursor))),
            }),
        decreases edits.len() - i,
    {
        let edit = &edits[i];
        assert(all[i as int] == edit@);
        if edit.start < cursor {
            proof {
                lemma_overlap_stays(sheet_xml@, all, (i + 1) as nat);
            }
            return Err(invalid("XlsxUpdater: overlapping worksheet replacements."));
        }
        let gap = vstd::slice::slice_subrange(sheet_xml, cursor, edit.start);
        let ghost h = head@;
        let ghost t = tail@;
        if placed {
            push_all(&mut tail, gap);
            push_all(&mut tail, &edit.before);
            push_all(&mut tail, &edit.after);
            assert(tail@ =~= t + (gap@ + edit@.before) + edit@.after);
        } else {
            push_all(&mut head, gap);
            push_all(&mut head, &edit.before);
            if edit.rows {
                push_all(&mut tail, &edit.after);
                placed = true;
                proof {
                    lemma_no_tail(sheet_xml@, all, i as nat);
                }
                assert(head@ =~= h + (gap@ + edit@.before));
                assert(tail@ =~= edit@.after);
            } else {
                push_all(&mut head, &edit.after);
                assert(head@ =~= h + (gap@ + edit@.before) + edit@.after);
            }
        }
        cursor = edit.end;
        i += 1;
    }
    push_all(&mut tail, vstd::slice::slice_subrange(sheet_xml, cursor, sheet_xml.len()));
    assert(sheet_xml@.skip(cursor as int) =~= sheet_xml@.subrange(cursor as int, len));
    Ok((head, tail))
}

/// A layout that has failed stays failed.
proof fn lemma_overlap_stays(xml: Seq<char>, edits: Seq<Edit>, n: nat)
    requires
        n <= edits.len(),
        laid_out(xml, edits, n) is Err,
    ensures
        laid_out(xml, edits, edits.len()) == laid_out(xml, edits, n),
    decreases edits.len() - n,
{
    if n < edits.len() {
        lemma_overlap_stays(xml, edits, n + 1);
    }
}

/// Nothing goes behind the rows before their place has been met.
proof fn lemma_no_tail(xml: Seq<char>, edits: Seq<Edit>, n: nat)
    ensures
        laid_out(xml, edits, n) matches Ok(l) ==> !l.placed ==> l.tail == Seq::<char>::empty(),
    decreases n,
{
    if n > 0 {
        lemma_no_tail(xml, edits, (n - 1) as nat);
    }
}

/// The name is made of a prefix, decimal digits or none, and a suffix.
pub open spec fn is_numbered(name: Seq<char>, prefix: Seq<char>, suffix: Seq<char>) -> bool {
    &&& prefix.len() + suffix.len() <= name.len()
    &&& crate::xml_utils::stands_at(name, prefix, 0)
    &&& crate::xml_patch::ends_with(name, suffix)
    &&& forall|i: int|
        prefix.len() <= i < name.len() - suffix.len() ==> crate::text::is_digit(#[trigger] name[i])
}

/// Whether a name is made of a prefix, decimal digits or none, and a suffix.
pub fn is_numbered_part(name: &str, prefix: &str, suffix: &str) -> (b: bool)
    ensures
        b == is_numbered(name@, prefix@, suffix@),
{
    let chars = chars_of(name);
    let front = chars_of(prefix);
    let back = chars_of(suffix);
    if front.len() > chars.len() || back.len() > chars.len() - front.len() {
        return false;
    }
    if !matches_at(&chars, &front, 0) || !has_ending(&chars, suffix) {
        return false;
    }
    let end: usize = chars.len() - back.len();
    let mut i: usize = front.len();
    while i < end
        invariant
            front@ == prefix@,
            chars@ == name@,
            back@ == suffix@,
            front@.len() <= i <= end,
            end == chars@.len() - back@.len(),
            forall|j: int| front@.len() <= j < i ==> crate::text::is_digit(#[trigger] name@[j]),
        decreases end - i,
    {
        if !('0' <= chars[i] && chars[i] <= '9') {
            assert(!crate::text::is_digit(name@[i as int]));
            return false;
        }
        i += 1;
    }
    true
}

/// A pivot cache is defined in this part.
pub fn is_pivot_cache_def(name: &str) -> (b: bool)
    ensures
        b == is_numbered(name@, "xl/pivotCache/pivotCacheDefinition"@, ".xml"@),
{
    is_numbered_part(name, "xl/pivotCache/pivotCacheDefinition", ".xml")
}

/// A pivot table is defined in this part.
pub fn is_pivot_table_def(name: &str) -> (b: bool)
    ensures
        b == is_numbered(name@, "xl/pivotTables/pivotTable"@, ".xml"@),
{
    is_numbered_part(name, "xl/pivotTables/pivotTable", ".xml")
}

/// The opening tag of a pivot cache definition with its record count set.
pub open spec fn with_record_count(tag: Seq<char>, records: int) -> Seq<char> {
    if crate::xml_patch::occurs(tag, "recordCount="@) {
        crate::xml_patch::with_number(tag, "recordCount"@, records)
    } else if !crate::xml_patch::ends_with(tag, "/>"@) {
        tag.drop_last() + " recordCount=\""@ + crate::text::decimal(records) + "\">"@
    } else {
        tag
    }
}

/// The definition of a pivot cache after the rows of its source sheet have been
/// replaced, where the sheet is its source.
pub open spec fn updated_cache(
    xml: Seq<char>,
    sheet: Seq<char>,
    dim: Seq<char>,
    records: int,
) -> Option<Seq<char>> {
    match crate::xml_patch::tag_from(xml, 0, "worksheetSource"@) {
        None => None,
        Some(t) => {
            let tag = xml.subrange(t.start, t.end);
            if crate::xml_tags::attribute(tag, "sheet"@) == Some(sheet) {
                let moved = crate::xml_patch::spliced(
                    xml,
                    t.start,
                    t.end,
                    crate::xml_patch::with_attribute(tag, "ref"@, dim),
                );
                match crate::xml_patch::tag_from(moved, 0, "pivotCacheDefinition"@) {
                    None => Some(moved),
                    Some(root) => Some(
                        crate::xml_patch::spliced(
                            moved,
                            root.start,
                            root.end,
                            with_record_count(moved.subrange(root.start, root.end), records),
                        ),
                    ),
                }
            } else {
                None
            }
        },
    }
}

fn set_record_count(tag: &[char], records: u64) -> (r: Vec<char>)
    requires
        tag.len() > 0,
    ensures
        r@ == with_record_count(tag@, records as int),
{
    if contains_text(tag, "recordCount=") {
        replace_int_attr(tag, "recordCount", records)
    } else if !has_ending(tag, "/>") {
        let mut r = vstd::slice::slice_to_vec(
            vstd::slice::slice_subrange(tag, 0, tag.len() - 1),
        );
        push_text(&mut r, " recordCount=\"");
        let digits = decimal_text(records as i128);
        push_text(&mut r, digits.as_str());
        push_text(&mut r, "\">");
        assert(r@ =~= with_record_count(tag@, records as int));
        r
    } else {
        vstd::slice::slice_to_vec(tag)
    }
}

/// The definition of a pivot cache after the rows of its source sheet have been
/// replaced. `None` where the sheet is not its source.
pub fn update_pivot_cache(xml: &[char], sheet_name: &str, dim_ref: &str, record_count: u64) -> (r:
    Option<Vec<char>>)
    ensures
        match r {
            Some(text) => updated_cache(xml@, sheet_name@, dim_ref@, record_count as int) == Some(
                text@,
            ),
            None => updated_cache(xml@, sheet_name@, dim_ref@, record_count as int) is None,
        },
{
    let t = match find_tag(xml, 0, "worksheetSource") {
        Some(t) => t,
        None => return None,
    };
    let tag = vstd::slice::slice_subrange(xml, t.start, t.end);
    match tag_attribute(tag, "sheet") {
        Some(sheet) => {
            let text = string_of(&sheet);
            if !eq_str(text.as_str(), sheet_name) {
                return None;
            }
        },
        None => return None,
    }
    let new_tag = replace_or_add_xml_attribute(tag, "ref", dim_ref);
    let moved = splice(xml, t.start, t.end, &new_tag);
    match find_tag(&moved, 0, "pivotCacheDefinition") {
        None => Some(moved),
        Some(root) => {
            let new_root = set_record_count(
                vstd::slice::slice_subrange(moved.as_slice(), root.start, root.end),
                record_count,
            );
            Some(splice(&moved, root.start, root.end, &new_root))
        },
    }
}

/// The definition of a pivot table that is refreshed when the workbook is opened,
/// where it did not say so already.
pub open spec fn refreshed_table(xml: Seq<char>) -> Option<Seq<char>> {
    match crate::xml_patch::tag_from(xml, 0, "pivotTableDefinition"@) {
        None => None,
        Some(t) => {
            let tag = xml.subrange(t.start, t.end);
            if crate::xml_patch::occurs(tag, "refreshOnLoad"@) {
                None
            } else {
                Some(
                    crate::xml_patch::spliced(
                        xml,
                        t.start,
                        t.end,
                        if crate::xml_patch::ends_with(tag, "/>"@) {
                            tag.take(tag.len() - 2) + " refreshOnLoad=\"1\"/>"@
                        } else {
                            tag.drop_last() + " refreshOnLoad=\"1\">"@
                        },
                    ),
                )
            }
        },
    }
}

/// Marks a pivot table to be refreshed when the workbook is opened. `None` where
/// there is nothing to change.
pub fn refresh_pivot_table(xml: &[char]) -> (r: Option<Vec<char>>)
    ensures
        match r {
            Some(text) => refreshed_table(xml@) == Some(text@),
            None => refreshed_table(xml@) is None,
        },
{
    let t = match find_tag(xml, 0, "pivotTableDefinition") {
        Some(t) => t,
        None => return None,
    };
    let tag = vstd::slice::slice_subrange(xml, t.start, t.end);
    if contains_text(tag, "refreshOnLoad") {
        return None;
    }
    let closed = has_ending(tag, "/>");
    proof {
        reveal_strlit("/>");
    }
    let kept: usize = if closed {
        tag.len() - 2
    } else {
        tag.len() - 1
    };
    let mut new_tag = vstd::slice::slice_to_vec(vstd::slice::slice_subrange(tag, 0, kept));
    if closed {
        push_text(&mut new_tag, " refreshOnLoad=\"1\"/>");
        assert(new_tag@ =~= tag@.take(tag@.len() - 2) + " refreshOnLoad=\"1\"/>"@);
    } else {
        push_text(&mut new_tag, " refreshOnLoad=\"1\">");
        assert(new_tag@ =~= tag@.drop_last() + " refreshOnLoad=\"1\">"@);
    }
    Some(splice(xml, t.start, t.end, &new_tag))
}

/// White space that a reader could drop stands in the text: at its ends, or as a
/// tabulator or a line break.
pub open spec fn keeps_space(clean: Seq<char>) -> bool {
    clean.len() > 0 && (clean[0] == ' ' || clean.last() == ' ' || clean.contains('\t')
        || clean.contains('\n') || clean.contains('\r'))
}

/// The attribute that keeps the white space of a text, where it needs one.
pub open spec fn space_attr(clean: Seq<char>) -> Seq<char> {
    if keeps_space(clean) {
        " xml:space=\"preserve\""@
    } else {
        Seq::empty()
    }
}

fn needs_space(clean: &[char]) -> (b: bool)
    ensures
        b == keeps_space(clean@),
{
    if clean.len() == 0 {
        return false;
    }
    if clean[0] == ' ' || clean[clean.len() - 1] == ' ' {
        return true;
    }
    let mut i: usize = 0;
    while i < clean.len()
        invariant
            i <= clean.len(),
            forall|j: int| 0 <= j < i ==> clean@[j] != '\t' && clean@[j] != '\n' && clean@[j] != '\r',
        decreases clean.len() - i,
    {
        if clean[i] == '\t' || clean[i] == '\n' || clean[i] == '\r' {
            assert(clean@.contains(clean@[i as int]));
            return true;
        }
        i += 1;
    }
    false
}

/// A text element with its text.
pub open spec fn text_element(prefix: Seq<char>, text: Seq<char>) -> Seq<char> {
    let clean = crate::xml_utils::escaped_text(text);
    "<"@ + prefix + "t"@ + space_attr(clean) + ">"@ + clean + "</"@ + prefix + "t>"@
}

/// Appends a text element with its text.
pub fn push_text_element(out: &mut Vec<char>, prefix: &[char], text: &str)
    ensures
        final(out)@ == old(out)@ + text_element(prefix@, text@),
{
    let ghost before = out@;
    let escaped = escape_xml_text(text);
    let clean = chars_of(escaped.as_str());
    push_text(out, "<");
    push_all(out, prefix);
    push_text(out, "t");
    if needs_space(&clean) {
        push_text(out, " xml:space=\"preserve\"");
    }
    push_text(out, ">");
    push_all(out, &clean);
    push_text(out, "</");
    push_all(out, prefix);
    push_text(out, "t>");
    assert(out@ =~= before + text_element(prefix@, text@));
}

/// An item of the shared strings.
pub open spec fn string_item(prefix: Seq<char>, text: Seq<char>) -> Seq<char> {
    "<"@ + prefix + "si>"@ + text_element(prefix, text) + "</"@ + prefix + "si>"@
}

/// The first `n` of the items of the shared strings.
pub open spec fn string_items(prefix: Seq<char>, texts: Seq<Seq<char>>, n: nat) -> Seq<char>
    decreases n,
{
    if n == 0 {
        Seq::empty()
    } else {
        string_items(prefix, texts, (n - 1) as nat) + string_item(prefix, texts[n - 1])
    }
}

/// The opening tag of the shared strings with its counts set.
pub open spec fn with_counts(tag: Seq<char>, count: int, unique: int) -> Seq<char> {
    crate::xml_patch::with_attribute(
        crate::xml_patch::with_attribute(tag, "count"@, crate::text::decimal(count)),
        "uniqueCount"@,
        crate::text::decimal(unique),
    )
}

/// The shared strings with new counts and with texts added at their end.
pub open spec fn committed_strings(
    xml: Seq<char>,
    count: int,
    unique: int,
    added: Seq<Seq<char>>,
) -> Result<Seq<char>, Seq<char>> {
    match crate::xml_patch::tag_from(xml, 0, "sst"@) {
        None => Err("XlsxUpdater: sharedStrings.xml has no sst element."@),
        Some(t) => {
            let counted = crate::xml_patch::spliced(
                xml,
                t.start,
                t.end,
                with_counts(xml.subrange(t.start, t.end), count, unique),
            );
            match crate::xml_patch::find_last_text(
                counted,
                "</"@ + t.prefix + "sst"@,
                counted.len() as int,
            ) {
                None => Err("XlsxUpdater: sharedStrings.xml has no closing sst element."@),
                Some(at) => Ok(
                    crate::xml_patch::spliced(
                        counted,
                        at,
                        at,
                        string_items(t.prefix, added, added.len()),
                    ),
                ),
            }
        },
    }
}

/// A tag with an attribute set is not empty.
proof fn lemma_attribute_kept(tag: Seq<char>, name: Seq<char>, value: Seq<char>)
    requires
        tag.len() > 0,
    ensures
        crate::xml_patch::with_attribute(tag, name, value).len() > 0,
{
    reveal_strlit("=");
    reveal_strlit(">");
    reveal_strlit("/>");
    crate::xml_patch::lemma_value_span(tag, name + "="@, 0);
}

/// Adds texts at the end of the shared strings and sets their counts.
pub fn append_shared_strings(xml: &[char], count: u64, unique: u64, added: &Vec<String>) -> (r:
    SpreadsheetResult<Vec<char>>)
    ensures
        match r {
            Ok(text) => committed_strings(
                xml@,
                count as int,
                unique as int,
                crate::biff12::texts(added@),
            ) == Ok::<Seq<char>, Seq<char>>(text@),
            Err(e) => committed_strings(
                xml@,
                count as int,
                unique as int,
                crate::biff12::texts(added@),
            ) matches Err(message) && e.says(message),
        },
{
    let t = match find_tag(xml, 0, "sst") {
        Some(t) => t,
        None => return Err(invalid("XlsxUpdater: sharedStrings.xml has no sst element.")),
    };
    let tag = vstd::slice::slice_subrange(xml, t.start, t.end);
    let count_text = decimal_text(count as i128);
    let unique_text = decimal_text(unique as i128);
    let with_count = replace_or_add_xml_attribute(tag, "count", count_text.as_str());
    proof {
        lemma_attribute_kept(tag@, "count"@, count_text@);
    }
    let new_tag = replace_or_add_xml_attribute(&with_count, "uniqueCount", unique_text.as_str());
    let counted = splice(xml, t.start, t.end, &new_tag);
    let mut closing = chars_of("</");
    push_all(&mut closing, &t.prefix);
    push_text(&mut closing, "sst");
    let at: usize = match last_index_of_text(&counted, &closing) {
        Some(at) => at,
        None => return Err(
            invalid("XlsxUpdater: sharedStrings.xml has no closing sst element."),
        ),
    };
    let ghost texts = crate::biff12::texts(added@);
    let mut items: Vec<char> = Vec::new();
    let mut i: usize = 0;
    assert(items@ =~= Seq::<char>::empty());
    while i < added.len()
        invariant
            i <= added.len(),
            texts == crate::biff12::texts(added@),
            items@ == string_items(t.prefix@, texts, i as nat),
        decreases added.len() - i,
    {
        let ghost earlier = items@;
        push_text(&mut items, "<");
        push_all(&mut items, &t.prefix);
        push_text(&mut items, "si>");
        push_text_element(&mut items, &t.prefix, added[i].as_str());
        push_text(&mut items, "</");
        push_all(&mut items, &t.prefix);
        push_text(&mut items, "si>");
        assert(items@ =~= earlier + string_item(t.prefix@, texts[i as int]));
        i += 1;
    }
    Ok(splice(&counted, at, at, &items))
}

} // verus!
