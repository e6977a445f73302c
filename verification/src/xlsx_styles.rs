//! The cell styles of an XLSX worksheet that new rows take over.

use vstd::prelude::*;
use crate::error::{invalid, SpreadsheetResult};
use crate::text::{chars_of, count_bytes, eq_chars, find_place, lower_chars};
use crate::xml_patch::{contains_text, index_of_text, parse_decimal, trimmed_bounds};
use crate::xml_tags::{find_close_tag, find_open_tag, tag_attribute};
use crate::xml_utils::{column_index_of, index_of, matches_at};
use std::collections::HashMap;

verus! {

/// A cell tag starts here.
pub open spec fn starts_cell(s: Seq<char>, at: int) -> bool {
    crate::xml_utils::stands_at(s, "<c"@, at) && (at + 2 >= s.len() || s[at + 2] == ' ' || s[at + 2]
        == '>' || s[at + 2] == '/')
}

/// The first cell tag from `from` on: where it starts, and where its `>` stands.
/// The search ends at a tag without one.
pub open spec fn cell_tag_from(s: Seq<char>, from: int) -> Option<(int, int)>
    decreases s.len() - from,
    when 0 <= from
{
    if from >= s.len() {
        None
    } else if !starts_cell(s, from) {
        cell_tag_from(s, from + 1)
    } else {
        match crate::xml_utils::find_char(s, '>', from) {
            Some(end) => Some((from, end)),
            None => None,
        }
    }
}

/// A cell tag that was found lies in the text.
pub proof fn lemma_cell_tag(s: Seq<char>, from: int)
    requires
        0 <= from,
    ensures
        cell_tag_from(s, from) matches Some((start, end)) ==> from <= start <= end < s.len(),
    decreases s.len() - from,
{
    if from < s.len() {
        crate::xml_utils::lemma_find_char(s, '>', from);
        lemma_cell_tag(s, from + 1);
    }
}

/// The first cell tag from `from` on.
pub fn next_cell_tag(s: &[char], from: usize) -> (r: Option<(usize, usize)>)
    ensures
        match r {
            Some((start, end)) => cell_tag_from(s@, from as int) == Some((start as int, end as int))
                && from <= start <= end < s.len(),
            None => cell_tag_from(s@, from as int) is None,
        },
{
    let opening = chars_of("<c");
    proof {
        reveal_strlit("<c");
    }
    let mut i: usize = from;
    while i < s.len()
        invariant
            from <= i,
            opening@ == "<c"@,
            opening@.len() == 2,
            cell_tag_from(s@, from as int) == cell_tag_from(s@, i as int),
        decreases s.len() - i,
    {
        if matches_at(s, &opening, i) && (i + 2 >= s.len() || s[i + 2] == ' ' || s[i + 2] == '>'
            || s[i + 2] == '/') {
            return match index_of(s, '>', i) {
                Some(end) => Some((i, end)),
                None => None,
            };
        }
        i += 1;
    }
    None
}

/// A cell with a style: its column counted from zero, its row, and its style.
pub struct StyledCell {
    pub col: int,
    pub row: int,
    pub style: int,
}

pub open spec fn is_letter(c: char) -> bool {
    ('a' <= c && c <= 'z') || ('A' <= c && c <= 'Z')
}

/// What ends the letters of a cell reference.
pub open spec fn letter_ends() -> spec_fn(char) -> bool {
    |c: char| !is_letter(c)
}

/// An ASCII small letter as its capital, any other character as it is.
pub open spec fn ascii_upper(c: char) -> char {
    if 'a' <= c && c <= 'z' {
        (c as u32 - 32) as char
    } else {
        c
    }
}

/// The text in capitals.
pub open spec fn capitals(s: Seq<char>) -> Seq<char> {
    Seq::new(s.len(), |i: int| ascii_upper(s[i]))
}

/// The column of a cell reference, counted from zero, and its row.
pub open spec fn reference_place(reference: Seq<char>) -> Option<(int, int)> {
    let split = crate::xml_tags::scan(reference, 0, letter_ends());
    let column = crate::xml_utils::column_number(capitals(reference.take(split)));
    match crate::xml_patch::unsigned_decimal(reference.skip(split), usize::MAX as nat) {
        Some(row) => if 0 < split && column <= usize::MAX {
            Some((column - 1, row as int))
        } else {
            None
        },
        None => None,
    }
}

/// The cell that a tag stands for, where it has a place and a style other than
/// zero.
pub open spec fn styled_cell(tag: Seq<char>) -> Option<StyledCell> {
    match (crate::xml_tags::attribute(tag, "r"@), crate::xml_tags::attribute(tag, "s"@)) {
        (Some(reference), Some(style)) => match (
            reference_place(reference),
            crate::xml_patch::unsigned_decimal(style, usize::MAX as nat),
        ) {
            (Some((col, row)), Some(s)) => if s > 0 {
                Some(StyledCell { col, row, style: s as int })
            } else {
                None
            },
            _ => None,
        },
        _ => None,
    }
}

/// The cells with a style from `from` on.
pub open spec fn styled_cells_from(s: Seq<char>, from: int) -> Seq<StyledCell>
    decreases s.len() - from,
    when 0 <= from
{
    proof {
        lemma_cell_tag(s, from);
    }
    match cell_tag_from(s, from) {
        None => Seq::empty(),
        Some((start, end)) => {
            let rest = styled_cells_from(s, end + 1);
            match styled_cell(s.subrange(start, end)) {
                Some(cell) => seq![cell] + rest,
                None => rest,
            }
        },
    }
}

/// The cells with a style of a worksheet.
pub open spec fn styled_cells(xml: Seq<char>) -> Seq<StyledCell> {
    match crate::xml_patch::find_text(xml, "<sheetData>"@, 0) {
        None => Seq::empty(),
        Some(start) => match crate::xml_patch::find_text(xml, "</sheetData>"@, start) {
            None => Seq::empty(),
            Some(end) => styled_cells_from(xml.subrange(start, end), 0),
        },
    }
}

/// How often a style occurs.
pub struct Tally {
    pub style: int,
    pub count: int,
}

/// The place of a style among those counted.
pub open spec fn tally_place(list: Seq<Tally>, style: int) -> Option<int>
    decreases list.len(),
{
    if list.len() == 0 {
        None
    } else {
        match tally_place(list.drop_last(), style) {
            Some(i) => Some(i),
            None => if list.last().style == style {
                Some(list.len() - 1)
            } else {
                None
            },
        }
    }
}

/// The counts with one more occurrence of a style.
pub open spec fn tallied(list: Seq<Tally>, style: int) -> Seq<Tally> {
    match tally_place(list, style) {
        Some(i) => list.update(i, Tally { style, count: list[i].count + 1 }),
        None => list.push(Tally { style, count: 1 }),
    }
}

/// The first of the styles that occur most often, style zero where there is none.
pub open spec fn top(list: Seq<Tally>) -> Tally
    decreases list.len(),
{
    if list.len() == 0 {
        Tally { style: 0, count: 0 }
    } else {
        let before = top(list.drop_last());
        if list.last().count > before.count {
            list.last()
        } else {
            before
        }
    }
}

/// The styles of a column below the first row, with their counts.
pub open spec fn column_tally(cells: Seq<StyledCell>, col: int) -> Seq<Tally>
    decreases cells.len(),
{
    if cells.len() == 0 {
        Seq::empty()
    } else {
        let before = column_tally(cells.drop_last(), col);
        if cells.last().col == col && cells.last().row != 1 {
            tallied(before, cells.last().style)
        } else {
            before
        }
    }
}

/// The style that new cells of a column take over: the most common one below the
/// first row, the one met first where several are equally common.
pub open spec fn data_style(cells: Seq<StyledCell>, col: int) -> int {
    top(column_tally(cells, col)).style
}

/// The style that a new header of a column takes over: that of the first cell of
/// the first row there.
pub open spec fn header_style(cells: Seq<StyledCell>, col: int) -> int
    decreases cells.len(),
{
    if cells.len() == 0 {
        0
    } else {
        let before = header_style(cells.drop_last(), col);
        if before == 0 && cells.last().col == col && cells.last().row == 1 {
            cells.last().style
        } else {
            before
        }
    }
}

/// How many cells of a column below the first row have a style.
pub open spec fn uses(cells: Seq<StyledCell>, col: int, style: int) -> int
    decreases cells.len(),
{
    if cells.len() == 0 {
        0
    } else {
        uses(cells.drop_last(), col, style) + if cells.last().col == col && cells.last().row != 1
            && cells.last().style == style {
            1int
        } else {
            0
        }
    }
}

proof fn lemma_tally_place(list: Seq<Tally>, style: int)
    ensures
        match tally_place(list, style) {
            Some(i) => 0 <= i < list.len() && list[i].style == style && forall|j: int|
                0 <= j < i ==> #[trigger] list[j].style != style,
            None => forall|j: int| 0 <= j < list.len() ==> #[trigger] list[j].style != style,
        },
    decreases list.len(),
{
    if list.len() > 0 {
        let init = list.drop_last();
        lemma_tally_place(init, style);
        assert forall|j: int| 0 <= j < init.len() implies init[j] == #[trigger] list[j] by {}
    }
}

/// Each style is counted once, with as many occurrences as it has.
proof fn lemma_column_tally(cells: Seq<StyledCell>, col: int)
    ensures
        ({
            let list = column_tally(cells, col);
            &&& forall|i: int, j: int|
                0 <= i < j < list.len() ==> #[trigger] list[i].style != #[trigger] list[j].style
            &&& forall|i: int|
                0 <= i < list.len() ==> 0 < #[trigger] list[i].count <= cells.len()
                    && list[i].count == uses(cells, col, list[i].style)
            &&& forall|style: int|
                #![trigger uses(cells, col, style)]
                uses(cells, col, style) >= 0 && (uses(cells, col, style) > 0 ==> tally_place(
                    list,
                    style,
                ) is Some)
        }),
    decreases cells.len(),
{
    let list = column_tally(cells, col);
    if cells.len() > 0 {
        let init = cells.drop_last();
        let last = cells.last();
        let before = column_tally(init, col);
        lemma_column_tally(init, col);
        lemma_tally_place(before, last.style);
        assert forall|i: int| 0 <= i < list.len() implies 0 < #[trigger] list[i].count
            <= cells.len() && list[i].count == uses(cells, col, list[i].style) by {
            if i < before.len() {
                assert(before[i].style == list[i].style);
            }
        }
        assert forall|style: int|
            #![trigger uses(cells, col, style)]
            uses(cells, col, style) >= 0 && (uses(cells, col, style) > 0 ==> tally_place(
                list,
                style,
            ) is Some) by {
            assert(uses(init, col, style) >= 0);
            lemma_tally_place(before, style);
            lemma_tally_place(list, style);
            if let Some(i) = tally_place(before, style) {
                assert(list[i].style == style);
            }
            if last.col == col && last.row != 1 && last.style == style {
                let i = match tally_place(before, style) {
                    Some(i) => i,
                    None => before.len() as int,
                };
                assert(list[i].style == style);
            }
        }
    }
}

proof fn lemma_top(list: Seq<Tally>)
    requires
        forall|i: int| 0 <= i < list.len() ==> 0 < #[trigger] list[i].count,
    ensures
        forall|i: int| 0 <= i < list.len() ==> #[trigger] list[i].count <= top(list).count,
        list.len() > 0 ==> exists|i: int| 0 <= i < list.len() && #[trigger] list[i] == top(list),
    decreases list.len(),
{
    if list.len() > 0 {
        let init = list.drop_last();
        assert forall|i: int| 0 <= i < init.len() implies 0 < #[trigger] init[i].count by {
            assert(init[i] == list[i]);
        }
        lemma_top(init);
        assert forall|i: int| 0 <= i < list.len() implies #[trigger] list[i].count <= top(
            list,
        ).count by {
            if i < init.len() {
                assert(init[i] == list[i]);
            }
        }
        if list.last().count > top(init).count {
            assert(list[list.len() - 1] == top(list));
        } else {
            assert(init.len() > 0);
            let i = choose|i: int| 0 <= i < init.len() && #[trigger] init[i] == top(init);
            assert(list[i] == top(list));
        }
    }
}

/// The style that a column's new cells take over is as common in the column as
/// any other, and is zero only where no cell of the column has a style.
pub proof fn law_inherited_style_is_most_common(cells: Seq<StyledCell>, col: int, other: int)
    requires
        forall|i: int| 0 <= i < cells.len() ==> #[trigger] cells[i].style > 0,
    ensures
        uses(cells, col, other) <= uses(cells, col, data_style(cells, col)) || uses(
            cells,
            col,
            other,
        ) == 0,
        data_style(cells, col) == 0 ==> uses(cells, col, other) == 0,
{
    let list = column_tally(cells, col);
    lemma_column_tally(cells, col);
    lemma_top(list);
    lemma_tally_place(list, other);
    assert(uses(cells, col, other) >= 0);
    if uses(cells, col, other) > 0 {
        let i = tally_place(list, other)->0;
        assert(list[i].count == uses(cells, col, other));
        let k = choose|k: int| 0 <= k < list.len() && #[trigger] list[k] == top(list);
        assert(list[k].count == uses(cells, col, list[k].style));
        lemma_tally_styles(cells, col, k);
    }
}

/// Styles are counted only where cells have them.
proof fn lemma_tally_styles(cells: Seq<StyledCell>, col: int, k: int)
    requires
        0 <= k < column_tally(cells, col).len(),
        forall|i: int| 0 <= i < cells.len() ==> #[trigger] cells[i].style > 0,
    ensures
        column_tally(cells, col)[k].style > 0,
    decreases cells.len(),
{
    if cells.len() > 0 {
        let init = cells.drop_last();
        assert forall|i: int| 0 <= i < init.len() implies #[trigger] init[i].style > 0 by {
            assert(init[i] == cells[i]);
        }
        let before = column_tally(init, col);
        lemma_tally_place(before, cells.last().style);
        assert(cells[cells.len() - 1].style > 0);
        if k < before.len() {
            lemma_tally_styles(init, col, k);
        }
    }
}

/// How often a style occurs.
#[derive(Clone, Copy)]
pub struct StyleCount {
    pub style: usize,
    pub count: usize,
}

/// The counts of a list.
pub open spec fn tally_of(list: Seq<StyleCount>) -> Seq<Tally> {
    Seq::new(
        list.len(),
        |i: int| Tally { style: list[i].style as int, count: list[i].count as int },
    )
}

/// The styles that the cells of a worksheet have.
pub struct ExistingStyles {
    cells: Ghost<Seq<StyledCell>>,
    counts: HashMap<usize, Vec<StyleCount>>,
    headers: HashMap<usize, usize>,
}

impl View for ExistingStyles {
    type V = Seq<StyledCell>;

    closed spec fn view(&self) -> Seq<StyledCell> {
        self.cells@
    }
}

impl ExistingStyles {
    spec fn counted(self, col: usize) -> Seq<Tally> {
        if self.counts@.contains_key(col) {
            tally_of(self.counts@[col]@)
        } else {
            Seq::empty()
        }
    }

    spec fn header(self, col: usize) -> int {
        if self.headers@.contains_key(col) {
            self.headers@[col] as int
        } else {
            0
        }
    }

    pub closed spec fn wf(self) -> bool {
        &&& forall|col: usize| #[trigger] self.counted(col) == column_tally(self@, col as int)
        &&& forall|col: usize| #[trigger] self.header(col) == header_style(self@, col as int)
        &&& forall|col: usize| #[trigger]
            self.headers@.contains_key(col) ==> self.headers@[col] > 0
        &&& forall|i: int| 0 <= i < self@.len() ==> #[trigger] self@[i].style > 0
    }

    /// No styles.
    pub fn new() -> (r: Self)
        ensures
            r.wf(),
            r@ == Seq::<StyledCell>::empty(),
    {
        broadcast use vstd::std_specs::hash::group_hash_axioms;

        ExistingStyles {
            cells: Ghost(Seq::empty()),
            counts: HashMap::new(),
            headers: HashMap::new(),
        }
    }

    /// Notes a cell with a style.
    pub fn note(&mut self, col: usize, row: usize, style: usize)
        requires
            old(self).wf(),
            old(self)@.len() < usize::MAX,
            style > 0,
        ensures
            final(self).wf(),
            final(self)@ == old(self)@.push(
                StyledCell { col: col as int, row: row as int, style: style as int },
            ),
    {
        broadcast use vstd::std_specs::hash::group_hash_axioms;

        let ghost before = *self;
        let ghost cell = StyledCell { col: col as int, row: row as int, style: style as int };
        self.cells = Ghost(self.cells@.push(cell));
        assert(self@.drop_last() =~= before@);
        if row == 1 {
            if !self.headers.contains_key(&col) {
                self.headers.insert(col, style);
            } else {
                assert(before.header(col) != 0);
            }
            proof {
                assert forall|c: usize| #[trigger] self.counted(c) == column_tally(
                    self@,
                    c as int,
                ) by {
                    assert(before.counted(c) == column_tally(before@, c as int));
                }
                assert forall|c: usize| #[trigger] self.header(c) == header_style(
                    self@,
                    c as int,
                ) by {
                    assert(before.header(c) == header_style(before@, c as int));
                }
            }
        } else {
            let mut list = match self.counts.remove(&col) {
                Some(list) => list,
                None => Vec::new(),
            };
            let ghost tally = tally_of(list@);
            proof {
                assert(before.counted(col) == column_tally(before@, col as int));
                assert(tally =~= before.counted(col));
                lemma_column_tally(before@, col as int);
                lemma_tally_place(tally, style as int);
            }
            let mut i: usize = 0;
            while i < list.len() && list[i].style != style
                invariant
                    i <= list.len(),
                    tally == tally_of(list@),
                    forall|j: int| 0 <= j < i ==> #[trigger] tally[j].style != style,
                decreases list.len() - i,
            {
                assert(tally[i as int].style == list@[i as int].style);
                i += 1;
            }
            if i < list.len() {
                assert(tally[i as int].style == style);
                assert(tally_place(tally, style as int) == Some(i as int));
                assert(0 < tally[i as int].count <= before@.len());
                let n: usize = list[i].count;
                list[i] = StyleCount { style, count: n + 1 };
            } else {
                assert(tally_place(tally, style as int) is None) by {
                    lemma_tally_place(tally, style as int);
                    if let Some(k) = tally_place(tally, style as int) {
                        assert(tally[k].style == style);
                    }
                }
                list.push(StyleCount { style, count: 1 });
            }
            assert(tally_of(list@) =~= tallied(tally, style as int));
            self.counts.insert(col, list);
            proof {
                assert forall|c: usize| #[trigger] self.counted(c) == column_tally(
                    self@,
                    c as int,
                ) by {
                    assert(before.counted(c) == column_tally(before@, c as int));
                }
                assert forall|c: usize| #[trigger] self.header(c) == header_style(
                    self@,
                    c as int,
                ) by {
                    assert(before.header(c) == header_style(before@, c as int));
                }
            }
        }
        proof {
            assert forall|i: int| 0 <= i < self@.len() implies #[trigger] self@[i].style > 0 by {
                if i < before@.len() {
                    assert(self@[i] == before@[i]);
                }
            }
        }
    }

    /// The style that new cells of a column take over.
    pub fn data_style_of(&self, col: usize) -> (style: usize)
        requires
            self.wf(),
        ensures
            style == data_style(self@, col as int),
    {
        broadcast use vstd::std_specs::hash::group_hash_axioms;

        assert(self.counted(col) == column_tally(self@, col as int));
        match self.counts.get(&col) {
            None => 0,
            Some(list) => {
                let mut best: usize = 0;
                let mut most: usize = 0;
                let mut i: usize = 0;
                let ghost tally = tally_of(list@);
                while i < list.len()
                    invariant
                        i <= list.len(),
                        tally == tally_of(list@),
                        top(tally.take(i as int)) == (Tally {
                            style: best as int,
                            count: most as int,
                        }),
                    decreases list.len() - i,
                {
                    proof {
                        assert(tally.take(i as int + 1).drop_last() =~= tally.take(i as int));
                        assert(tally.take(i as int + 1).last() == tally[i as int]);
                    }
                    if list[i].count > most {
                        best = list[i].style;
                        most = list[i].count;
                    }
                    i += 1;
                }
                assert(tally.take(i as int) =~= tally);
                best
            },
        }
    }

    /// The style that a new header of a column takes over.
    pub fn header_style_of(&self, col: usize) -> (style: usize)
        requires
            self.wf(),
        ensures
            style == header_style(self@, col as int),
    {
        broadcast use vstd::std_specs::hash::group_hash_axioms;

        assert(self.header(col) == header_style(self@, col as int));
        match self.headers.get(&col) {
            Some(style) => *style,
            None => 0,
        }
    }
}

/// The place that a cell reference names.
fn place_of(reference: &[char]) -> (r: Option<(usize, usize)>)
    ensures
        match r {
            Some((col, row)) => reference_place(reference@) == Some((col as int, row as int)),
            None => reference_place(reference@) is None,
        },
{
    let mut letters: Vec<char> = Vec::new();
    let mut split: usize = 0;
    while split < reference.len() && (('a' <= reference[split] && reference[split] <= 'z') || (
    'A' <= reference[split] && reference[split] <= 'Z'))
        invariant
            split <= reference.len(),
            forall|j: int| 0 <= j < split ==> is_letter(#[trigger] reference@[j]),
            crate::xml_tags::scan(reference@, 0, letter_ends()) == crate::xml_tags::scan(
                reference@,
                split as int,
                letter_ends(),
            ),
            letters@ == capitals(reference@.take(split as int)),
        decreases reference.len() - split,
    {
        let c = reference[split];
        let upper = if 'a' <= c && c <= 'z' {
            ((c as u8) - 32) as char
        } else {
            c
        };
        let ghost earlier = letters@;
        letters.push(upper);
        assert(letters@ =~= capitals(reference@.take(split as int + 1))) by {
            assert(upper == ascii_upper(c));
            assert forall|j: int| 0 <= j < split implies earlier[j] == ascii_upper(
                reference@[j],
            ) by {
                assert(reference@.take(split as int)[j] == reference@[j]);
            }
        }
        split += 1;
    }
    assert(crate::xml_tags::scan(reference@, 0, letter_ends()) == split);
    if split == 0 {
        return None;
    }
    proof {
        assert forall|i: int| 0 <= i < letters@.len() implies crate::xml_utils::is_capital(
            #[trigger] letters@[i],
        ) by {
            assert(is_letter(reference@[i]));
            assert(letters@[i] == ascii_upper(reference@[i]));
        }
        assert(crate::xml_utils::is_column_name(letters@));
    }
    let col: usize = match column_index_of(&letters) {
        Some(col) => col,
        None => return None,
    };
    let digits = vstd::slice::slice_subrange(reference, split, reference.len());
    assert(digits@ =~= reference@.skip(split as int));
    match parse_decimal(digits, usize::MAX as u64) {
        Some(row) => Some((col, row as usize)),
        None => None,
    }
}

/// The column, the row and the style of the cell that a tag stands for.
fn read_styled_cell(tag: &[char]) -> (r: Option<(usize, usize, usize)>)
    ensures
        match r {
            Some((col, row, style)) => styled_cell(tag@) == Some(
                StyledCell { col: col as int, row: row as int, style: style as int },
            ) && style > 0,
            None => styled_cell(tag@) is None,
        },
{
    let reference = match tag_attribute(tag, "r") {
        Some(reference) => reference,
        None => return None,
    };
    let style_text = match tag_attribute(tag, "s") {
        Some(style) => style,
        None => return None,
    };
    match (place_of(&reference), parse_decimal(&style_text, usize::MAX as u64)) {
        (Some((col, row)), Some(style)) => if style > 0 {
            Some((col, row, style as usize))
        } else {
            None
        },
        _ => None,
    }
}

/// Collects the styles that the cells of a worksheet have.
pub fn collect_existing_styles(sheet_xml: &[char]) -> (styles: ExistingStyles)
    ensures
        styles.wf(),
        styles@ == styled_cells(sheet_xml@),
{
    let mut styles = ExistingStyles::new();
    let start: usize = match index_of_text(sheet_xml, "<sheetData>", 0) {
        Some(start) => start,
        None => return styles,
    };
    let end: usize = match index_of_text(sheet_xml, "</sheetData>", start) {
        Some(end) => end,
        None => return styles,
    };
    let region = vstd::slice::slice_subrange(sheet_xml, start, end);
    let mut search: usize = 0;
    assert(styles@ + styled_cells_from(region@, 0) =~= styled_cells_from(region@, 0));
    loop
        invariant
            styles.wf(),
            search <= region.len(),
            styles@.len() <= search,
            styles@ + styled_cells_from(region@, search as int) == styled_cells_from(region@, 0),
            styled_cells(sheet_xml@) == styled_cells_from(region@, 0),
        decreases region.len() - search,
    {
        match next_cell_tag(region, search) {
            None => {
                assert(styles@ + Seq::<StyledCell>::empty() =~= styles@);
                return styles;
            },
            Some((from, to)) => {
                let ghost before = styles@;
                match read_styled_cell(vstd::slice::slice_subrange(region, from, to)) {
                    Some((col, row, style)) => {
                        styles.note(col, row, style);
                    },
                    None => {},
                }
                assert(styles@ + styled_cells_from(region@, to + 1) =~= before
                    + styled_cells_from(region@, search as int));
                search = to + 1;
            },
        }
    }
}

/// The value behind the type attribute that stands at `at` of the tag in lower case
/// says that the cell points at a shared string.
pub open spec fn shared_type_at(tag: Seq<char>, at: int) -> bool {
    crate::xml_utils::stands_at(crate::text::lowered(tag), "t="@, at) && (
    match crate::xml_patch::place_behind_key(tag, "t="@, at) {
        Some(quote) => quote < tag.len() && (tag[quote] == '"' || tag[quote] == '\'') && (
        match crate::xml_utils::find_char(tag, tag[quote], quote + 1) {
            Some(end) => crate::xml_patch::trimmed(tag.subrange(quote + 1, end)) == "s"@,
            None => false,
        }),
        None => false,
    })
}

/// A cell tag points at a shared string.
pub open spec fn points_at_string(tag: Seq<char>) -> bool {
    exists|at: int|
        0 <= at < crate::text::lowered(tag).len() && #[trigger] shared_type_at(tag, at)
}

fn has_t_s_attr(tag: &[char]) -> (b: bool)
    ensures
        b == points_at_string(tag@),
{
    let key = chars_of("t=");
    let shared = chars_of("s");
    let lower = lower_chars(tag);
    let width: u128 = count_bytes(&key, key.len());
    let mut at: usize = 0;
    while at < lower.len()
        invariant
            at <= lower.len(),
            key@ == "t="@,
            shared@ == "s"@,
            lower@ == crate::text::lowered(tag@),
            width == crate::text::bytes_before(key@, key@.len() as int),
            width <= 4 * key.len(),
            forall|j: int| 0 <= j < at ==> !#[trigger] shared_type_at(tag@, j),
        decreases lower.len() - at,
    {
        if matches_at(&lower, &key, at) {
            match find_place(tag, count_bytes(&lower, at) + width) {
                Some(quote) => {
                    if quote < tag.len() && (tag[quote] == '"' || tag[quote] == '\'') {
                        match index_of(tag, tag[quote], quote + 1) {
                            Some(end) => {
                                let (a, b) = trimmed_bounds(tag, quote + 1, end);
                                if eq_chars(vstd::slice::slice_subrange(tag, a, b), &shared) {
                                    assert(shared_type_at(tag@, at as int));
                                    return true;
                                }
                            },
                            None => {},
                        }
                    }
                },
                None => {},
            }
        }
        at += 1;
    }
    false
}

/// How many cells from `from` on point at a shared string.
pub open spec fn string_refs_from(s: Seq<char>, from: int) -> nat
    decreases s.len() - from,
    when 0 <= from
{
    proof {
        lemma_cell_tag(s, from);
    }
    match cell_tag_from(s, from) {
        None => 0,
        Some((start, end)) => string_refs_from(s, end + 1) + if points_at_string(
            s.subrange(start, end),
        ) {
            1nat
        } else {
            0
        },
    }
}

/// Counts the cells of a worksheet that point at a shared string.
pub fn shared_string_ref_count(sheet_xml: &[char]) -> (count: usize)
    ensures
        count == string_refs_from(sheet_xml@, 0),
{
    let mut count: usize = 0;
    let mut search: usize = 0;
    loop
        invariant
            search <= sheet_xml.len(),
            count <= search,
            count + string_refs_from(sheet_xml@, search as int) == string_refs_from(
                sheet_xml@,
                0,
            ),
        decreases sheet_xml.len() - search,
    {
        match next_cell_tag(sheet_xml, search) {
            None => return count,
            Some((start, end)) => {
                if has_t_s_attr(vstd::slice::slice_subrange(sheet_xml, start, end)) {
                    count += 1;
                }
                search = end + 1;
            },
        }
    }
}

/// A number format shows a date, by a rough look at its code.
pub open spec fn looks_dated(code: Seq<char>) -> bool {
    let lower = crate::text::lowered(code);
    crate::xml_patch::occurs(lower, "yy"@) || crate::xml_patch::occurs(lower, "mm"@)
        || crate::xml_patch::occurs(lower, "dd"@) || crate::xml_patch::occurs(lower, "h:mm"@)
}

/// The identifier of the number format that a tag declares, where it shows a date.
pub open spec fn dated_format(tag: Seq<char>) -> Option<int> {
    match (
        crate::xml_tags::attribute(tag, "numFmtId"@),
        crate::xml_tags::attribute(tag, "formatCode"@),
    ) {
        (Some(id), Some(code)) => match crate::xml_patch::unsigned_decimal(id, u16::MAX as nat) {
            Some(n) => if looks_dated(code) {
                Some(n as int)
            } else {
                None
            },
            None => None,
        },
        _ => None,
    }
}

/// The identifiers of the number formats declared from `from` on that show a date,
/// behind those already known.
pub open spec fn dated_formats_from(xml: Seq<char>, from: int, known: Seq<int>) -> Seq<int>
    decreases xml.len() - from,
    when 0 <= from
{
    proof {
        crate::xml_tags::lemma_open_tag(xml, from, "numFmt"@);
    }
    match crate::xml_tags::open_tag_from(xml, from, "numFmt"@) {
        None => known,
        Some((start, end)) => dated_formats_from(
            xml,
            end,
            match dated_format(xml.subrange(start, end)) {
                Some(id) => known.push(id),
                None => known,
            },
        ),
    }
}

/// A number format that shows dates: a built-in one, or one of those declared.
pub open spec fn is_dated(id: int, declared: Seq<int>) -> bool {
    14 <= id <= 22 || 45 <= id <= 47 || declared.contains(id)
}

/// The number format of a cell format, zero where the tag gives none.
pub open spec fn format_of(tag: Seq<char>) -> int {
    match crate::xml_tags::attribute(tag, "numFmtId"@) {
        Some(id) => match crate::xml_patch::unsigned_decimal(id, u16::MAX as nat) {
            Some(n) => n as int,
            None => 0,
        },
        None => 0,
    }
}

/// The index of the first cell format from `from` on that shows dates.
pub open spec fn dated_style_from(
    section: Seq<char>,
    from: int,
    index: int,
    declared: Seq<int>,
) -> Option<int>
    decreases section.len() - from,
    when 0 <= from
{
    proof {
        crate::xml_tags::lemma_open_tag(section, from, "xf"@);
    }
    match crate::xml_tags::open_tag_from(section, from, "xf"@) {
        None => None,
        Some((start, end)) => if is_dated(format_of(section.subrange(start, end)), declared) {
            Some(index)
        } else {
            dated_style_from(section, end, index + 1, declared)
        },
    }
}

/// The style for dates that a style part offers.
pub open spec fn date_style(xml: Seq<char>) -> Result<Option<int>, Seq<char>> {
    match crate::xml_tags::open_tag_from(xml, 0, "cellXfs"@) {
        None => Ok(None),
        Some((_, start)) => match crate::xml_tags::close_tag_from(xml, start, "cellXfs"@) {
            None => Err("XlsxUpdater: cellXfs is not closed."@),
            Some(end) => Ok(
                dated_style_from(
                    xml.subrange(start, end),
                    0,
                    0,
                    dated_formats_from(xml, 0, Seq::empty()),
                ),
            ),
        },
    }
}

/// The numbers of a list.
pub open spec fn format_ids(list: Seq<u16>) -> Seq<int> {
    Seq::new(list.len(), |i: int| list[i] as int)
}

fn read_dated_format(tag: &[char]) -> (r: Option<u16>)
    ensures
        match r {
            Some(id) => dated_format(tag@) == Some(id as int),
            None => dated_format(tag@) is None,
        },
{
    let id_text = match tag_attribute(tag, "numFmtId") {
        Some(id) => id,
        None => return None,
    };
    let code = match tag_attribute(tag, "formatCode") {
        Some(code) => code,
        None => return None,
    };
    match parse_decimal(&id_text, u16::MAX as u64) {
        Some(id) => {
            let lower = lower_chars(&code);
            if contains_text(&lower, "yy") || contains_text(&lower, "mm") || contains_text(
                &lower,
                "dd",
            ) || contains_text(&lower, "h:mm") {
                Some(id as u16)
            } else {
                None
            }
        },
        None => None,
    }
}

fn read_dated_formats(xml: &[char]) -> (list: Vec<u16>)
    ensures
        format_ids(list@) == dated_formats_from(xml@, 0, Seq::empty()),
{
    let local = chars_of("numFmt");
    let mut list: Vec<u16> = Vec::new();
    let mut search: usize = 0;
    assert(format_ids(list@) =~= Seq::<int>::empty());
    loop
        invariant
            local@ == "numFmt"@,
            search <= xml.len(),
            dated_formats_from(xml@, 0, Seq::empty()) == dated_formats_from(
                xml@,
                search as int,
                format_ids(list@),
            ),
        decreases xml.len() - search,
    {
        match find_open_tag(xml, search, &local) {
            None => return list,
            Some((start, end)) => {
                let ghost before = format_ids(list@);
                match read_dated_format(vstd::slice::slice_subrange(xml, start, end)) {
                    Some(id) => {
                        list.push(id);
                        assert(format_ids(list@) =~= before.push(id as int));
                    },
                    None => {},
                }
                search = end;
            },
        }
    }
}

fn is_dated_format(id: u16, declared: &Vec<u16>) -> (b: bool)
    ensures
        b == is_dated(id as int, format_ids(declared@)),
{
    if (14 <= id && id <= 22) || (45 <= id && id <= 47) {
        return true;
    }
    let mut i: usize = 0;
    while i < declared.len()
        invariant
            i <= declared.len(),
            forall|j: int| 0 <= j < i ==> format_ids(declared@)[j] != id,
        decreases declared.len() - i,
    {
        if declared[i] == id {
            assert(format_ids(declared@)[i as int] == id);
            return true;
        }
        i += 1;
    }
    false
}

/// The style for dates that a style part offers, if any.
pub fn find_date_style_index(xml: &[char]) -> (r: SpreadsheetResult<Option<usize>>)
    ensures
        match r {
            Ok(Some(style)) => date_style(xml@) == Ok::<Option<int>, Seq<char>>(
                Some(style as int),
            ),
            Ok(None) => date_style(xml@) == Ok::<Option<int>, Seq<char>>(None),
            Err(e) => date_style(xml@) matches Err(message) && e.says(message),
        },
{
    let declared = read_dated_formats(xml);
    let list_name = chars_of("cellXfs");
    let local = chars_of("xf");
    let start: usize = match find_open_tag(xml, 0, &list_name) {
        Some((_, start)) => start,
        None => return Ok(None),
    };
    let end: usize = match find_close_tag(xml, start, &list_name) {
        Some(end) => end,
        None => return Err(invalid("XlsxUpdater: cellXfs is not closed.")),
    };
    let section = vstd::slice::slice_subrange(xml, start, end);
    let ghost ids = format_ids(declared@);
    let mut search: usize = 0;
    let mut index: usize = 0;
    loop
        invariant
            local@ == "xf"@,
            ids == format_ids(declared@),
            search <= section.len(),
            index <= search,
            date_style(xml@) == Ok::<Option<int>, Seq<char>>(
                dated_style_from(section@, search as int, index as int, ids),
            ),
        decreases section.len() - search,
    {
        match find_open_tag(section, search, &local) {
            None => return Ok(None),
            Some((from, to)) => {
                let id: u16 = match tag_attribute(
                    vstd::slice::slice_subrange(section, from, to),
                    "numFmtId",
                ) {
                    Some(text) => match parse_decimal(&text, u16::MAX as u64) {
                        Some(id) => id as u16,
                        None => 0,
                    },
                    None => 0,
                };
                if is_dated_format(id, &declared) {
                    return Ok(Some(index));
                }
                index += 1;
                search = to;
            },
        }
    }
}

} // verus!
