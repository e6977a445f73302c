//! What the parts of an XLSX workbook say of its sheets.

use vstd::prelude::*;
use crate::markup::Piece;
use crate::xlsx_writer::Sheet;
use crate::xml_events::{XmlAttribute, XmlItem};

verus! {

proof fn lemma_attribute_keys()
    ensures
        "name"@ != "state"@,
        "sheetId"@ != "state"@,
        "r:id"@ != "state"@,
{
    reveal_strlit("name");
    reveal_strlit("sheetId");
    reveal_strlit("r:id");
    reveal_strlit("state");
    assert("name"@.len() == 4 && "sheetId"@.len() == 7 && "state"@.len() == 5 && "r:id"@.len()
        == 4);
}

/// Where the tag of a sheet stands among those of all sheets.
proof fn lemma_sheet_piece(sheets: Seq<Sheet>, n: nat, i: int)
    requires
        0 <= i < n,
    ensures
        crate::xlsx_parts::sheet_pieces(sheets, n).len() == n,
        crate::xlsx_parts::sheet_pieces(sheets, n)[i] == crate::xlsx_parts::empty_tag(
            "sheet"@,
            crate::xlsx_parts::sheet_attributes(i + 1, sheets[i].name, sheets[i].hidden),
        ),
    decreases n,
{
    lemma_sheet_count(sheets, (n - 1) as nat);
    if i < n - 1 {
        lemma_sheet_piece(sheets, (n - 1) as nat, i);
    }
}

proof fn lemma_sheet_count(sheets: Seq<Sheet>, n: nat)
    ensures
        crate::xlsx_parts::sheet_pieces(sheets, n).len() == n,
    decreases n,
{
    if n > 0 {
        lemma_sheet_count(sheets, (n - 1) as nat);
    }
}

/// In the workbook part that the writer makes, every sheet has a tag with its name, its
/// number counted from one, and the relationship of that number. A sheet that is hidden
/// has its state say so, and no other sheet has a state.
pub proof fn law_hidden_sheets_are_marked(sheets: Seq<Sheet>, autofilter_is_on: bool, i: int) -> (
    at: int)
    requires
        0 <= i < sheets.len(),
    ensures
        ({
            let pieces = crate::xlsx_parts::workbook_pieces(sheets, autofilter_is_on);
            0 <= at < pieces.len() && match pieces[at] {
                Piece::Empty { name, attributes, .. } => {
                    &&& name == "sheet"@
                    &&& attributes[0].key == "name"@
                    &&& attributes[0].value == crate::xml_utils::with_entities(sheets[i].name)
                    &&& attributes[1].key == "sheetId"@
                    &&& attributes[1].value == crate::text::decimal(i + 1)
                    &&& attributes.last().key == "r:id"@
                    &&& attributes.last().value == "rId"@ + crate::text::decimal(i + 1)
                    &&& sheets[i].hidden <==> exists|k: int|
                        0 <= k < attributes.len() && (#[trigger] attributes[k]).key == "state"@
                    &&& forall|k: int|
                        0 <= k < attributes.len() && (#[trigger] attributes[k]).key == "state"@
                            ==> attributes[k].value == "hidden"@
                },
                _ => false,
            }
        }),
{
    lemma_attribute_keys();
    let tags = crate::xlsx_parts::sheet_pieces(sheets, sheets.len());
    lemma_sheet_piece(sheets, sheets.len(), i);
    let head = crate::xlsx_parts::book_head();
    let pieces = crate::xlsx_parts::workbook_pieces(sheets, autofilter_is_on);
    let at = 3 + head.len() + 1 + i;
    assert(pieces[at] == tags[i]);
    let attributes = crate::xlsx_parts::sheet_attributes(i + 1, sheets[i].name, sheets[i].hidden);
    if sheets[i].hidden {
        assert(attributes[2].key == "state"@);
    }
    at
}

/// A sheet that is added last stands last among the sheets, hidden where it was added
/// as hidden and only there, and the sheets before it stay as they were.
pub proof fn law_added_sheet_stands_last(
    book: crate::xlsx_writer::XlsxBook,
    name: Seq<char>,
    hidden: bool,
)
    ensures
        ({
            let after = book.with_sheet(name, hidden).sheets;
            &&& after.len() == book.sheets.len() + 1
            &&& after.drop_last() == book.sheets
            &&& after.last().hidden == hidden
        }),
{
    assert(book.with_sheet(name, hidden).sheets.drop_last() =~= book.sheets);
}

/// The range of a sheet's filter names the sheet, its first cell and its last one.
pub proof fn law_filter_range_names_its_cells(name: Seq<char>, rows: int, columns: int)
    requires
        0 < rows <= u32::MAX,
        0 < columns <= u32::MAX,
    ensures
        ({
            let range = crate::xlsx_writer::filter_range(name, rows, columns);
            let cells = range.skip(crate::xlsx_writer::formula_name(name).len() as int);
            let letters = crate::xml_utils::column_letters(columns as nat);
            &&& range.take(crate::xlsx_writer::formula_name(name).len() as int)
                == crate::xlsx_writer::formula_name(name)
            &&& cells.take(7) == seq!['!', '$', 'A', '$', '1', ':', '$']
            &&& cells[7 + letters.len() as int] == '$'
            &&& crate::xlsx_scan::cell_reference(
                vstd::utf8::encode_utf8(
                    cells.subrange(7, 7 + letters.len() as int) + cells.skip(
                        8 + letters.len() as int,
                    ),
                ),
            ) == Some(((rows - 1) as u32, (columns - 1) as u32))
        }),
{
    reveal_strlit("!$A$1:$");
    reveal_strlit("$");
    let range = crate::xlsx_writer::filter_range(name, rows, columns);
    let front = crate::xlsx_writer::formula_name(name);
    let letters = crate::xml_utils::column_letters(columns as nat);
    let digits = crate::text::decimal(rows);
    let cells = range.skip(front.len() as int);
    assert(range.take(front.len() as int) =~= front);
    assert(cells =~= "!$A$1:$"@ + letters + "$"@ + digits);
    assert(cells.take(7) =~= seq!['!', '$', 'A', '$', '1', ':', '$']);
    crate::xml_utils::law_column_round_trip(columns as nat);
    crate::xlsx_placed_laws::law_cell_reference_names_its_cell(letters, rows - 1);
    assert(cells.subrange(7, 7 + letters.len() as int) + cells.skip(8 + letters.len() as int)
        =~= letters + digits);
}

/// The path of a part stands below `xl/`, whether its target says so or not, and with
/// or without a slash in front.
pub proof fn law_parts_stand_below_xl(target: Seq<char>)
    ensures
        ({
            let path = crate::relationships::part_path(target);
            &&& path.len() >= 3 && path[0] == 'x' && path[1] == 'l' && path[2] == '/'
            &&& crate::relationships::part_path("xl/"@ + target) == "xl/"@ + target
            &&& target.len() == 0 || target[0] != '/' ==> crate::relationships::part_path(
                seq!['/'] + target,
            ) == path
            &&& path == target || path == target.skip(1) || path == "xl/"@ + target || path == "xl/"@
                + target.skip(1)
            &&& !(target.len() > 0 && target[0] == '/') && !(target.len() >= 3 && target[0] == 'x'
                && target[1] == 'l' && target[2] == '/') ==> path == "xl/"@ + target
        }),
{
    reveal_strlit("xl/");
    let path = crate::relationships::part_path(target);
    let full = "xl/"@ + target;
    assert(full.subrange(0, 3) =~= "xl/"@);
    assert((seq!['/'] + target).skip(1) =~= target);
    let bare = if target.len() > 0 && target[0] == '/' {
        target.skip(1)
    } else {
        target
    };
    if crate::xml_utils::stands_at(bare, "xl/"@, 0) {
        assert(bare.subrange(0, 3) == "xl/"@);
        assert(bare.subrange(0, 3)[0] == bare[0] && bare.subrange(0, 3)[1] == bare[1]
            && bare.subrange(0, 3)[2] == bare[2]);
    }
    if target.len() >= 3 && !(target[0] == 'x' && target[1] == 'l' && target[2] == '/') {
        assert(target.subrange(0, 3)[0] == target[0] && target.subrange(0, 3)[1] == target[1]
            && target.subrange(0, 3)[2] == target[2]);
    }
}

/// A text with its quotes doubled, part by part.
proof fn lemma_doubled_concat(a: Seq<char>, b: Seq<char>)
    ensures
        crate::xlsx_writer::quotes_doubled(a + b) == crate::xlsx_writer::quotes_doubled(a)
            + crate::xlsx_writer::quotes_doubled(b),
    decreases b.len(),
{
    let all = crate::xlsx_writer::quotes_doubled(a + b);
    let parts = crate::xlsx_writer::quotes_doubled(a) + crate::xlsx_writer::quotes_doubled(b);
    if b.len() == 0 {
        assert(a + b =~= a);
        assert(parts =~= all);
    } else {
        lemma_doubled_concat(a, b.drop_last());
        assert((a + b).drop_last() =~= a + b.drop_last());
        assert((a + b).last() == b.last());
        assert(parts =~= all);
    }
}

/// A text without quotes stays as it is.
proof fn lemma_nothing_doubled(s: Seq<char>)
    requires
        forall|i: int| 0 <= i < s.len() ==> #[trigger] s[i] != '\'',
    ensures
        crate::xlsx_writer::quotes_doubled(s) == s,
    decreases s.len(),
{
    if s.len() > 0 {
        let some = s.drop_last();
        assert forall|i: int| 0 <= i < some.len() implies #[trigger] some[i] != '\'' by {
            assert(some[i] == s[i]);
        }
        lemma_nothing_doubled(some);
        assert(s[s.len() - 1] != '\'');
        assert(some.push(s.last()) =~= s);
    } else {
        assert(crate::xlsx_writer::quotes_doubled(s) =~= s);
    }
}

/// A sheet name that a formula could misread, by a blank, a sign of arithmetic, a
/// quote or the like in it or a digit in front, stands in quotes there, with each of
/// its own quotes doubled. Any other name stands as it is.
pub proof fn law_formulas_quote_sheet_names(a: Seq<char>, c: char, b: Seq<char>)
    requires
        forall|i: int| 0 <= i < a.len() ==> #[trigger] a[i] != '\'',
        forall|i: int| 0 <= i < b.len() ==> #[trigger] b[i] != '\'',
    ensures
        ({
            let name = a + seq![c] + b;
            &&& c == '\'' ==> crate::xlsx_writer::formula_name(name) == seq!['\''] + a + seq![
                '\'',
                '\'',
            ] + b + seq!['\'']
            &&& c == ' ' || c == '\t' || c == '-' || c == '+' || c == '=' || c == '(' || c == ')'
                || c == '!' || c == '@' || c == '#' || c == '$' || c == '%' || c == '^' || c == '&'
                || (a.len() == 0 && '0' <= c <= '9') ==> crate::xlsx_writer::formula_name(name)
                == seq!['\''] + name + seq!['\'']
        }),
        ({
            let name = a + seq![c] + b;
            !('0' <= name[0] <= '9') && (forall|i: int|
                0 <= i < name.len() ==> crate::markup::is_letter(#[trigger] name[i]) || '0'
                    <= name[i] <= '9' || name[i] == '_') ==> crate::xlsx_writer::formula_name(name)
                == name
        }),
{
    let name = a + seq![c] + b;
    lemma_nothing_doubled(a);
    lemma_nothing_doubled(b);
    lemma_doubled_concat(a, seq![c]);
    lemma_doubled_concat(a + seq![c], b);
    assert(seq![c].drop_last() =~= Seq::<char>::empty());
    assert(crate::xlsx_writer::quotes_doubled(Seq::<char>::empty()) =~= Seq::<char>::empty());
    assert(crate::xlsx_writer::quotes_doubled(seq![c]) =~= if c == '\'' {
        seq!['\'', '\'']
    } else {
        seq![c]
    });
    assert(name[a.len() as int] == c);
    if c == '\'' {
        assert(crate::xlsx_writer::wants_quote(name[a.len() as int]));
        assert(seq!['\''] + crate::xlsx_writer::quotes_doubled(name) + seq!['\''] =~= seq!['\'']
            + a + seq!['\'', '\''] + b + seq!['\'']);
    } else {
        assert(crate::xlsx_writer::quotes_doubled(name) =~= name);
    }
    if !('0' <= name[0] <= '9') && (forall|i: int|
        0 <= i < name.len() ==> crate::markup::is_letter(#[trigger] name[i]) || '0' <= name[i]
            <= '9' || name[i] == '_') {
        assert forall|i: int| 0 <= i < name.len() implies !crate::xlsx_writer::wants_quote(
            #[trigger] name[i],
        ) by {
            assert(crate::markup::is_letter(name[i]) || '0' <= name[i] <= '9' || name[i] == '_');
        }
    }
}

/// The path of a sheet's part in the updater: a target with a slash in front counts from
/// the root of the archive, and any other one from `xl/`, whether it says so or not.
pub proof fn law_sheet_parts_are_found_by_target(target: Seq<char>)
    ensures
        crate::xlsx_package::sheet_part_path(seq!['/'] + target) == target,
        crate::xlsx_package::sheet_part_path("xl/"@ + target) == "xl/"@ + target,
        !(target.len() > 0 && target[0] == '/') && !(target.len() >= 3 && target[0] == 'x'
            && target[1] == 'l' && target[2] == '/') ==> crate::xlsx_package::sheet_part_path(
            target,
        ) == "xl/"@ + target,
{
    reveal_strlit("xl/");
    assert((seq!['/'] + target).skip(1) =~= target);
    let full = "xl/"@ + target;
    assert(full.subrange(0, 3) =~= "xl/"@);
    assert(full[0] == 'x');
    if crate::xml_utils::stands_at(target, "xl/"@, 0) {
        assert(target.subrange(0, 3)[0] == target[0] && target.subrange(0, 3)[1] == target[1]
            && target.subrange(0, 3)[2] == target[2]);
    }
}

/// A name in ASCII without a colon has no prefix.
proof fn lemma_no_prefix(bytes: Seq<u8>, from: int)
    requires
        0 <= from,
        forall|i: int| 0 <= i < bytes.len() ==> #[trigger] bytes[i] != 0x3a,
    ensures
        crate::xml_events::behind_colon(bytes, from) == 0,
    decreases bytes.len() - from,
{
    if from < bytes.len() {
        lemma_no_prefix(bytes, from + 1);
    }
}

/// The properties of a workbook say that its dates count from 1904 where their
/// `date1904` is `1` or `true`, in capitals or not, and with any other value that they
/// do not. Events in front of the properties say nothing of it.
pub proof fn law_workbook_properties_tell_the_date_system(
    item: XmlItem,
    value: Seq<char>,
    rest: Seq<Result<XmlItem, Seq<char>>>,
)
    requires
        item.opens(),
        item.attributes == seq![
            Some(
                XmlAttribute {
                    key: vstd::utf8::encode_utf8("date1904"@),
                    value: vstd::utf8::encode_utf8(value),
                },
            ),
        ],
    ensures
        ({
            let events = seq![Ok::<XmlItem, Seq<char>>(item)] + rest;
            &&& item.is_named("workbookPr"@) ==> crate::xml_documents::date_system(events) == (value
                == seq!['1'] || (value.len() == 4 && (value[0] == 't' || value[0] == 'T') && (
            value[1] == 'r' || value[1] == 'R') && (value[2] == 'u' || value[2] == 'U') && (
            value[3] == 'e' || value[3] == 'E')))
            &&& !item.is_named("workbookPr"@) ==> crate::xml_documents::date_system(events)
                == crate::xml_documents::date_system(rest)
        }),
{
    reveal_strlit("date1904");
    reveal_strlit("true");
    reveal_strlit("1");
    let events = seq![Ok::<XmlItem, Seq<char>>(item)] + rest;
    assert(events[0] == Ok::<XmlItem, Seq<char>>(item));
    assert(events.skip(1) =~= rest);
    let key = vstd::utf8::encode_utf8("date1904"@);
    assert(vstd::utf8::is_ascii_chars("date1904"@));
    vstd::utf8::is_ascii_chars_encode_utf8("date1904"@);
    assert forall|i: int| 0 <= i < key.len() implies #[trigger] key[i] != 0x3a by {
        assert("date1904"@[i] as u8 == key[i]);
    }
    lemma_no_prefix(key, 0);
    assert(key.skip(0) =~= key);
    assert(item.attributes[0] == Some(
        XmlAttribute { key, value: vstd::utf8::encode_utf8(value) },
    ));
    assert(crate::xml_documents::local_attribute(item.attributes, "date1904"@, 0) == Some(
        vstd::utf8::encode_utf8(value),
    ));
    crate::text::lemma_bytes_text(value);
    assert("1"@ =~= seq!['1']);
    let yes = "true"@;
    assert(yes[0] == 't' && yes[1] == 'r' && yes[2] == 'u' && yes[3] == 'e');
    if value.len() == 4 {
        assert(crate::text::same_ignoring_case(value, yes) == (crate::text::ascii_lower(value[0])
            == 't' && crate::text::ascii_lower(value[1]) == 'r' && crate::text::ascii_lower(
            value[2],
        ) == 'u' && crate::text::ascii_lower(value[3]) == 'e')) by {
            if crate::text::same_ignoring_case(value, yes) {
                assert(crate::text::ascii_lower(value[0]) == crate::text::ascii_lower(yes[0]));
                assert(crate::text::ascii_lower(value[1]) == crate::text::ascii_lower(yes[1]));
                assert(crate::text::ascii_lower(value[2]) == crate::text::ascii_lower(yes[2]));
                assert(crate::text::ascii_lower(value[3]) == crate::text::ascii_lower(yes[3]));
            }
        }
    }
}

} // verus!
