//! Which looks the cells of an XLSX sheet lend to new cells.

use vstd::prelude::*;
use crate::markup::Attr;
use crate::xlsx_styles::StyledCell;

verus! {

/// The style that a new header takes over is that of the first cell of the first row in
/// its column that has one, and none where there is no such cell.
pub proof fn law_header_style_is_the_first(cells: Seq<StyledCell>, col: int)
    ensures
        ({
            let style = crate::xlsx_styles::header_style(cells, col);
            &&& style != 0 ==> exists|i: int|
                0 <= i < cells.len() && (#[trigger] cells[i]).col == col && cells[i].row == 1
                    && cells[i].style == style && forall|j: int|
                    0 <= j < i && (#[trigger] cells[j]).col == col && cells[j].row == 1
                        ==> cells[j].style == 0
            &&& style == 0 ==> forall|i: int|
                0 <= i < cells.len() && (#[trigger] cells[i]).col == col && cells[i].row == 1
                    ==> cells[i].style == 0
        }),
    decreases cells.len(),
{
    if cells.len() > 0 {
        let some = cells.drop_last();
        law_header_style_is_the_first(some, col);
        let style = crate::xlsx_styles::header_style(cells, col);
        let before = crate::xlsx_styles::header_style(some, col);
        assert forall|i: int| 0 <= i < some.len() implies some[i] == #[trigger] cells[i] by {}
        if before != 0 {
            let i = choose|i: int|
                0 <= i < some.len() && (#[trigger] some[i]).col == col && some[i].row == 1
                    && some[i].style == before && forall|j: int|
                    0 <= j < i && (#[trigger] some[j]).col == col && some[j].row == 1
                        ==> some[j].style == 0;
            assert(cells[i].col == col && cells[i].row == 1 && cells[i].style == style);
            assert forall|j: int|
                0 <= j < i && (#[trigger] cells[j]).col == col && cells[j].row
                    == 1 implies cells[j].style == 0 by {
                assert(some[j] == cells[j]);
            }
        } else {
            assert forall|j: int|
                0 <= j < some.len() && (#[trigger] cells[j]).col == col && cells[j].row
                    == 1 implies cells[j].style == 0 by {
                assert(some[j] == cells[j]);
            }
            if style != 0 {
                let i = cells.len() - 1;
                assert(cells[i].col == col && cells[i].row == 1 && cells[i].style == style);
            }
        }
    }
}

/// The letters of a reference end where its digits begin.
proof fn lemma_letters_split(letters: Seq<char>, digits: Seq<char>)
    requires
        crate::xml_utils::is_column_name(letters),
        digits.len() > 0,
        crate::text::is_digit(digits[0]),
    ensures
        crate::xml_tags::scan(letters + digits, 0, crate::xlsx_styles::letter_ends())
            == letters.len(),
{
    let s = letters + digits;
    let n = letters.len() as int;
    assert(s[n] == digits[0]);
    assert forall|j: int| 0 <= j < n implies !crate::xlsx_styles::letter_ends()(
        #[trigger] s[j],
    ) by {
        assert(s[j] == letters[j]);
        assert(crate::xml_utils::is_capital(letters[j]));
    }
    crate::relationship_laws::lemma_scan_to(s, 0, n, crate::xlsx_styles::letter_ends());
}

/// A cell reference, such as `C1`, is at the column that its letters name, counted from
/// zero, and in the row that its digits name, counted from one.
pub proof fn law_reference_has_its_place(letters: Seq<char>, row: int)
    requires
        crate::xml_utils::is_column_name(letters),
        crate::xml_utils::column_number(letters) <= usize::MAX,
        0 < row <= usize::MAX,
    ensures
        crate::xlsx_styles::reference_place(letters + crate::text::decimal(row)) == Some(
            ((crate::xml_utils::column_number(letters) - 1) as int, row),
        ),
{
    let digits = crate::text::decimal(row);
    let s = letters + digits;
    crate::text::lemma_digits(row as nat);
    crate::xlsx_style_laws::lemma_digits_radix(row as nat);
    lemma_letters_split(letters, digits);
    let n = letters.len() as int;
    assert(s.take(n) =~= letters);
    assert(s.skip(n) =~= digits);
    assert(crate::xlsx_styles::capitals(letters) =~= letters) by {
        assert forall|i: int| 0 <= i < letters.len() implies crate::xlsx_styles::ascii_upper(
            letters[i],
        ) == letters[i] by {
            assert(crate::xml_utils::is_capital(letters[i]));
        }
    }
    assert(crate::text::is_digit(digits[0]));
}

/// The texts of references and styles stand in a tag as they are.
proof fn lemma_clean_text(s: Seq<char>)
    requires
        forall|i: int|
            0 <= i < s.len() ==> crate::text::is_digit(#[trigger] s[i])
                || crate::xml_utils::is_capital(s[i]),
    ensures
        crate::xml_utils::unescaped_text(s) == s,
        crate::markup::is_value(s),
{
    assert forall|i: int| 0 <= i < s.len() implies crate::xml_utils::entity(#[trigger] s[i])
        == seq![s[i]] by {
        assert(crate::text::is_digit(s[i]) || crate::xml_utils::is_capital(s[i]));
    }
    crate::xml_utils::lemma_plain_with_entities(s);
    assert(!crate::xml_utils::has_control(s)) by {
        assert forall|i: int| 0 <= i < s.len() implies !crate::xml_utils::is_control(
            #[trigger] s[i],
        ) by {
            assert(crate::text::is_digit(s[i]) || crate::xml_utils::is_capital(s[i]));
        }
    }
    crate::xml_utils::law_escape_round_trip(s);
    assert forall|i: int| 0 <= i < s.len() implies #[trigger] s[i] != '"' by {
        assert(crate::text::is_digit(s[i]) || crate::xml_utils::is_capital(s[i]));
    }
}

/// A cell whose tag tells its reference and its style lends the style, in the column
/// that the letters of the reference name and the row that its digits name. Style zero
/// is no style.
pub proof fn law_styled_cell_is_noted(letters: Seq<char>, row: int, style: int, rest: Seq<char>)
    requires
        crate::xml_utils::is_column_name(letters),
        crate::xml_utils::column_number(letters) <= usize::MAX,
        0 < row <= usize::MAX,
        0 <= style <= usize::MAX,
    ensures
        ({
            let a = Attr { key: "r"@, value: letters + crate::text::decimal(row) };
            let b = Attr { key: "s"@, value: crate::text::decimal(style) };
            let tag = "<"@ + "c"@ + crate::markup::attribute_text(a)
                + crate::markup::attribute_text(b) + rest;
            crate::xlsx_styles::styled_cell(tag) == if style == 0 {
                None
            } else {
                Some(
                    StyledCell {
                        col: (crate::xml_utils::column_number(letters) - 1) as int,
                        row,
                        style,
                    },
                )
            }
        }),
{
    reveal_strlit("c");
    reveal_strlit("r");
    reveal_strlit("s");
    let digits = crate::text::decimal(row);
    let number = crate::text::decimal(style);
    let a = Attr { key: "r"@, value: letters + digits };
    let b = Attr { key: "s"@, value: number };
    let ta = crate::markup::attribute_text(a);
    let tb = crate::markup::attribute_text(b);
    let tag = "<"@ + "c"@ + ta + tb + rest;
    crate::text::lemma_digits(row as nat);
    crate::text::lemma_digits(style as nat);
    crate::xlsx_style_laws::lemma_digits_radix(style as nat);
    assert forall|i: int| 0 <= i < a.value.len() implies crate::text::is_digit(
        #[trigger] a.value[i],
    ) || crate::xml_utils::is_capital(a.value[i]) by {
        if i < letters.len() {
            assert(a.value[i] == letters[i]);
        } else {
            assert(a.value[i] == digits[i - letters.len()]);
        }
    }
    lemma_clean_text(a.value);
    lemma_clean_text(number);
    law_reference_has_its_place(letters, row);
    assert(tag =~= "<"@ + "c"@ + ta + (tb + rest));
    assert("r"@[0] == 'r' && "s"@[0] == 's');
    assert(!"s"@.contains(':'));
    assert(crate::text::ascii_lower("r"@[0]) != crate::text::ascii_lower("s"@[0]));
    assert(!crate::xml_tags::names_attribute("r"@, "s"@));
    crate::xlsx_date_style_laws::lemma_first_attribute(tag, "c"@, a, tb + rest);
    crate::xlsx_date_style_laws::lemma_later_attribute(tag, "<"@ + "c"@ + ta, b, rest);
    reveal_strlit("<");
    assert(("<"@ + "c"@ + ta).len() == 2 + ta.len());
    assert(crate::text::is_digit(number[0]));
}

/// A cell tag with `t="s"` in it points at a shared string, in capitals or not and
/// whatever stands around it.
pub proof fn law_string_cells_point_at_strings(
    front: Seq<char>,
    key: char,
    quote: char,
    rest: Seq<char>,
)
    requires
        crate::text::is_plain(front),
        crate::text::is_plain(rest),
        key == 't' || key == 'T',
        quote == '"' || quote == '\'',
    ensures
        crate::xlsx_styles::points_at_string(
            front + seq![key, '=', quote, 's', quote] + rest,
        ),
{
    reveal_strlit("t=");
    reveal_strlit("s");
    let middle = seq![key, '=', quote, 's', quote];
    let tag = front + middle + rest;
    let at = front.len() as int;
    assert forall|i: int| 0 <= i < tag.len() implies (#[trigger] tag[i] as u32) < 128 by {
        if i < at {
            assert(tag[i] == front[i]);
        } else if i < at + 5 {
            assert(tag[i] == middle[i - at]);
        } else {
            assert(tag[i] == rest[i - at - 5]);
        }
    }
    crate::text::lemma_plain_lowered(tag);
    let lower = crate::text::lowered(tag);
    assert(tag[at] == middle[0] && tag[at + 1] == middle[1] && tag[at + 2] == middle[2]);
    assert(tag[at + 3] == middle[3] && tag[at + 4] == middle[4]);
    assert(lower[at] == crate::text::ascii_lower(tag[at]));
    assert(lower[at + 1] == crate::text::ascii_lower(tag[at + 1]));
    assert(lower.subrange(at, at + 2) =~= "t="@);
    crate::text::lemma_plain_bytes(lower, at);
    assert(crate::text::is_plain("t="@));
    crate::text::lemma_plain_bytes("t="@, 2);
    crate::text::lemma_plain_place(tag, 0, at + 2);
    assert(crate::xml_patch::place_behind_key(tag, "t="@, at) == Some(at + 2));
    crate::xlsx_string_update::lemma_first_char(tag, quote, at + 3, at + 4);
    let inner = tag.subrange(at + 3, at + 4);
    assert(inner =~= "s"@);
    assert(inner[0] == 's' && inner.last() == 's');
    assert(!crate::text::is_whitespace('s'));
    assert(crate::xml_patch::trimmed(inner) == inner);
    assert(crate::xlsx_styles::shared_type_at(tag, at));
}

/// A cell tag without a type points at no shared string.
pub proof fn law_cells_without_a_type_point_at_no_strings(tag: Seq<char>)
    requires
        crate::text::is_plain(tag),
        forall|i: int|
            0 <= i && i + 1 < tag.len() && #[trigger] tag[i + 1] == '=' ==> tag[i] != 't' && tag[i]
                != 'T',
    ensures
        !crate::xlsx_styles::points_at_string(tag),
{
    reveal_strlit("t=");
    crate::text::lemma_plain_lowered(tag);
    let lower = crate::text::lowered(tag);
    assert forall|at: int| 0 <= at < lower.len() implies !#[trigger]
        crate::xlsx_styles::shared_type_at(tag, at) by {
        if crate::xml_utils::stands_at(lower, "t="@, at) {
            assert(lower.subrange(at, at + 2)[0] == lower[at]);
            assert(lower.subrange(at, at + 2)[1] == lower[at + 1]);
            assert(lower[at] == crate::text::ascii_lower(tag[at]));
            assert(lower[at + 1] == crate::text::ascii_lower(tag[at + 1]));
            assert(tag[at + 1] == '=');
        }
    }
}

} // verus!
