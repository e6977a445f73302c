//! What the ranges of an XLSX sheet name.

use vstd::prelude::*;

verus! {

/// The range of a sheet names its first cell and its last one: the last row, and the
/// last column.
pub proof fn law_range_names_first_and_last_cell(rows: int, columns: int)
    requires
        0 < rows <= u32::MAX,
        0 < columns <= u32::MAX,
    ensures
        ({
            let range = crate::xlsx_patch::range_ref(rows, columns);
            &&& range == crate::xlsx_cells::used_range(rows, columns)
            &&& range.len() > 3
            &&& range[2] == ':'
            &&& crate::xlsx_scan::cell_reference(vstd::utf8::encode_utf8(range.take(2))) == Some(
                (0u32, 0u32),
            )
            &&& crate::xlsx_scan::cell_reference(vstd::utf8::encode_utf8(range.skip(3))) == Some(
                ((rows - 1) as u32, (columns - 1) as u32),
            )
        }),
{
    let range = crate::xlsx_cells::used_range(rows, columns);
    let letters = crate::xml_utils::column_letters(columns as nat);
    let digits = crate::text::decimal(rows);
    reveal_strlit("A1:");
    crate::text::lemma_digits(rows as nat);
    crate::xml_utils::law_column_round_trip(1);
    crate::xml_utils::law_column_round_trip(columns as nat);
    crate::xlsx_placed_laws::law_cell_reference_names_its_cell(letters, rows - 1);
    crate::xlsx_placed_laws::law_cell_reference_names_its_cell(
        crate::xml_utils::column_letters(1),
        0,
    );
    assert(crate::xml_utils::column_letters(0) =~= Seq::<char>::empty());
    assert(crate::xml_utils::column_letters(1) =~= seq!['A']);
    assert(crate::text::decimal(1) =~= seq!['1']);
    assert(range.take(2) =~= crate::xml_utils::column_letters(1) + crate::text::decimal(1));
    assert(range.skip(3) =~= letters + digits);
}

/// A sheet without rows or columns has its first cell as its range.
pub proof fn law_empty_range_is_the_first_cell(rows: int, columns: int)
    requires
        rows <= 0 || columns <= 0,
    ensures
        crate::xlsx_scan::cell_reference(
            vstd::utf8::encode_utf8(crate::xlsx_patch::range_ref(rows, columns)),
        ) == Some((0u32, 0u32)),
{
    reveal_strlit("A1");
    crate::xml_utils::law_column_round_trip(1);
    crate::xlsx_placed_laws::law_cell_reference_names_its_cell(
        crate::xml_utils::column_letters(1),
        0,
    );
    assert(crate::xml_utils::column_letters(0) =~= Seq::<char>::empty());
    assert(crate::xml_utils::column_letters(1) =~= seq!['A']);
    assert(crate::text::decimal(1) =~= seq!['1']);
    assert("A1"@ =~= crate::xml_utils::column_letters(1) + crate::text::decimal(1));
}

/// The names of columns in their order: behind a column whose name does not end in `Z`
/// stands the one with the next letter at the end, and behind one whose name does, the
/// one with `A` at the end and the next name in front of it.
pub proof fn law_column_names_follow_each_other(n: nat)
    requires
        n > 0,
    ensures
        ({
            let here = crate::xml_utils::column_letters(n);
            let next = crate::xml_utils::column_letters(n + 1);
            &&& here.len() > 0
            &&& next.len() > 0
            &&& here.last() != 'Z' ==> next.drop_last() == here.drop_last() && next.last() as u32
                == here.last() as u32 + 1
            &&& here.last() == 'Z' && here.len() > 1 ==> next.last() == 'A' && exists|m: nat|
                m > 0 && here.drop_last() == #[trigger] crate::xml_utils::column_letters(m)
                    && next.drop_last() == crate::xml_utils::column_letters(m + 1)
            &&& here == seq!['Z'] ==> next == seq!['A', 'A']
        }),
        crate::xml_utils::column_letters(1) == seq!['A'],
{
    let here = crate::xml_utils::column_letters(n);
    let next = crate::xml_utils::column_letters(n + 1);
    let m = ((n - 1) / 26) as nat;
    assert(crate::xml_utils::column_letters(0) =~= Seq::<char>::empty());
    assert(crate::xml_utils::column_letters(1) =~= seq!['A']);
    assert(here.drop_last() =~= crate::xml_utils::column_letters(m));
    assert(next.drop_last() =~= crate::xml_utils::column_letters((n / 26) as nat));
    assert(n - 1 == 26 * m + (n - 1) % 26);
    if (n - 1) % 26 < 25 {
        assert(n / 26 == m);
        assert(here.last() != 'Z');
    } else {
        assert(n / 26 == m + 1);
        assert(here.last() == 'Z');
        if m == 0 {
            assert(here =~= seq!['Z']);
            assert(next =~= seq!['A', 'A']);
        } else {
            assert(here.drop_last() == crate::xml_utils::column_letters(m));
        }
    }
}

} // verus!
