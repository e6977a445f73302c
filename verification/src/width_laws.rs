//! How wide columns become.

use vstd::prelude::*;
use crate::formats::{Cell, Plain};
use crate::number::NumberTable;

verus! {

/// A column with a header becomes as wide as it was or as its header asks, whichever
/// is more: a quarter more than its characters and one more, and two characters on top,
/// but no more than eighty. Columns behind those that are asked for stay as they were.
pub proof fn law_columns_fit_their_headers(
    widths: Seq<int>,
    headers: Seq<Seq<char>>,
    column_count: int,
    c: int,
)
    requires
        0 <= c < widths.len(),
    ensures
        ({
            let fitted = crate::writer_helpers::header_widths(widths, headers, column_count);
            let asked = 125 * (headers[c].len() + 1) + 200;
            &&& fitted.len() == widths.len()
            &&& c >= column_count ==> fitted[c] == widths[c]
            &&& c < column_count ==> fitted[c] >= widths[c]
            &&& c < column_count && c < headers.len() ==> {
                &&& fitted[c] >= asked || fitted[c] >= 8000
                &&& fitted[c] == widths[c] || fitted[c] == asked || fitted[c] == 8000
                &&& fitted[c] == 8000 && widths[c] < 8000 ==> asked >= 8000
            }
        }),
{
}

/// A sampled cell fits its column, and a column becomes no wider than it was or than
/// one of its sampled cells asks: a quarter more than the characters that the cell
/// shows and one more, and two characters on top, but no more than eighty. A date shows
/// twenty characters in all.
pub proof fn law_columns_fit_their_cells(
    widths: Seq<int>,
    rows: Seq<Seq<Cell>>,
    sample_limit: int,
    numbers: NumberTable,
    r: int,
    c: int,
)
    requires
        0 <= c < widths.len(),
        0 <= r < rows.len(),
        r < sample_limit,
        c < rows[r].len(),
        !(rows[r][c].value is Empty && rows[r][c].format is None),
    ensures
        ({
            let fitted = crate::writer_helpers::sampled_widths(widths, rows, sample_limit, numbers);
            let shown: nat = match rows[r][c].value {
                Plain::Empty => 0,
                Plain::DateTime(_) => 20,
                Plain::Text(s) => s.len() + 1,
                Plain::Number(n) => numbers.display(n).len() + 1,
                Plain::Integer(n) => crate::text::decimal(n as int).len() + 1,
                Plain::Boolean(b) => if b {
                    5
                } else {
                    6
                },
            };
            &&& fitted.len() == widths.len()
            &&& fitted[c] >= widths[c]
            &&& fitted[c] >= 125 * shown + 200 || fitted[c] >= 8000
        }),
{
    let n = if rows.len() < sample_limit {
        rows.len()
    } else {
        sample_limit as nat
    };
    lemma_width_grows(widths[c], rows, c, r as nat + 1, n, numbers);
    lemma_width_grows(widths[c], rows, c, 0, r as nat, numbers);
}

proof fn lemma_width_grows(
    width: int,
    rows: Seq<Seq<Cell>>,
    c: int,
    m: nat,
    n: nat,
    numbers: NumberTable,
)
    requires
        m <= n,
    ensures
        crate::writer_helpers::width_with_rows(width, rows, c, m, numbers)
            <= crate::writer_helpers::width_with_rows(width, rows, c, n, numbers),
    decreases n,
{
    if m < n {
        lemma_width_grows(width, rows, c, m, (n - 1) as nat, numbers);
    }
}

/// A column that is wider than it was is as wide as one of the sampled cells asks.
pub proof fn law_columns_grow_for_cells_only(
    widths: Seq<int>,
    rows: Seq<Seq<Cell>>,
    sample_limit: int,
    numbers: NumberTable,
    c: int,
)
    requires
        0 <= c < widths.len(),
        0 <= sample_limit,
        crate::writer_helpers::sampled_widths(widths, rows, sample_limit, numbers)[c] != widths[c],
    ensures
        ({
            let fitted = crate::writer_helpers::sampled_widths(widths, rows, sample_limit, numbers);
            exists|r: int|
                0 <= r < rows.len() && r < sample_limit && c < (#[trigger] rows[r]).len() && !(
                rows[r][c].value is Empty && rows[r][c].format is None) && (fitted[c] == 8000
                    || fitted[c] == 125 * crate::writer_helpers::display_len(
                    rows[r][c].value,
                    numbers,
                ) + 200)
        }),
{
    let n = if rows.len() < sample_limit {
        rows.len()
    } else {
        sample_limit as nat
    };
    lemma_width_source(widths[c], rows, c, n, numbers);
}

proof fn lemma_width_source(
    width: int,
    rows: Seq<Seq<Cell>>,
    c: int,
    n: nat,
    numbers: NumberTable,
)
    requires
        n <= rows.len(),
    ensures
        ({
            let fitted = crate::writer_helpers::width_with_rows(width, rows, c, n, numbers);
            fitted != width ==> exists|r: int|
                0 <= r < n && c < (#[trigger] rows[r]).len() && !(rows[r][c].value is Empty
                    && rows[r][c].format is None) && (fitted == 8000 || fitted == 125
                    * crate::writer_helpers::display_len(rows[r][c].value, numbers) + 200)
        }),
    decreases n,
{
    if n > 0 {
        let m = (n - 1) as nat;
        lemma_width_source(width, rows, c, m, numbers);
        let before = crate::writer_helpers::width_with_rows(width, rows, c, m, numbers);
        let fitted = crate::writer_helpers::width_with_rows(width, rows, c, n, numbers);
        if fitted != before {
            assert(c < rows[n - 1].len());
        } else if fitted != width {
            let r = choose|r: int|
                0 <= r < m && c < (#[trigger] rows[r]).len() && !(rows[r][c].value is Empty
                    && rows[r][c].format is None) && (before == 8000 || before == 125
                    * crate::writer_helpers::display_len(rows[r][c].value, numbers) + 200);
            assert(0 <= r < n && c < rows[r].len());
        }
    }
}

/// A column of unknown width is written ten characters wide. A known width is written
/// as it is, or as the whole characters in it.
pub proof fn law_written_width(width: int, floor: bool)
    ensures
        ({
            let written = crate::writer_helpers::written_width(width, floor);
            &&& width <= 0 ==> written == 1000
            &&& width > 0 && !floor ==> written == width
            &&& width > 0 && floor ==> written % 100 == 0 && written <= width < written + 100
        }),
{
}

/// Hundredths read back from their text: the digits in front of the point are whole
/// ones, those behind it tenths and hundredths, and none of these is a zero that could
/// be left out.
pub proof fn law_hundredths_read_back(n: nat)
    ensures
        ({
            let text = crate::writer_helpers::hundredths_text(n);
            let whole = crate::text::digits(n / 100).len() as int;
            let front = text.take(whole);
            let behind = text.skip(whole + 1);
            &&& text.len() == whole || (text.len() > whole + 1 && text[whole] == '.')
            &&& text.len() == whole ==> 100 * crate::text::digits_value(text) == n
            &&& text.len() == whole + 2 ==> 100 * crate::text::digits_value(front) + 10
                * crate::text::digits_value(behind) == n
            &&& text.len() == whole + 3 ==> 100 * crate::text::digits_value(front)
                + crate::text::digits_value(behind) == n
            &&& text.len() <= whole + 3
            &&& text.len() > whole ==> text.last() != '0'
        }),
{
    let text = crate::writer_helpers::hundredths_text(n);
    let digits = crate::text::digits(n / 100);
    let whole = digits.len() as int;
    let behind = text.skip(whole + 1);
    crate::text::lemma_digits(n / 100);
    assert(text.take(whole) =~= digits);
    assert(n == 100 * (n / 100) + 10 * (n / 10 % 10) + n % 10);
    let tens = crate::text::digit(n / 10 % 10);
    let ones = crate::text::digit(n % 10);
    if text.len() == whole + 2 {
        assert(behind =~= seq![tens]);
        assert(behind.drop_last() =~= Seq::<char>::empty());
        assert(crate::text::digits_value(behind.drop_last()) == 0);
    } else if text.len() == whole + 3 {
        assert(behind =~= seq![tens, ones]);
        assert(behind.drop_last() =~= seq![tens]);
        assert(seq![tens].drop_last() =~= Seq::<char>::empty());
        assert(crate::text::digits_value(Seq::<char>::empty()) == 0);
        assert(crate::text::digits_value(seq![tens]) == n / 10 % 10);
    } else {
        assert(text =~= digits);
    }
}

} // verus!
