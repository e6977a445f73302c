//! What the XLSB writer makes of the same calls.

use vstd::prelude::*;
use crate::formats::Cell;
use crate::number::NumberTable;
use crate::xlsb_writer::{XlsbSheetOptions, XlsbBook};

verus! {

/// A call that a writer has taken.
pub enum WriterCall {
    SetLevel(i64),
    AddSheet { name: Seq<char>, hidden: bool },
    StartSheet {
        name: Seq<char>,
        columns: int,
        headers: Option<Seq<Seq<char>>>,
        options: XlsbSheetOptions,
        numbers: NumberTable,
    },
    WriteRow { row: Seq<Cell>, numbers: NumberTable },
    EndSheet,
    WriteSheet {
        columns: int,
        sheet: Seq<Seq<Cell>>,
        headers: Option<Seq<Seq<char>>>,
        do_autofilter: bool,
        numbers: NumberTable,
    },
}

/// The workbook of a new writer.
pub open spec fn new_book(templates: crate::xlsb_templates::Templates) -> XlsbBook {
    XlsbBook {
        templates,
        entries: Seq::empty(),
        sheets: Seq::empty(),
        tables: crate::sheet_tables::Tables {
            strings: Seq::empty(),
            uses: 0,
            formats: Seq::empty(),
        },
        autofilter_is_on: false,
        compression_level: 1,
        open: None,
    }
}

/// The workbook behind a call.
pub open spec fn after_call(book: XlsbBook, call: WriterCall) -> XlsbBook {
    match call {
        WriterCall::SetLevel(level) => XlsbBook { compression_level: level, ..book },
        WriterCall::AddSheet { name, hidden } => book.with_sheet(name, hidden),
        WriterCall::StartSheet { name, columns, headers, options, numbers } =>
            book.with_started_sheet(name, columns, headers, options, numbers),
        WriterCall::WriteRow { row, numbers } => book.with_row(row, numbers),
        WriterCall::EndSheet => book.with_ended_sheet(),
        WriterCall::WriteSheet { columns, sheet, headers, do_autofilter, numbers } =>
            book.with_written_sheet(columns, sheet, headers, do_autofilter, numbers),
    }
}

/// The workbook behind calls.
pub open spec fn after_calls(book: XlsbBook, calls: Seq<WriterCall>) -> XlsbBook
    decreases calls.len(),
{
    if calls.len() == 0 {
        book
    } else {
        after_call(after_calls(book, calls.drop_last()), calls.last())
    }
}

/// The workbooks differ in nothing but the compression level.
pub open spec fn are_alike(a: XlsbBook, b: XlsbBook) -> bool {
    a == (XlsbBook { compression_level: a.compression_level, ..b })
}

proof fn lemma_call(a: XlsbBook, b: XlsbBook, call: WriterCall)
    requires
        are_alike(a, b),
    ensures
        are_alike(after_call(a, call), after_call(b, call)),
        !(call is SetLevel) ==> after_call(a, call).compression_level == a.compression_level,
{
}

/// Without a call that sets it the level stays what it was.
proof fn lemma_level_stays(book: XlsbBook, calls: Seq<WriterCall>)
    requires
        forall|i: int| 0 <= i < calls.len() ==> !(#[trigger] calls[i] is SetLevel),
    ensures
        after_calls(book, calls).compression_level == book.compression_level,
    decreases calls.len(),
{
    if calls.len() > 0 {
        let before = calls.drop_last();
        assert forall|i: int| 0 <= i < before.len() implies !(#[trigger] before[i] is SetLevel) by {
            assert(before[i] == calls[i]);
        }
        lemma_level_stays(book, before);
        let some = after_calls(book, before);
        assert(calls[calls.len() - 1] == calls.last());
        lemma_call(some, some, calls.last());
    }
}

proof fn lemma_calls_alike(a: XlsbBook, b: XlsbBook, calls: Seq<WriterCall>)
    requires
        are_alike(a, b),
    ensures
        are_alike(after_calls(a, calls), after_calls(b, calls)),
        a == b ==> after_calls(a, calls) == after_calls(b, calls),
    decreases calls.len(),
{
    if calls.len() > 0 {
        lemma_calls_alike(a, b, calls.drop_last());
        lemma_call(
            after_calls(a, calls.drop_last()),
            after_calls(b, calls.drop_last()),
            calls.last(),
        );
    }
}

/// Calls come one behind the other.
proof fn lemma_calls_concat(book: XlsbBook, a: Seq<WriterCall>, b: Seq<WriterCall>)
    ensures
        after_calls(book, a + b) == after_calls(after_calls(book, a), b),
    decreases b.len(),
{
    if b.len() == 0 {
        assert(a + b =~= a);
    } else {
        assert((a + b).drop_last() =~= a + b.drop_last());
        assert((a + b).last() == b.last());
        lemma_calls_concat(book, a, b.drop_last());
    }
}

/// A call in the midst of others comes between those before and those behind it.
proof fn lemma_call_between(book: XlsbBook, calls: Seq<WriterCall>, k: int, call: WriterCall)
    requires
        0 <= k <= calls.len(),
    ensures
        after_calls(book, calls) == after_calls(after_calls(book, calls.take(k)), calls.skip(k)),
        after_calls(book, calls.insert(k, call)) == after_calls(
            after_call(after_calls(book, calls.take(k)), call),
            calls.skip(k),
        ),
{
    let front = calls.take(k);
    let one = front.push(call);
    assert(calls =~= front + calls.skip(k));
    assert(calls.insert(k, call) =~= one + calls.skip(k));
    assert(one.drop_last() =~= front);
    lemma_calls_concat(book, front, calls.skip(k));
    lemma_calls_concat(book, one, calls.skip(k));
}

/// Level one is the default: of two new writers that take the same calls, one of
/// them told in between, before any other level, to compress at level one, both
/// stand for the same workbook, so that they finish the same archive at the same
/// level.
pub proof fn law_level_one_is_the_default(templates: crate::xlsb_templates::Templates, calls: Seq<WriterCall>, k: int)
    requires
        0 <= k <= calls.len(),
        forall|i: int| 0 <= i < k ==> !(#[trigger] calls[i] is SetLevel),
    ensures
        ({
            let plain = after_calls(new_book(templates), calls);
            let told = after_calls(new_book(templates), calls.insert(k, WriterCall::SetLevel(1)));
            &&& told == plain
            &&& told.archive() == plain.archive()
            &&& told.compression_level == plain.compression_level
        }),
{
    let book = new_book(templates);
    let front = calls.take(k);
    assert forall|i: int| 0 <= i < front.len() implies !(#[trigger] front[i] is SetLevel) by {
        assert(front[i] == calls[i]);
    }
    lemma_level_stays(book, front);
    lemma_call_between(book, calls, k, WriterCall::SetLevel(1));
    let some = after_calls(book, front);
    assert(after_call(some, WriterCall::SetLevel(1)) == some);
}

/// The level leaves the parts of the archive alone: whenever a writer is told one,
/// the parts are those that it would have finished without.
pub proof fn law_level_changes_no_part(book: XlsbBook, calls: Seq<WriterCall>, k: int, level: i64)
    requires
        0 <= k <= calls.len(),
    ensures
        after_calls(book, calls.insert(k, WriterCall::SetLevel(level))).archive() == after_calls(
            book,
            calls,
        ).archive(),
{
    lemma_call_between(book, calls, k, WriterCall::SetLevel(level));
    let some = after_calls(book, calls.take(k));
    let told = after_call(some, WriterCall::SetLevel(level));
    lemma_calls_alike(told, some, calls.skip(k));
    let a = after_calls(told, calls.skip(k));
    let b = after_calls(some, calls.skip(k));
    lemma_archive(a, b);
}

proof fn lemma_small_parts(a: XlsbBook, b: XlsbBook, n: nat)
    requires
        a.templates == b.templates,
    ensures
        a.index_parts(n) == b.index_parts(n),
        a.rel_parts(n) == b.rel_parts(n),
    decreases n,
{
    if n > 0 {
        lemma_small_parts(a, b, (n - 1) as nat);
    }
}

proof fn lemma_archive(a: XlsbBook, b: XlsbBook)
    requires
        are_alike(a, b),
    ensures
        a.archive() == b.archive(),
{
    lemma_small_parts(a, b, a.sheets.len());
}

} // verus!
