//! The records of a worksheet, one behind the other: what a search for the
//! dimension finds where records move or where their payloads are written over.

use vstd::prelude::*;
use crate::biff12::Biff12Record;
use crate::xlsb_patch::{Region, RowMarks};

verus! {

/// Going from record to record leads from one place to another.
pub open spec fn leads(x: Seq<u8>, pos: int, p: int) -> bool
    decreases x.len() - pos,
    when 0 <= pos <= x.len() <= usize::MAX
{
    proof {
        crate::biff12::lemma_record_bounds(x, pos);
    }
    p == pos || match crate::biff12::record_at(x, pos) {
        Ok(Some(rec)) => leads(x, rec.data_end as int, p),
        _ => false,
    }
}

/// A filter range starts at `q`, in a record that stands at `p`.
pub open spec fn is_filter(x: Seq<u8>, p: int, q: int) -> bool {
    crate::biff12::record_at(x, p) matches Ok(Some(rec)) && rec.id == 0xa1 && rec.len >= 16
        && rec.data_start == q
}

/// A filter range starts at `q`, in a record from `pos` on.
pub open spec fn has_filter(x: Seq<u8>, pos: int, q: int) -> bool {
    exists|p: int| #[trigger] is_filter(x, p, q) && leads(x, pos, p)
}

pub proof fn lemma_leads_on(x: Seq<u8>, pos: int, p: int)
    requires
        0 <= pos <= x.len() <= usize::MAX,
        leads(x, pos, p),
    ensures
        pos <= p <= x.len(),
    decreases x.len() - pos,
{
    crate::biff12::lemma_record_bounds(x, pos);
    if p != pos {
        let rec = crate::biff12::record_at(x, pos)->Ok_0->Some_0;
        lemma_leads_on(x, rec.data_end as int, p);
    }
}

/// Of two places that records lead to, the earlier one leads to the later one.
pub proof fn lemma_leads_between(x: Seq<u8>, pos: int, a: int, b: int)
    requires
        0 <= pos <= x.len() <= usize::MAX,
        leads(x, pos, a),
        leads(x, pos, b),
        a <= b,
    ensures
        leads(x, a, b),
    decreases x.len() - pos,
{
    crate::biff12::lemma_record_bounds(x, pos);
    lemma_leads_on(x, pos, a);
    lemma_leads_on(x, pos, b);
    if a != pos {
        let rec = crate::biff12::record_at(x, pos)->Ok_0->Some_0;
        lemma_leads_between(x, rec.data_end as int, a, b);
    }
}

pub proof fn lemma_leads_further(x: Seq<u8>, pos: int, a: int, b: int)
    requires
        0 <= pos <= x.len() <= usize::MAX,
        leads(x, pos, a),
        leads(x, a, b),
    ensures
        leads(x, pos, b),
    decreases x.len() - pos,
{
    crate::biff12::lemma_record_bounds(x, pos);
    if a != pos {
        let rec = crate::biff12::record_at(x, pos)->Ok_0->Some_0;
        lemma_leads_further(x, rec.data_end as int, a, b);
    }
}

/// What the records say of the rows and the filter ranges are places that they
/// lead to.
pub proof fn lemma_marks_led_to(x: Seq<u8>, pos: int, marks: RowMarks)
    requires
        0 <= pos <= x.len() <= usize::MAX,
    ensures
        crate::xlsb_patch::row_marks(x, pos, marks) matches Ok(all) ==> {
            &&& leads(x, pos, x.len() as int)
            &&& all.first_row == marks.first_row || leads(x, pos, all.first_row->Some_0)
            &&& all.mark == marks.mark || leads(x, pos, all.mark->Some_0)
            &&& all.cell_end == marks.cell_end || leads(x, pos, all.cell_end->Some_0)
            &&& all.filters.len() >= marks.filters.len()
            &&& forall|k: int|
                0 <= k < marks.filters.len() ==> #[trigger] all.filters[k] == marks.filters[k]
            &&& forall|k: int|
                marks.filters.len() <= k < all.filters.len() ==> has_filter(
                    x,
                    pos,
                    #[trigger] all.filters[k],
                )
        },
    decreases x.len() - pos,
{
    crate::biff12::lemma_record_bounds(x, pos);
    match crate::biff12::record_at(x, pos) {
        Ok(Some(rec)) => {
            let next = crate::xlsb_patch::with_record(marks, rec);
            let end = rec.data_end as int;
            lemma_marks_led_to(x, end, next);
            if let Ok(all) = crate::xlsb_patch::row_marks(x, pos, marks) {
                assert(leads(x, pos, pos));
                assert(leads(x, end, end));
                assert forall|k: int|
                    marks.filters.len() <= k < all.filters.len() implies has_filter(
                    x,
                    pos,
                    #[trigger] all.filters[k],
                ) by {
                    if k < next.filters.len() {
                        assert(all.filters[k] == next.filters[k]);
                        assert(is_filter(x, pos, all.filters[k]));
                    } else {
                        let p = choose|p: int| #[trigger]
                            is_filter(x, p, all.filters[k]) && leads(x, end, p);
                        assert(leads(x, pos, p));
                    }
                }
                assert forall|k: int| 0 <= k < marks.filters.len() implies #[trigger]
                    all.filters[k] == marks.filters[k] by {
                    assert(next.filters[k] == marks.filters[k]);
                }
            }
        },
        _ => {},
    }
}

proof fn lemma_moved_vlq(x: Seq<u8>, y: Seq<u8>, p: int, d: int, index: nat, stop: int)
    requires
        0 <= p,
        0 <= p + d,
        stop <= x.len(),
        stop + d <= y.len(),
        forall|j: int| p <= j < stop ==> #[trigger] x[j] == y[j + d],
        crate::biff12::vlq_at(x, p, index) matches Ok((_, next)) && next <= stop,
    ensures
        crate::biff12::vlq_at(x, p, index) matches Ok((value, next)) && crate::biff12::vlq_at(
            y,
            p + d,
            index,
        ) == Ok::<(nat, int), crate::biff12::VlqFault>((value, next + d)),
    decreases 5 - index,
{
    crate::biff12::lemma_vlq_at_advances(x, p, index);
    assert(x[p] == y[p + d]);
    if index < 5 && p < x.len() && x[p] >= 0x80 && !(index == 4 && x[p] % 0x80 > 0x0f) {
        lemma_moved_vlq(x, y, p + 1, d, index + 1, stop);
    }
}

/// The record is another one moved by a distance.
pub open spec fn is_moved(a: Biff12Record, b: Biff12Record, d: int) -> bool {
    &&& b.data_start == a.data_start + d
    &&& b.data_end == a.data_end + d
    &&& b.id == a.id
    &&& b.len == a.len
}

/// A record is found where its header has moved to.
pub proof fn lemma_moved_record(x: Seq<u8>, y: Seq<u8>, p: int, d: int)
    requires
        0 <= p,
        0 <= p + d,
        x.len() <= usize::MAX,
        y.len() <= usize::MAX,
        crate::biff12::record_at(x, p) matches Ok(Some(rec)) && rec.data_end + d <= y.len()
            && forall|j: int| p <= j < rec.data_start ==> #[trigger] x[j] == y[j + d],
    ensures
        crate::biff12::record_at(y, p + d) matches Ok(Some(moved)) && is_moved(
            crate::biff12::record_at(x, p)->Ok_0->Some_0,
            moved,
            d,
        ),
{
    crate::biff12::lemma_record_bounds(x, p);
    let rec = crate::biff12::record_at(x, p)->Ok_0->Some_0;
    crate::biff12::lemma_vlq_at_advances(x, p, 0);
    let (id, p1) = crate::biff12::vlq_at(x, p, 0)->Ok_0;
    crate::biff12::lemma_vlq_at_advances(x, p1, 0);
    lemma_moved_vlq(x, y, p, d, 0, rec.data_start as int);
    lemma_moved_vlq(x, y, p1, d, 0, rec.data_start as int);
}

/// A dimension is found behind the place where the search starts.
pub proof fn lemma_dimension_follows(x: Seq<u8>, pos: int)
    requires
        0 <= pos <= x.len() <= usize::MAX,
    ensures
        crate::xlsb_patch::dimension_at(x, pos) matches Ok(Some(q)) ==> pos < q && q + 36
            <= x.len(),
    decreases x.len() - pos,
{
    crate::biff12::lemma_record_bounds(x, pos);
    if let Ok(Some(rec)) = crate::biff12::record_at(x, pos) {
        lemma_dimension_follows(x, rec.data_end as int);
    }
}

/// The search from `pos` on finds a dimension in front of a place.
pub open spec fn found_before(x: Seq<u8>, pos: int, b: int) -> bool {
    crate::xlsb_patch::dimension_at(x, pos) matches Ok(Some(q)) && q < b
}

/// Where a stretch of records has moved, a dimension in it has moved with it, and
/// one that is not in it is searched for behind it.
pub proof fn lemma_stretch(x: Seq<u8>, y: Seq<u8>, a: int, b: int, d: int)
    requires
        0 <= a <= b <= x.len() <= usize::MAX,
        0 <= a + d,
        b + d <= y.len() <= usize::MAX,
        leads(x, a, b),
        forall|j: int| a <= j < b ==> #[trigger] x[j] == y[j + d],
    ensures
        leads(y, a + d, b + d),
        found_before(x, a, b) ==> {
            let q = crate::xlsb_patch::dimension_at(x, a)->Ok_0->Some_0;
            a < q && q + 36 <= b && crate::xlsb_patch::dimension_at(y, a + d) == Ok::<
                Option<int>,
                Seq<char>,
            >(Some(q + d))
        },
        !found_before(x, a, b) ==> crate::xlsb_patch::dimension_at(x, a)
            == crate::xlsb_patch::dimension_at(x, b) && crate::xlsb_patch::dimension_at(y, a + d)
            == crate::xlsb_patch::dimension_at(y, b + d),
    decreases x.len() - a,
{
    crate::biff12::lemma_record_bounds(x, a);
    if a == b {
        lemma_dimension_follows(x, a);
    } else {
        let rec = crate::biff12::record_at(x, a)->Ok_0->Some_0;
        lemma_leads_on(x, rec.data_end as int, b);
        lemma_moved_record(x, y, a, d);
        lemma_stretch(x, y, rec.data_end as int, b, d);
    }
}

/// A filter range in a stretch of records moves with it.
pub proof fn lemma_filter_moves(x: Seq<u8>, y: Seq<u8>, a: int, b: int, d: int, q: int)
    requires
        0 <= a <= b <= x.len() <= usize::MAX,
        0 <= a + d,
        b + d <= y.len() <= usize::MAX,
        leads(x, a, b),
        forall|j: int| a <= j < b ==> #[trigger] x[j] == y[j + d],
        has_filter(x, a, q),
        q < b,
    ensures
        has_filter(y, a + d, q + d),
{
    let p = choose|p: int| #[trigger] is_filter(x, p, q) && leads(x, a, p);
    lemma_leads_on(x, a, p);
    crate::biff12::lemma_record_bounds(x, p);
    lemma_leads_between(x, a, p, b);
    let rec = crate::biff12::record_at(x, p)->Ok_0->Some_0;
    assert(p < b);
    lemma_leads_on(x, rec.data_end as int, b);
    lemma_stretch(x, y, a, p, d);
    lemma_moved_record(x, y, p, d);
    assert(is_filter(y, p + d, q + d));
}

/// Where two buffers have the same bytes from a place on, the same is found there.
proof fn lemma_same_tail(x: Seq<u8>, y: Seq<u8>, pos: int, t: int)
    requires
        0 <= pos <= x.len() <= usize::MAX,
        x.len() == y.len(),
        forall|j: int| pos <= j < x.len() ==> x[j] == y[j],
        leads(x, pos, x.len() as int),
        leads(x, pos, t),
    ensures
        crate::xlsb_patch::dimension_at(x, pos) == crate::xlsb_patch::dimension_at(y, pos),
        leads(y, pos, t),
        crate::biff12::record_at(x, t) == crate::biff12::record_at(y, t),
    decreases x.len() - pos,
{
    crate::biff12::lemma_record_bounds(x, pos);
    if pos < x.len() {
        let rec = crate::biff12::record_at(x, pos)->Ok_0->Some_0;
        crate::xlsb_string_laws::lemma_same_record(x, y, pos);
        let next = if t == pos {
            x.len() as int
        } else {
            t
        };
        lemma_same_tail(x, y, rec.data_end as int, next);
    } else {
        lemma_leads_on(x, pos, t);
    }
}

/// What is written into a filter range does not change what records lead to, nor
/// where the dimension is.
proof fn lemma_overwritten(x: Seq<u8>, y: Seq<u8>, pos: int, p: int, q: int, t: int)
    requires
        0 <= pos <= x.len() <= usize::MAX,
        x.len() == y.len(),
        is_filter(x, p, q),
        leads(x, pos, p),
        forall|j: int| 0 <= j < x.len() && !(q + 4 <= j < q + 16) ==> x[j] == y[j],
        leads(x, pos, x.len() as int),
        leads(x, pos, t),
    ensures
        crate::xlsb_patch::dimension_at(x, pos) == crate::xlsb_patch::dimension_at(y, pos),
        leads(y, pos, t),
        crate::biff12::record_at(x, t) == crate::biff12::record_at(y, t),
    decreases x.len() - pos,
{
    crate::biff12::lemma_record_bounds(x, pos);
    lemma_leads_on(x, pos, p);
    crate::biff12::lemma_record_bounds(x, p);
    assert(p < x.len());
    let rec = crate::biff12::record_at(x, pos)->Ok_0->Some_0;
    let next = if t == pos {
        x.len() as int
    } else {
        t
    };
    if pos != p {
        lemma_leads_on(x, rec.data_end as int, p);
    }
    crate::xlsb_string_laws::lemma_same_record(x, y, pos);
    if pos == p {
        lemma_same_tail(x, y, rec.data_end as int, next);
    } else {
        lemma_overwritten(x, y, rec.data_end as int, p, q, next);
    }
}

/// The filter ranges of a worksheet whose rows have been replaced stand where they
/// have moved to.
pub open spec fn filters_stand(x: Seq<u8>, region: Region, rows_len: int) -> bool {
    forall|k: int|
        0 <= k < region.filters.len() ==> has_filter(
            x,
            0,
            crate::xlsb_patch::moved_offset(#[trigger] region.filters[k], region, rows_len),
        )
}

/// Writing into a filter range leaves the filter ranges and the dimension where they
/// are.
pub proof fn lemma_filter_written(
    x: Seq<u8>,
    y: Seq<u8>,
    q: int,
    region: Region,
    rows_len: int,
)
    requires
        x.len() == y.len(),
        x.len() <= usize::MAX,
        leads(x, 0, x.len() as int),
        has_filter(x, 0, q),
        filters_stand(x, region, rows_len),
        forall|j: int| 0 <= j < x.len() && !(q + 4 <= j < q + 16) ==> x[j] == y[j],
    ensures
        leads(y, 0, y.len() as int),
        filters_stand(y, region, rows_len),
        crate::xlsb_patch::dimension_at(y, 0) == crate::xlsb_patch::dimension_at(x, 0),
{
    let p = choose|p: int| #[trigger] is_filter(x, p, q) && leads(x, 0, p);
    lemma_overwritten(x, y, 0, p, q, x.len() as int);
    assert forall|k: int| 0 <= k < region.filters.len() implies has_filter(
        y,
        0,
        crate::xlsb_patch::moved_offset(#[trigger] region.filters[k], region, rows_len),
    ) by {
        let r = crate::xlsb_patch::moved_offset(region.filters[k], region, rows_len);
        let t = choose|t: int| #[trigger] is_filter(x, t, r) && leads(x, 0, t);
        lemma_overwritten(x, y, 0, p, q, t);
        assert(is_filter(y, t, r));
    }
}

/// A filter range lies inside its record.
pub proof fn lemma_filter_inside(x: Seq<u8>, q: int)
    requires
        x.len() <= usize::MAX,
        has_filter(x, 0, q),
    ensures
        0 <= q,
        q + 16 <= x.len(),
{
    let p = choose|p: int| #[trigger] is_filter(x, p, q) && leads(x, 0, p);
    lemma_leads_on(x, 0, p);
    crate::biff12::lemma_record_bounds(x, p);
}

/// A filter range that starts behind a place that records lead to is found from
/// there.
pub proof fn lemma_filter_behind(x: Seq<u8>, end: int, q: int)
    requires
        x.len() <= usize::MAX,
        leads(x, 0, end),
        has_filter(x, 0, q),
        q >= end,
    ensures
        has_filter(x, end, q),
{
    let p = choose|p: int| #[trigger] is_filter(x, p, q) && leads(x, 0, p);
    lemma_leads_on(x, 0, p);
    lemma_leads_on(x, 0, end);
    crate::biff12::lemma_record_bounds(x, p);
    if p < end {
        lemma_leads_between(x, 0, p, end);
        let rec = crate::biff12::record_at(x, p)->Ok_0->Some_0;
        lemma_leads_on(x, rec.data_end as int, end);
    }
    lemma_leads_between(x, 0, end, p);
}

/// The ids of records that are no dimension.
pub open spec fn no_dimension() -> spec_fn(u32) -> bool {
    |id: u32| id != 0x98
}

/// Among records that are no dimension none is found.
pub proof fn lemma_no_dimension(x: Seq<u8>, pos: int)
    requires
        0 <= pos <= x.len() <= usize::MAX,
        crate::xlsb_laws::records_from(x, pos, no_dimension()),
    ensures
        leads(x, pos, x.len() as int),
        crate::xlsb_patch::dimension_at(x, pos) == Ok::<Option<int>, Seq<char>>(None),
    decreases x.len() - pos,
{
    crate::biff12::lemma_record_bounds(x, pos);
    if pos < x.len() {
        let rec = crate::biff12::record_at(x, pos)->Ok_0->Some_0;
        lemma_no_dimension(x, rec.data_end as int);
    }
}

/// Whole records at the end of a buffer stay so where they move.
proof fn lemma_records_moved(x: Seq<u8>, y: Seq<u8>, p: int, d: int)
    requires
        0 <= p <= x.len(),
        0 <= d,
        y.len() == x.len() + d,
        y.len() <= usize::MAX,
        forall|j: int| p <= j < x.len() ==> #[trigger] x[j] == y[j + d],
        crate::xlsb_laws::records_from(x, p, no_dimension()),
    ensures
        crate::xlsb_laws::records_from(y, p + d, no_dimension()),
    decreases x.len() - p,
{
    crate::biff12::lemma_record_bounds(x, p);
    if p < x.len() {
        let rec = crate::biff12::record_at(x, p)->Ok_0->Some_0;
        lemma_moved_record(x, y, p, d);
        lemma_records_moved(x, y, rec.data_end as int, d);
    }
}

proof fn lemma_records_in_front(a: Seq<u8>, b: Seq<u8>, p: int)
    requires
        0 <= p <= a.len(),
        a.len() + b.len() <= usize::MAX,
        crate::xlsb_laws::records_from(a, p, no_dimension()),
        crate::xlsb_laws::records_from(b, 0, no_dimension()),
    ensures
        crate::xlsb_laws::records_from(a + b, p, no_dimension()),
    decreases a.len() - p,
{
    crate::biff12::lemma_record_bounds(a, p);
    if p < a.len() {
        let rec = crate::biff12::record_at(a, p)->Ok_0->Some_0;
        assert forall|j: int| p <= j < rec.data_start implies #[trigger] a[j] == (a + b)[j + 0] by {}
        lemma_moved_record(a, a + b, p, 0);
        lemma_records_in_front(a, b, rec.data_end as int);
    } else {
        lemma_records_moved(b, a + b, 0, a.len() as int);
    }
}

/// Whole records behind whole records are whole records.
pub proof fn lemma_records_concat(a: Seq<u8>, b: Seq<u8>)
    requires
        a.len() + b.len() <= usize::MAX,
        crate::xlsb_laws::records_from(a, 0, no_dimension()),
        crate::xlsb_laws::records_from(b, 0, no_dimension()),
    ensures
        crate::xlsb_laws::records_from(a + b, 0, no_dimension()),
{
    lemma_records_in_front(a, b, 0);
}

/// A record that is no dimension is a whole record.
pub proof fn lemma_one_record(id: u32, payload: Seq<u8>)
    requires
        id != 0x98,
        payload.len() <= u32::MAX,
        crate::biff12::record(id as nat, payload).len() <= usize::MAX,
    ensures
        crate::xlsb_laws::records_from(
            crate::biff12::record(id as nat, payload),
            0,
            no_dimension(),
        ),
{
    let none = Seq::<u8>::empty();
    let all = crate::biff12::record(id as nat, payload);
    crate::biff12::law_record_round_trip(none, id, payload, none);
    assert(none + all + none =~= all);
    assert(crate::xlsb_laws::records_from(all, all.len() as int, no_dimension()));
}

/// The place lies in the payload of a record.
pub open spec fn in_payload(x: Seq<u8>, j: int) -> bool {
    exists|p: int| #[trigger]
        leads(x, 0, p) && (crate::biff12::record_at(x, p) matches Ok(Some(rec)) && rec.data_start
            <= j < rec.data_end)
}

/// Two buffers differ in payloads only.
pub open spec fn differ_in_payloads(x: Seq<u8>, y: Seq<u8>) -> bool {
    x.len() == y.len() && forall|j: int| 0 <= j < x.len() && #[trigger] x[j] != y[j] ==> in_payload(
        x,
        j,
    )
}

/// No header of a record lies in the payload of another one.
proof fn lemma_header_apart(x: Seq<u8>, pos: int, j: int)
    requires
        x.len() <= usize::MAX,
        leads(x, 0, pos),
        crate::biff12::record_at(x, pos) matches Ok(Some(rec)) && pos <= j < rec.data_start,
    ensures
        !in_payload(x, j),
{
    lemma_leads_on(x, 0, pos);
    crate::biff12::lemma_record_bounds(x, pos);
    let rec = crate::biff12::record_at(x, pos)->Ok_0->Some_0;
    if in_payload(x, j) {
        let p = choose|p: int| #[trigger]
            leads(x, 0, p) && (crate::biff12::record_at(x, p) matches Ok(Some(rec))
                && rec.data_start <= j < rec.data_end);
        lemma_leads_on(x, 0, p);
        crate::biff12::lemma_record_bounds(x, p);
        let other = crate::biff12::record_at(x, p)->Ok_0->Some_0;
        if p < pos {
            lemma_leads_between(x, 0, p, pos);
            lemma_leads_on(x, other.data_end as int, pos);
        } else if pos < p {
            lemma_leads_between(x, 0, pos, p);
            lemma_leads_on(x, rec.data_end as int, p);
        }
    }
}

/// Whole records stay so where only payloads change.
pub proof fn lemma_records_kept(x: Seq<u8>, y: Seq<u8>, pos: int, kind: spec_fn(u32) -> bool)
    requires
        x.len() <= usize::MAX,
        differ_in_payloads(x, y),
        leads(x, 0, pos),
        crate::xlsb_laws::records_from(x, pos, kind),
    ensures
        crate::xlsb_laws::records_from(y, pos, kind),
    decreases x.len() - pos,
{
    lemma_leads_on(x, 0, pos);
    crate::biff12::lemma_record_bounds(x, pos);
    if pos < x.len() {
        let rec = crate::biff12::record_at(x, pos)->Ok_0->Some_0;
        assert forall|j: int| pos <= j < rec.data_start implies x[j] == y[j] by {
            lemma_header_apart(x, pos, j);
        }
        crate::xlsb_string_laws::lemma_same_record(x, y, pos);
        assert(leads(x, rec.data_end as int, rec.data_end as int));
        assert(leads(x, pos, rec.data_end as int));
        lemma_leads_further(x, 0, pos, rec.data_end as int);
        lemma_records_kept(x, y, rec.data_end as int, kind);
    }
}

/// A dimension that is found stands in the payload of its record.
pub proof fn lemma_dimension_in_payload(x: Seq<u8>, pos: int, j: int)
    requires
        x.len() <= usize::MAX,
        leads(x, 0, pos),
        crate::xlsb_patch::dimension_at(x, pos) matches Ok(Some(q)) && q <= j < q + 36,
    ensures
        in_payload(x, j),
    decreases x.len() - pos,
{
    lemma_leads_on(x, 0, pos);
    crate::biff12::lemma_record_bounds(x, pos);
    let rec = crate::biff12::record_at(x, pos)->Ok_0->Some_0;
    if !(rec.id == 0x98 && rec.len >= 36) {
        assert(leads(x, rec.data_end as int, rec.data_end as int));
        assert(leads(x, pos, rec.data_end as int));
        lemma_leads_further(x, 0, pos, rec.data_end as int);
        lemma_dimension_in_payload(x, rec.data_end as int, j);
    }
}

/// A filter range stands in the payload of its record.
pub proof fn lemma_filter_in_payload(x: Seq<u8>, q: int, j: int)
    requires
        x.len() <= usize::MAX,
        has_filter(x, 0, q),
        q <= j < q + 16,
    ensures
        in_payload(x, j),
{
    let p = choose|p: int| #[trigger] is_filter(x, p, q) && leads(x, 0, p);
    lemma_leads_on(x, 0, p);
    crate::biff12::lemma_record_bounds(x, p);
}

} // verus!
