//! What the XLSX readers and writers make of the texts of shared strings.

use vstd::prelude::*;
use crate::markup::{Attr, Piece};
use crate::xml_documents::StringScan;
use crate::xml_events::XmlKind;

verus! {

/// A run of a shared string: what stands in front of its text, such as a font, the
/// attributes of the text, and the text.
pub struct Run {
    pub looks: Seq<Piece>,
    pub attributes: Seq<Attr>,
    pub text: Seq<char>,
}

/// The pieces say nothing of items and their texts.
pub open spec fn are_looks(pieces: Seq<Piece>) -> bool {
    forall|i: int|
        0 <= i < pieces.len() ==> (#[trigger] pieces[i]).is_sound() && match pieces[i] {
            Piece::Open { name, .. } => name != "si"@ && name != "t"@,
            Piece::Empty { .. } => true,
            Piece::Close(name) => name != "si"@ && name != "t"@,
            _ => true,
        }
}

/// The run is plain markup.
pub open spec fn is_run(run: Run) -> bool {
    &&& are_looks(run.looks)
    &&& crate::markup::are_attributes(run.attributes)
    &&& crate::markup::is_plain(run.text)
}

/// The pieces of a run.
pub open spec fn run_pieces(run: Run) -> Seq<Piece> {
    seq![Piece::Open { name: "r"@, attributes: Seq::empty() }] + run.looks + seq![
        Piece::Open { name: "t"@, attributes: run.attributes },
    ] + seq![Piece::Text(run.text)] + seq![Piece::Close("t"@)] + seq![Piece::Close("r"@)]
}

/// The pieces of the first `n` runs.
pub open spec fn runs_pieces(runs: Seq<Run>, n: nat) -> Seq<Piece>
    decreases n,
{
    if n == 0 {
        Seq::empty()
    } else {
        runs_pieces(runs, (n - 1) as nat) + run_pieces(runs[n - 1])
    }
}

/// What says nothing of items and texts changes nothing outside of texts.
proof fn lemma_looks_read(scan: StringScan, pieces: Seq<Piece>)
    requires
        are_looks(pieces),
        !scan.in_text,
    ensures
        scan.run(crate::markup::items(pieces)) == scan,
    decreases pieces.len(),
{
    if pieces.len() > 0 {
        let some = pieces.drop_last();
        let last = pieces.last();
        assert(last == pieces[pieces.len() - 1]);
        assert forall|i: int| 0 <= i < some.len() implies (#[trigger] some[i]).is_sound()
            && match some[i] {
            Piece::Open { name, .. } => name != "si"@ && name != "t"@,
            Piece::Empty { .. } => true,
            Piece::Close(name) => name != "si"@ && name != "t"@,
            _ => true,
        } by {
            assert(some[i] == pieces[i]);
        }
        lemma_looks_read(scan, some);
        assert(some + seq![last] =~= pieces);
        crate::xlsx_string_laws::lemma_run_concat(scan, some, seq![last]);
        crate::xlsx_string_laws::lemma_run_one(scan, last);
        crate::markup::lemma_piece_tag(last, XmlKind::Start, "si"@);
        crate::markup::lemma_piece_tag(last, XmlKind::Start, "t"@);
        crate::markup::lemma_piece_tag(last, XmlKind::End, "si"@);
        crate::markup::lemma_piece_tag(last, XmlKind::End, "t"@);
        assert(scan.step(last.item()) == scan);
    }
}

proof fn lemma_run_tags()
    ensures
        are_looks(seq![Piece::Open { name: "r"@, attributes: Seq::empty() }]),
        are_looks(seq![Piece::Close("r"@)]),
{
    reveal_strlit("r");
    reveal_strlit("si");
    reveal_strlit("t");
    assert("r"@[0] == 'r' && "t"@[0] == 't' && "si"@[0] == 's');
    assert(crate::markup::are_attributes(Seq::empty()));
    assert(crate::markup::is_name("r"@));
}

/// A run adds its text to that of the item.
proof fn lemma_run_read(scan: StringScan, run: Run)
    requires
        is_run(run),
        scan.in_item,
        !scan.in_text,
    ensures
        scan.run(crate::markup::items(run_pieces(run))) == (StringScan {
            value: scan.value + run.text,
            ..scan
        }),
{
    let open = seq![Piece::Open { name: "r"@, attributes: Seq::empty() }];
    let t = Piece::Open { name: "t"@, attributes: run.attributes };
    let text = Piece::Text(run.text);
    let close = Piece::Close("t"@);
    let end = seq![Piece::Close("r"@)];
    let p1 = open + run.looks;
    let p2 = p1 + seq![t];
    let p3 = p2 + seq![text];
    let p4 = p3 + seq![close];
    lemma_run_tags();
    crate::xlsx_string_laws::lemma_run_concat(scan, open, run.looks);
    lemma_looks_read(scan, open);
    lemma_looks_read(scan, run.looks);
    crate::xlsx_string_laws::lemma_run_concat(scan, p1, seq![t]);
    crate::xlsx_string_laws::lemma_run_one(scan, t);
    crate::xlsx_string_laws::lemma_tags_read(scan, run.attributes);
    let s2 = StringScan { in_text: true, ..scan };
    crate::xlsx_string_laws::lemma_run_concat(scan, p2, seq![text]);
    crate::xlsx_string_laws::lemma_run_one(s2, text);
    crate::text::lemma_bytes_text(run.text);
    let s3 = StringScan { value: scan.value + run.text, ..s2 };
    assert(s2.step(text.item()) == s3);
    crate::xlsx_string_laws::lemma_run_concat(scan, p3, seq![close]);
    crate::xlsx_string_laws::lemma_run_one(s3, close);
    crate::xlsx_string_laws::lemma_tags_read(s3, run.attributes);
    let s4 = StringScan { in_text: false, ..s3 };
    crate::xlsx_string_laws::lemma_run_concat(scan, p4, end);
    lemma_looks_read(s4, end);
}

/// The text of the first `n` runs.
spec fn joined_text(runs: Seq<Run>, n: nat) -> Seq<char>
    decreases n,
{
    if n == 0 {
        Seq::empty()
    } else {
        joined_text(runs, (n - 1) as nat) + runs[n - 1].text
    }
}

proof fn lemma_runs_read(scan: StringScan, runs: Seq<Run>, n: nat)
    requires
        n <= runs.len(),
        forall|i: int| 0 <= i < runs.len() ==> is_run(#[trigger] runs[i]),
        scan.in_item,
        !scan.in_text,
        scan.value == Seq::<char>::empty(),
    ensures
        scan.run(crate::markup::items(runs_pieces(runs, n))) == (StringScan {
            value: joined_text(runs, n),
            ..scan
        }),
    decreases n,
{
    if n > 0 {
        let m = (n - 1) as nat;
        lemma_runs_read(scan, runs, m);
        crate::xlsx_string_laws::lemma_run_concat(
            scan,
            runs_pieces(runs, m),
            run_pieces(runs[n - 1]),
        );
        assert(is_run(runs[n - 1]));
        lemma_run_read(StringScan { value: joined_text(runs, m), ..scan }, runs[n - 1]);
    }
}

proof fn lemma_joined(runs: Seq<Run>, n: nat)
    requires
        n <= runs.len(),
    ensures
        joined_text(runs, n) == Seq::new(n, |i: int| runs[i].text).flatten(),
    decreases n,
{
    let texts = Seq::new(n, |i: int| runs[i].text);
    if n == 0 {
        assert(texts.flatten() =~= Seq::<char>::empty());
    } else {
        let m = (n - 1) as nat;
        lemma_joined(runs, m);
        let fewer = Seq::new(m, |i: int| runs[i].text);
        assert(texts =~= fewer.push(runs[n - 1].text));
        fewer.lemma_flatten_push(runs[n - 1].text);
    }
}

/// A shared string that is made of runs is one string: the texts of the runs, one
/// behind the other. How they look says nothing.
pub proof fn law_runs_are_one_string(scan: StringScan, runs: Seq<Run>)
    requires
        forall|i: int| 0 <= i < runs.len() ==> is_run(#[trigger] runs[i]),
    ensures
        ({
            let pieces = seq![Piece::Open { name: "si"@, attributes: Seq::empty() }]
                + runs_pieces(runs, runs.len()) + seq![Piece::Close("si"@)];
            let after = scan.run(crate::markup::items(pieces));
            &&& after.found.len() == scan.found.len() + 1
            &&& after.found.drop_last() == scan.found
            &&& after.found.last() == Seq::new(runs.len(), |i: int| runs[i].text).flatten()
        }),
{
    let open = Piece::Open { name: "si"@, attributes: Seq::empty() };
    let close = Piece::Close("si"@);
    let inner = runs_pieces(runs, runs.len());
    let n = runs.len();
    crate::markup::lemma_block_none();
    crate::xlsx_markup::lemma_no_attributes();
    crate::xlsx_string_laws::lemma_run_concat(scan, seq![open], inner);
    crate::xlsx_string_laws::lemma_run_concat(scan, seq![open] + inner, seq![close]);
    crate::xlsx_string_laws::lemma_run_one(scan, open);
    crate::xlsx_string_laws::lemma_tags_read(scan, Seq::empty());
    let s1 = StringScan { in_item: true, in_text: false, value: Seq::empty(), ..scan };
    lemma_runs_read(s1, runs, n);
    let s2 = StringScan { value: joined_text(runs, n), ..s1 };
    crate::xlsx_string_laws::lemma_run_one(s2, close);
    crate::xlsx_string_laws::lemma_tags_read(s2, Seq::empty());
    lemma_joined(runs, n);
    let after = s2.step(close.item());
    assert(after.found.drop_last() =~= scan.found);
}

/// A shared string is marked as one whose white space counts exactly if it starts or
/// ends with a blank or holds a tab or a line break.
pub proof fn law_white_space_is_marked(text: Seq<char>)
    ensures
        ({
            let kept = crate::xlsx_parts::cell_escaped(text);
            let counts = (kept.len() > 0 && (kept[0] == ' ' || kept[kept.len() - 1] == ' '))
                || kept.contains('\t') || kept.contains('\n') || kept.contains('\r');
            let marks: Seq<Attr> = if counts {
                seq![(Attr { key: "xml:space"@, value: "preserve"@ })]
            } else {
                Seq::empty()
            };
            crate::xlsx_string_laws::item_pieces(text)[1] == (Piece::Open {
                name: "t"@,
                attributes: marks,
            })
        }),
{
    let kept = crate::xlsx_parts::cell_escaped(text);
    if kept.contains('\t') {
        let i = choose|i: int| 0 <= i < kept.len() && kept[i] == '\t';
        assert(crate::xlsx_parts::is_break(kept[i]));
    }
    if kept.contains('\n') {
        let i = choose|i: int| 0 <= i < kept.len() && kept[i] == '\n';
        assert(crate::xlsx_parts::is_break(kept[i]));
    }
    if kept.contains('\r') {
        let i = choose|i: int| 0 <= i < kept.len() && kept[i] == '\r';
        assert(crate::xlsx_parts::is_break(kept[i]));
    }
    let preserved = crate::xlsx_parts::must_preserve(kept);
    let counts = (kept.len() > 0 && (kept[0] == ' ' || kept[kept.len() - 1] == ' '))
        || kept.contains('\t') || kept.contains('\n') || kept.contains('\r');
    assert(preserved == counts);
    let marks: Seq<Attr> = if counts {
        seq![(Attr { key: "xml:space"@, value: "preserve"@ })]
    } else {
        Seq::empty()
    };
    assert(crate::xlsx_string_laws::space_attributes(preserved) =~= marks);
    assert(crate::xlsx_string_laws::item_pieces(text)[1] == (Piece::Open {
        name: "t"@,
        attributes: crate::xlsx_string_laws::space_attributes(preserved),
    }));
}

} // verus!
