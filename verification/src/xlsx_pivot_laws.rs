//! What the XLSX updater changes in pivot caches and pivot tables.

use vstd::prelude::*;
use crate::markup::{Attr, Piece};

verus! {

/// An attribute that is put in at the end of an opening tag.
proof fn lemma_attribute_appended(name: Seq<char>, attributes: Seq<Attr>, a: Attr)
    requires
        crate::markup::is_name(name),
        crate::markup::are_attributes(attributes),
    ensures
        ({
            let tag = (Piece::Open { name, attributes }).text();
            let new = (Piece::Open { name, attributes: attributes.push(a) }).text();
            &&& tag.len() > 1
            &&& new == tag.drop_last() + crate::markup::attribute_text(a) + ">"@
            &&& !crate::xml_patch::ends_with(tag, "/>"@)
        }),
{
    reveal_strlit("<");
    reveal_strlit(">");
    reveal_strlit("/>");
    let tag = (Piece::Open { name, attributes }).text();
    let new = (Piece::Open { name, attributes: attributes.push(a) }).text();
    let text = crate::markup::attributes_text(attributes);
    assert(attributes.push(a).drop_last() =~= attributes);
    assert(tag.drop_last() =~= "<"@ + (name + text));
    assert(new =~= tag.drop_last() + crate::markup::attribute_text(a) + ">"@);
    let n = tag.len() as int;
    assert(tag[n - 2] == (name + text).last());
    assert((name + text).last() != '/') by {
        if attributes.len() > 0 {
            let last = attributes.last();
            reveal_strlit("\"");
            assert(text.last() == crate::markup::attribute_text(last).last());
            assert(crate::markup::attribute_text(last).last() == '"');
        } else {
            assert(text =~= Seq::<char>::empty());
            assert(crate::markup::is_letter(name[name.len() - 1]));
            assert((name + text).last() == name[name.len() - 1]);
        }
    }
    if crate::xml_patch::ends_with(tag, "/>"@) {
        assert(tag.subrange(n - 2, n)[0] == tag[n - 2]);
    }
}

/// The first tag of a name.
proof fn lemma_first_at(pieces: Seq<Piece>, k: int, local: Seq<char>)
    requires
        0 <= k < pieces.len(),
        crate::xlsx_sheet_markup::is_tag(pieces[k], local),
        forall|j: int| 0 <= j < k ==> !crate::xlsx_sheet_markup::is_tag(
            #[trigger] pieces[j],
            local,
        ),
    ensures
        crate::xlsx_replaced_markup::first_tag(pieces, local) == Some(k),
{
    crate::xlsx_replaced_markup::lemma_first(pieces, 0, local);
}

proof fn lemma_pivot_names()
    ensures
        crate::markup::is_name("pivotCacheDefinition"@),
        crate::markup::is_name("pivotTableDefinition"@),
        crate::markup::is_name("worksheetSource"@),
        crate::markup::is_name("ref"@),
        crate::markup::is_name("sheet"@),
        "ref"@ != "sheet"@,
        !crate::xml_tags::names_attribute("ref"@, "sheet"@),
        !crate::text::same_ignoring_case("worksheetSource"@, "pivotCacheDefinition"@),
{
    reveal_strlit("pivotCacheDefinition");
    reveal_strlit("pivotTableDefinition");
    reveal_strlit("worksheetSource");
    reveal_strlit("ref");
    reveal_strlit("sheet");
    assert("ref"@.len() == 3 && "sheet"@.len() == 5);
    assert("worksheetSource"@.len() != "pivotCacheDefinition"@.len());
    assert(!"sheet"@.contains(':'));
}

/// The source of a pivot cache: a range of a sheet.
pub open spec fn source_piece(range: Seq<char>, sheet: Seq<char>) -> Piece {
    Piece::Empty {
        name: "worksheetSource"@,
        attributes: seq![
            Attr { key: "ref"@, value: range },
            Attr { key: "sheet"@, value: crate::xml_utils::with_entities(sheet) },
        ],
        spaced: false,
    }
}

/// The source of a pivot cache tells its sheet, and its range can be set.
proof fn lemma_source(range: Seq<char>, name: Seq<char>, dim: Seq<char>)
    requires
        source_piece(range, name).is_sound(),
        crate::text::is_plain(source_piece(range, name).text()),
        !crate::xml_utils::has_control(name),
        crate::xml_utils::escaped_text(dim) == dim,
    ensures
        crate::xml_tags::attribute(source_piece(range, name).text(), "sheet"@) == Some(name),
        crate::xml_patch::with_attribute(source_piece(range, name).text(), "ref"@, dim)
            == source_piece(dim, name).text(),
        crate::xlsx_range_markup::with_range(source_piece(range, name), dim) == source_piece(
            dim,
            name,
        ),
{
    lemma_pivot_names();
    let piece = source_piece(range, name);
    let a = Attr { key: "ref"@, value: range };
    let b = Attr { key: "sheet"@, value: crate::xml_utils::with_entities(name) };
    let list = seq![a, b];
    assert(list[0] == a && list[1] == b);
    assert(crate::markup::is_value(list[0].value) && crate::markup::is_value(list[1].value));
    crate::xlsx_date_style_laws::lemma_two_attributes("worksheetSource"@, a, b);
    crate::xml_utils::law_escape_round_trip(name);
    assert(crate::xlsx_range_markup::attributes_of(piece) == list);
    assert(crate::xlsx_range_markup::is_range_at(
        crate::xlsx_range_markup::attributes_of(piece),
        0,
    ));
    crate::xlsx_range_markup::lemma_range_set(piece, dim);
    assert(crate::xlsx_range_markup::ranged(list, dim) =~= seq![
        Attr { key: "ref"@, value: dim },
        b,
    ]);
}

/// A pivot cache over a sheet is brought in step with the new rows of the sheet: its
/// source is the range from the first cell to the last one, and its definition tells
/// the number of records. Nothing else changes, and nothing at all in a cache over
/// another sheet. The tags have to be the first of their names, and the definition to
/// tell no number of records yet.
#[verifier::spinoff_prover]
pub proof fn law_pivot_cache_follows_its_sheet(
    pieces: Seq<Piece>,
    r: int,
    attributes: Seq<Attr>,
    w: int,
    range: Seq<char>,
    name: Seq<char>,
    sheet: Seq<char>,
    rows: int,
    columns: int,
    records: int,
)
    requires
        crate::xlsx_sheet_markup::all_clear(pieces),
        0 <= r < pieces.len(),
        0 <= w < pieces.len(),
        pieces[r] == (Piece::Open { name: "pivotCacheDefinition"@, attributes }),
        pieces[w] == source_piece(range, name),
        forall|j: int| 0 <= j < r ==> !crate::xlsx_sheet_markup::is_tag(
            #[trigger] pieces[j],
            "pivotCacheDefinition"@,
        ),
        forall|j: int| 0 <= j < w ==> !crate::xlsx_sheet_markup::is_tag(
            #[trigger] pieces[j],
            "worksheetSource"@,
        ),
        crate::text::is_plain(pieces[w].text()),
        !crate::xml_utils::has_control(name),
        !crate::xml_patch::occurs(pieces[r].text(), "recordCount="@),
    ensures
        ({
            let dim = crate::xlsx_patch::range_ref(rows, columns);
            let updated = crate::xlsx_patch::updated_cache(
                crate::markup::written(pieces),
                sheet,
                dim,
                records,
            );
            &&& name != sheet ==> updated is None
            &&& name == sheet ==> updated == Some(
                crate::markup::written(
                    pieces.update(w, source_piece(dim, name)).update(
                        r,
                        Piece::Open {
                            name: "pivotCacheDefinition"@,
                            attributes: attributes.push(
                                Attr {
                                    key: "recordCount"@,
                                    value: crate::text::decimal(records),
                                },
                            ),
                        },
                    ),
                ),
            )
        }),
{
    lemma_pivot_names();
    let dim = crate::xlsx_patch::range_ref(rows, columns);
    let xml = crate::markup::written(pieces);
    let none = Seq::<char>::empty();
    crate::xlsx_range_markup::lemma_dim(rows, columns);
    assert(none + xml + none =~= xml);
    lemma_first_at(pieces, w, "worksheetSource"@);
    crate::xlsx_replaced_markup::lemma_found(none, pieces, none, "worksheetSource"@);
    assert(pieces[w].is_sound() && pieces[r].is_sound());
    lemma_source(range, name, dim);
    let new_source = source_piece(dim, name);
    crate::xlsx_replaced_markup::lemma_piece_replaced(none, pieces, none, w, new_source);
    if name == sheet {
        let moved = pieces.update(w, new_source);
        let text = crate::markup::written(moved);
        assert(none + text + none =~= text);
        assert(crate::xlsx_sheet_markup::is_clear(pieces[w]));
        crate::xlsx_range_markup::lemma_range_kept(pieces[w], dim);
        assert(crate::xlsx_sheet_markup::all_clear(moved)) by {
            assert forall|i: int| 0 <= i < moved.len() implies (#[trigger] moved[i]).is_sound()
                && crate::xlsx_sheet_markup::is_clear(moved[i]) by {
                if i != w {
                    assert(moved[i] == pieces[i]);
                }
            }
        }
        assert(r != w);
        assert(moved[r] == pieces[r]);
        assert forall|j: int| 0 <= j < r implies !crate::xlsx_sheet_markup::is_tag(
            #[trigger] moved[j],
            "pivotCacheDefinition"@,
        ) by {
            if j != w {
                assert(moved[j] == pieces[j]);
            }
        }
        lemma_first_at(moved, r, "pivotCacheDefinition"@);
        crate::xlsx_replaced_markup::lemma_found(none, moved, none, "pivotCacheDefinition"@);
        let a = Attr { key: "recordCount"@, value: crate::text::decimal(records) };
        let new_root = Piece::Open {
            name: "pivotCacheDefinition"@,
            attributes: attributes.push(a),
        };
        lemma_attribute_appended("pivotCacheDefinition"@, attributes, a);
        lemma_count_text(pieces[r].text().drop_last(), a);
        assert(crate::xlsx_patch::with_record_count(pieces[r].text(), records)
            == new_root.text());
        crate::xlsx_replaced_markup::lemma_piece_replaced(none, moved, none, r, new_root);
        let last = crate::markup::written(moved.update(r, new_root));
        assert(none + last + none =~= last);
    }
}

/// The text of the attribute for the number of records.
proof fn lemma_count_text(front: Seq<char>, a: Attr)
    requires
        a.key == "recordCount"@,
    ensures
        front + " recordCount=\""@ + a.value + "\">"@ == front + crate::markup::attribute_text(a)
            + ">"@,
{
    reveal_strlit(" recordCount=\"");
    reveal_strlit("recordCount");
    reveal_strlit(" ");
    reveal_strlit("=\"");
    reveal_strlit("\"");
    reveal_strlit("\">");
    reveal_strlit(">");
    assert(" recordCount=\""@ =~= " "@ + "recordCount"@ + "=\""@);
    assert("\">"@ =~= "\""@ + ">"@);
    assert(front + " recordCount=\""@ + a.value + "\">"@ =~= front + crate::markup::attribute_text(
        a,
    ) + ">"@);
}

/// A pivot table that does not say whether it is refreshed when the workbook is opened
/// says so then, and nothing else of it changes.
pub proof fn law_pivot_table_is_refreshed(
    pieces: Seq<Piece>,
    r: int,
    attributes: Seq<Attr>,
)
    requires
        crate::xlsx_sheet_markup::all_clear(pieces),
        0 <= r < pieces.len(),
        pieces[r] == (Piece::Open { name: "pivotTableDefinition"@, attributes }),
        forall|j: int| 0 <= j < r ==> !crate::xlsx_sheet_markup::is_tag(
            #[trigger] pieces[j],
            "pivotTableDefinition"@,
        ),
        !crate::xml_patch::occurs(pieces[r].text(), "refreshOnLoad"@),
    ensures
        crate::xlsx_patch::refreshed_table(crate::markup::written(pieces)) == Some(
            crate::markup::written(
                pieces.update(
                    r,
                    Piece::Open {
                        name: "pivotTableDefinition"@,
                        attributes: attributes.push(
                            Attr { key: "refreshOnLoad"@, value: "1"@ },
                        ),
                    },
                ),
            ),
        ),
{
    lemma_pivot_names();
    let xml = crate::markup::written(pieces);
    let none = Seq::<char>::empty();
    assert(none + xml + none =~= xml);
    lemma_first_at(pieces, r, "pivotTableDefinition"@);
    crate::xlsx_replaced_markup::lemma_found(none, pieces, none, "pivotTableDefinition"@);
    assert(pieces[r].is_sound());
    let a = Attr { key: "refreshOnLoad"@, value: "1"@ };
    let new_root = Piece::Open { name: "pivotTableDefinition"@, attributes: attributes.push(a) };
    lemma_attribute_appended("pivotTableDefinition"@, attributes, a);
    let front = pieces[r].text().drop_last();
    assert(front + " refreshOnLoad=\"1\">"@ == front + crate::markup::attribute_text(a) + ">"@) by {
        reveal_strlit(" refreshOnLoad=\"1\">");
        reveal_strlit("refreshOnLoad");
        reveal_strlit("1");
        reveal_strlit(" ");
        reveal_strlit("=\"");
        reveal_strlit("\"");
        reveal_strlit(">");
        assert(front + " refreshOnLoad=\"1\">"@ =~= front + crate::markup::attribute_text(a)
            + ">"@);
    }
    crate::xlsx_replaced_markup::lemma_piece_replaced(none, pieces, none, r, new_root);
    let last = crate::markup::written(pieces.update(r, new_root));
    assert(none + last + none =~= last);
}

} // verus!
