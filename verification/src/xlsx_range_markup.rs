//! Tags of plain markup whose range is set.

use vstd::prelude::*;
use crate::markup::{Attr, Piece};

verus! {

/// Attributes with their range set.
pub open spec fn ranged(list: Seq<Attr>, dim: Seq<char>) -> Seq<Attr> {
    Seq::new(
        list.len(),
        |i: int|
            if list[i].key == "ref"@ {
                Attr { key: "ref"@, value: dim }
            } else {
                list[i]
            },
    )
}

/// A tag with its range set.
pub open spec fn with_range(piece: Piece, dim: Seq<char>) -> Piece {
    match piece {
        Piece::Open { name, attributes } => Piece::Open {
            name,
            attributes: ranged(attributes, dim),
        },
        Piece::Empty { name, attributes, spaced } => Piece::Empty {
            name,
            attributes: ranged(attributes, dim),
            spaced,
        },
        _ => piece,
    }
}

/// A key that ends like the key of a range, capitals or not.
pub open spec fn ends_in_ref(key: Seq<char>) -> bool {
    key.len() >= 3 && crate::text::same_ignoring_case(key.skip(key.len() - 3), "ref"@)
}

/// A value without the sign that parts a key from its value.
pub open spec fn has_no_equals(s: Seq<char>) -> bool {
    forall|i: int| 0 <= i < s.len() ==> #[trigger] s[i] != '='
}

/// The range stands here, and nothing in front of it looks like it.
pub open spec fn is_range_at(list: Seq<Attr>, k: int) -> bool {
    &&& 0 <= k < list.len()
    &&& list[k].key == "ref"@
    &&& forall|j: int|
        0 <= j < k ==> !ends_in_ref((#[trigger] list[j]).key) && has_no_equals(list[j].value)
}

/// The attributes of a tag that opens an element.
pub open spec fn attributes_of(piece: Piece) -> Seq<Attr> {
    match piece {
        Piece::Open { attributes, .. } => attributes,
        Piece::Empty { attributes, .. } => attributes,
        _ => Seq::empty(),
    }
}

/// A tag in ASCII with a range that nothing in front of it looks like.
pub open spec fn has_range(piece: Piece) -> bool {
    &&& exists|k: int| #[trigger] is_range_at(attributes_of(piece), k)
    &&& crate::text::is_plain(piece.text())
}

/// A text in which no `=` stands behind the key of a range.
pub open spec fn is_free(s: Seq<char>) -> bool {
    forall|p: int|
        3 <= p < s.len() && #[trigger] s[p] == '=' ==> !(crate::text::ascii_lower(s[p - 3]) == 'r'
            && crate::text::ascii_lower(s[p - 2]) == 'e' && crate::text::ascii_lower(s[p - 1])
            == 'f')
}

proof fn lemma_free_attribute(s: Seq<char>, a: Attr)
    requires
        is_free(s),
        crate::markup::is_key(a.key),
        !ends_in_ref(a.key),
        has_no_equals(a.value),
    ensures
        is_free(s + crate::markup::attribute_text(a)),
{
    reveal_strlit(" ");
    reveal_strlit("=\"");
    reveal_strlit("\"");
    reveal_strlit("ref");
    let t = crate::markup::attribute_text(a);
    let all = s + t;
    let n = s.len() as int;
    let k = a.key.len() as int;
    assert forall|p: int| 3 <= p < all.len() && #[trigger] all[p] == '=' implies !(
    crate::text::ascii_lower(all[p - 3]) == 'r' && crate::text::ascii_lower(all[p - 2]) == 'e'
        && crate::text::ascii_lower(all[p - 1]) == 'f') by {
        if p < n {
            assert(all[p] == s[p] && all[p - 1] == s[p - 1]);
            assert(all[p - 2] == s[p - 2] && all[p - 3] == s[p - 3]);
        } else {
            assert(all[p] == t[p - n]);
            if 1 <= p - n < 1 + k {
                assert(t[p - n] == a.key[p - n - 1]);
            } else if 3 + k <= p - n < 3 + k + a.value.len() {
                assert(t[p - n] == a.value[p - n - 3 - k]);
            }
            assert(p - n == 1 + k);
            if k < 3 {
                assert(all[n] == t[0]);
                assert(t[0] == ' ');
            } else {
                let tail = a.key.skip(k - 3);
                assert(all[p - 3] == t[k - 2] && t[k - 2] == a.key[k - 3]);
                assert(all[p - 2] == t[k - 1] && t[k - 1] == a.key[k - 2]);
                assert(all[p - 1] == t[k] && t[k] == a.key[k - 1]);
                assert(tail[0] == a.key[k - 3] && tail[1] == a.key[k - 2] && tail[2] == a.key[k
                    - 1]);
                if crate::text::ascii_lower(all[p - 3]) == 'r' && crate::text::ascii_lower(
                    all[p - 2],
                ) == 'e' && crate::text::ascii_lower(all[p - 1]) == 'f' {
                    assert forall|i: int| 0 <= i < tail.len() implies crate::text::ascii_lower(
                        #[trigger] tail[i],
                    ) == crate::text::ascii_lower("ref"@[i]) by {
                        assert(i == 0 || i == 1 || i == 2);
                    }
                }
            }
        }
    }
}

proof fn lemma_free_attributes(s: Seq<char>, list: Seq<Attr>, k: int)
    requires
        is_free(s),
        crate::markup::are_attributes(list),
        0 <= k <= list.len(),
        forall|j: int|
            0 <= j < k ==> !ends_in_ref((#[trigger] list[j]).key) && has_no_equals(list[j].value),
    ensures
        is_free(s + crate::markup::attributes_text(list.take(k))),
    decreases k,
{
    if k == 0 {
        assert(list.take(0) =~= Seq::<Attr>::empty());
        assert(s + crate::markup::attributes_text(list.take(0)) =~= s);
    } else {
        lemma_free_attributes(s, list, k - 1);
        assert(list.take(k).drop_last() =~= list.take(k - 1));
        assert(list.take(k).last() == list[k - 1]);
        let before = s + crate::markup::attributes_text(list.take(k - 1));
        lemma_free_attribute(before, list[k - 1]);
        assert(before + crate::markup::attribute_text(list[k - 1]) =~= s
            + crate::markup::attributes_text(list.take(k)));
    }
}

/// The text of attributes that follow others.
proof fn lemma_attributes_concat(a: Seq<Attr>, b: Seq<Attr>)
    ensures
        crate::markup::attributes_text(a + b) == crate::markup::attributes_text(a)
            + crate::markup::attributes_text(b),
    decreases b.len(),
{
    if b.len() == 0 {
        assert(a + b =~= a);
        assert(crate::markup::attributes_text(a) + Seq::<char>::empty()
            =~= crate::markup::attributes_text(a));
    } else {
        lemma_attributes_concat(a, b.drop_last());
        assert((a + b).drop_last() =~= a + b.drop_last());
        assert((a + b).last() == b.last());
        assert(crate::markup::attributes_text(a + b) =~= crate::markup::attributes_text(a)
            + crate::markup::attributes_text(b));
    }
}

/// The range is set in a text that holds it.
proof fn lemma_range_in_text(x: Seq<char>, value: Seq<char>, after: Seq<char>, dim: Seq<char>)
    requires
        is_free(x),
        crate::markup::is_value(value),
        after.len() > 0,
        after[0] == '"',
        crate::text::is_plain(x + " ref=\""@ + value + after),
        crate::xml_utils::escaped_text(dim) == dim,
    ensures
        crate::xml_patch::with_attribute(x + " ref=\""@ + value + after, "ref"@, dim) == x
            + " ref=\""@ + dim + after,
        crate::xml_utils::stands_at(
            x + " ref=\""@ + value + after,
            "ref="@,
            x.len() + 1int,
        ),
{
    let before = x + " ref=\""@;
    let tag = before + value + after;
    let key = "ref"@ + "="@;
    let spaced = " "@ + "ref"@ + "="@;
    let at = x.len() + 1int;
    reveal_strlit(" ref=\"");
    reveal_strlit("ref");
    reveal_strlit("=");
    reveal_strlit(" ");
    reveal_strlit("ref=");
    assert(key =~= seq!['r', 'e', 'f', '=']);
    assert(spaced =~= seq![' ', 'r', 'e', 'f', '=']);
    assert(before[before.len() - 1] == '"');
    assert forall|i: int| 0 <= i < 5 implies tag[at - 1 + i] == #[trigger] spaced[i] by {
        assert(tag[at - 1 + i] == " ref=\""@[i]);
    }
    crate::xlsx_string_update::lemma_stands(tag, spaced, at - 1);
    crate::xlsx_string_update::lemma_find_some(tag, spaced, 0, at - 1);
    assert forall|i: int| 0 <= i < 4 implies tag[at + i] == #[trigger] key[i] by {
        assert(tag[at - 1 + (i + 1)] == spaced[i + 1]);
    }
    crate::xlsx_string_update::lemma_stands(tag, key, at);
    assert forall|j: int| 0 <= j < at implies !crate::xml_patch::resembles_at(tag, key, j) by {
        if crate::xml_patch::resembles_at(tag, key, j) {
            crate::xlsx_string_update::lemma_resembles(tag, key, j, 0);
            crate::xlsx_string_update::lemma_resembles(tag, key, j, 1);
            crate::xlsx_string_update::lemma_resembles(tag, key, j, 2);
            crate::xlsx_string_update::lemma_resembles(tag, key, j, 3);
            assert(tag[j + 3] == '=');
            if j + 3 < x.len() {
                assert(tag[j + 3] == x[j + 3] && tag[j + 2] == x[j + 2]);
                assert(tag[j + 1] == x[j + 1] && tag[j] == x[j]);
            } else {
                assert(tag[j + 3] == " ref=\""@[j + 3 - x.len()]);
            }
        }
    }
    crate::xlsx_string_update::lemma_find_first(tag, key, 0, at);
    crate::xlsx_string_update::lemma_value_replaced(before, value, after, "ref"@, dim);
    assert(tag.subrange(at, at + 4) =~= "ref="@) by {
        assert forall|i: int| 0 <= i < 4 implies tag[at + i] == "ref="@[i] by {
            assert(tag[at + i] == key[i]);
        }
    }
}

/// The text of a tag around its range.
proof fn lemma_range_parts(
    name: Seq<char>,
    list: Seq<Attr>,
    k: int,
    end: Seq<char>,
    dim: Seq<char>,
)
    requires
        0 <= k < list.len(),
        list[k].key == "ref"@,
        crate::markup::are_attributes(list),
    ensures
        ({
            let x = "<"@ + name + crate::markup::attributes_text(list.take(k));
            let after = "\""@ + crate::markup::attributes_text(list.skip(k + 1)) + end;
            &&& "<"@ + (name + crate::markup::attributes_text(list)) + end == x + " ref=\""@
                + list[k].value + after
            &&& "<"@ + (name + crate::markup::attributes_text(ranged(list, dim))) + end == x
                + " ref=\""@ + dim + after
        }),
{
    reveal_strlit(" ref=\"");
    reveal_strlit("ref");
    reveal_strlit(" ");
    reveal_strlit("=\"");
    let a = list.take(k);
    let b = list.skip(k + 1);
    let new = Attr { key: "ref"@, value: dim };
    assert(list =~= a + seq![list[k]] + b);
    assert(ranged(list, dim) =~= a + seq![new] + b) by {
        assert forall|i: int| 0 <= i < list.len() && i != k implies (#[trigger] list[i]).key
            != "ref"@ by {
            if i < k {
                assert(list[i].key != list[k].key);
            } else {
                assert(list[k].key != list[i].key);
            }
        }
    }
    lemma_attributes_concat(a, seq![list[k]]);
    lemma_attributes_concat(a + seq![list[k]], b);
    lemma_attributes_concat(a, seq![new]);
    lemma_attributes_concat(a + seq![new], b);
    lemma_attributes_one(list[k]);
    lemma_attributes_one(new);
    assert(" ref=\""@ =~= " "@ + "ref"@ + "=\""@);
    lemma_around(
        "<"@,
        name,
        crate::markup::attributes_text(a),
        " ref=\""@,
        list[k].value,
        "\""@,
        crate::markup::attributes_text(b),
        end,
    );
    lemma_around(
        "<"@,
        name,
        crate::markup::attributes_text(a),
        " ref=\""@,
        dim,
        "\""@,
        crate::markup::attributes_text(b),
        end,
    );
}

proof fn lemma_attributes_one(a: Attr)
    ensures
        crate::markup::attributes_text(seq![a]) == crate::markup::attribute_text(a),
{
    assert(seq![a].drop_last() =~= Seq::<Attr>::empty());
    assert(crate::markup::attributes_text(Seq::<Attr>::empty()) =~= Seq::<char>::empty());
    assert(crate::markup::attributes_text(seq![a]) =~= crate::markup::attribute_text(a));
}

proof fn lemma_around(
    a: Seq<char>,
    b: Seq<char>,
    c: Seq<char>,
    d: Seq<char>,
    e: Seq<char>,
    f: Seq<char>,
    g: Seq<char>,
    h: Seq<char>,
)
    ensures
        a + (b + (c + (d + e + f) + g)) + h == (a + b + c) + d + e + (f + g + h),
{
    assert(a + (b + (c + (d + e + f) + g)) + h =~= (a + b + c) + d + e + (f + g + h));
}

/// The text of the end of a tag that opens an element.
spec fn tag_end(piece: Piece) -> Seq<char> {
    match piece {
        Piece::Open { .. } => ">"@,
        Piece::Empty { spaced, .. } => (if spaced {
            " "@
        } else {
            Seq::empty()
        }) + "/>"@,
        _ => Seq::empty(),
    }
}

proof fn lemma_tag_parts(piece: Piece)
    requires
        crate::xlsx_sheet_markup::tag_name(piece) is Some,
    ensures
        piece.text() == "<"@ + (crate::xlsx_sheet_markup::tag_name(piece)->0
            + crate::markup::attributes_text(attributes_of(piece))) + tag_end(piece),
{
    match piece {
        Piece::Empty { name, attributes, spaced } => {
            assert(piece.text() =~= "<"@ + (name + crate::markup::attributes_text(attributes))
                + tag_end(piece));
        },
        _ => {},
    }
}

/// Setting the range of a tag sets the value of its attribute and nothing else.
pub proof fn lemma_range_set(piece: Piece, dim: Seq<char>)
    requires
        piece.is_sound(),
        crate::xlsx_sheet_markup::tag_name(piece) is Some,
        has_range(piece),
        crate::xml_utils::escaped_text(dim) == dim,
    ensures
        crate::xml_patch::with_attribute(piece.text(), "ref"@, dim) == with_range(
            piece,
            dim,
        ).text(),
        crate::xml_patch::occurs(piece.text(), "ref="@),
{
    let list = attributes_of(piece);
    let name = crate::xlsx_sheet_markup::tag_name(piece)->0;
    let k = choose|k: int| #[trigger] is_range_at(list, k);
    let end = tag_end(piece);
    let x = "<"@ + name + crate::markup::attributes_text(list.take(k));
    let after = "\""@ + crate::markup::attributes_text(list.skip(k + 1)) + end;
    reveal_strlit("<");
    reveal_strlit("\"");
    lemma_tag_parts(piece);
    lemma_tag_parts(with_range(piece, dim));
    lemma_range_parts(name, list, k, end, dim);
    let start = "<"@ + name;
    assert forall|p: int| 3 <= p < start.len() implies #[trigger] start[p] != '=' by {
        assert(start[p] == name[p - 1]);
        assert(crate::markup::is_letter(name[p - 1]));
    }
    lemma_free_attributes(start, list, k);
    assert(crate::markup::is_value(list[k].value));
    lemma_range_in_text(x, list[k].value, after, dim);
    crate::xml_patch::lemma_find_text(piece.text(), "ref="@, 0);
}

/// A tag stays sound and clear when its range is set, and opens the same element.
pub proof fn lemma_range_kept(piece: Piece, dim: Seq<char>)
    requires
        piece.is_sound(),
        crate::xlsx_sheet_markup::is_clear(piece),
        crate::markup::is_value(dim),
        crate::xlsx_sheet_markup::has_no_bounds(dim),
    ensures
        with_range(piece, dim).is_sound(),
        crate::xlsx_sheet_markup::is_clear(with_range(piece, dim)),
        crate::xlsx_sheet_markup::tag_name(with_range(piece, dim))
            == crate::xlsx_sheet_markup::tag_name(piece),
        forall|open: Seq<Seq<char>>| #[trigger]
            with_range(piece, dim).nest(open) == piece.nest(open),
{
    let list = attributes_of(piece);
    let new = ranged(list, dim);
    reveal_strlit("ref");
    if crate::xlsx_sheet_markup::tag_name(piece) is Some {
        assert(crate::markup::are_attributes(new)) by {
            assert forall|i: int| 0 <= i < new.len() implies crate::markup::is_key(
                (#[trigger] new[i]).key,
            ) && crate::markup::is_value(new[i].value) by {
                assert(crate::markup::is_key(list[i].key));
            }
            assert forall|i: int, j: int| 0 <= i < j < new.len() implies (#[trigger] new[i]).key
                != (#[trigger] new[j]).key by {
                assert(list[i].key != list[j].key);
            }
        }
        assert(crate::xlsx_sheet_markup::are_clear(new)) by {
            assert forall|i: int| 0 <= i < new.len() implies crate::xlsx_sheet_markup::has_no_bounds(
                (#[trigger] new[i]).value,
            ) by {
                assert(crate::xlsx_sheet_markup::has_no_bounds(list[i].value));
            }
        }
    }
}

/// A range holds letters, digits and a colon.
pub proof fn lemma_dim(rows: int, columns: int)
    ensures
        ({
            let dim = crate::xlsx_patch::range_ref(rows, columns);
            &&& crate::xml_utils::escaped_text(dim) == dim
            &&& crate::markup::is_value(dim)
            &&& crate::xlsx_sheet_markup::has_no_bounds(dim)
            &&& crate::text::is_plain(dim)
        }),
{
    let dim = crate::xlsx_patch::range_ref(rows, columns);
    reveal_strlit("A1");
    reveal_strlit("A1:");
    let letters = crate::xml_utils::column_letters(columns as nat);
    let number = crate::text::decimal(rows);
    if rows > 0 && columns > 0 {
        crate::xml_utils::law_column_round_trip(columns as nat);
        crate::text::lemma_digits(rows as nat);
    }
    assert forall|i: int| 0 <= i < dim.len() implies #[trigger] dim[i] == ':' || '0' <= dim[i]
        <= '9' || 'A' <= dim[i] <= 'Z' by {
        if rows > 0 && columns > 0 {
            if i < 3 {
                assert(dim[i] == "A1:"@[i]);
            } else if i < 3 + letters.len() {
                assert(dim[i] == letters[i - 3]);
                assert(crate::xml_utils::is_capital(letters[i - 3]));
            } else {
                assert(dim[i] == number[i - 3 - letters.len()]);
                assert(crate::text::is_digit(number[i - 3 - letters.len()]));
            }
        } else {
            assert(dim[i] == "A1"@[i]);
        }
    }
    assert forall|i: int| 0 <= i < dim.len() implies crate::xml_utils::entity(#[trigger] dim[i])
        == seq![dim[i]] by {}
    crate::xml_utils::lemma_plain_with_entities(dim);
    assert(!crate::xml_utils::has_control(dim));
}

} // verus!
