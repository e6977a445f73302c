//! What the names of sheets hold.

use vstd::prelude::*;

verus! {

/// A sheet name made of any name has from 1 to 31 characters, none of them a backslash,
/// a slash, an asterisk, a question mark, a bracket or a colon. The characters of the
/// name stay, with an underscore in place of each of these, unless nothing but white
/// space would be left: then the name is `Sheet` and the number of the sheet.
pub proof fn law_sanitized_name_keeps_what_it_can(name: Seq<char>, sheet_count: usize)
    requires
        sheet_count < usize::MAX,
    ensures
        ({
            let s = crate::writer_helpers::sanitized_name(name, sheet_count as int);
            &&& 1 <= s.len() <= 31
            &&& forall|i: int|
                0 <= i < s.len() ==> #[trigger] s[i] != '\\' && s[i] != '/' && s[i] != '*' && s[i]
                    != '?' && s[i] != '[' && s[i] != ']' && s[i] != ':'
            &&& (exists|i: int|
                0 <= i < name.len() && i < 31 && !crate::text::is_whitespace(#[trigger] name[i]))
                ==> {
                &&& s.len() == name.len() || (s.len() == 31 && name.len() > 31)
                &&& forall|i: int|
                    0 <= i < s.len() ==> #[trigger] s[i] == if name[i] == '\\' || name[i] == '/'
                        || name[i] == '*' || name[i] == '?' || name[i] == '[' || name[i] == ']'
                        || name[i] == ':' {
                        '_'
                    } else {
                        name[i]
                    }
            }
            &&& (forall|i: int|
                0 <= i < name.len() ==> crate::text::is_whitespace(#[trigger] name[i])) ==> s
                == "Sheet"@ + crate::text::decimal(sheet_count + 1)
        }),
{
    crate::writer_helpers::law_sanitized_name_is_valid(name, sheet_count);
    let s = crate::writer_helpers::sanitized_name(name, sheet_count as int);
    let clean = crate::writer_helpers::cleaned_name(name);
    assert forall|i: int| 0 <= i < s.len() implies #[trigger] s[i] != '\\' && s[i] != '/' && s[i]
        != '*' && s[i] != '?' && s[i] != '[' && s[i] != ']' && s[i] != ':' by {
        assert(!crate::writer_helpers::is_invalid_name_char(s[i]));
    }
    if exists|i: int|
        0 <= i < name.len() && i < 31 && !crate::text::is_whitespace(#[trigger] name[i]) {
        let i = choose|i: int|
            0 <= i < name.len() && i < 31 && !crate::text::is_whitespace(#[trigger] name[i]);
        assert(!crate::text::is_whitespace(clean[i]));
    }
    if forall|i: int| 0 <= i < name.len() ==> crate::text::is_whitespace(#[trigger] name[i]) {
        assert forall|i: int| 0 <= i < clean.len() implies crate::text::is_whitespace(
            #[trigger] clean[i],
        ) by {
            assert(crate::text::is_whitespace(name[i]));
        }
    }
}

/// No name that is taken is that of a new sheet, capitals and small letters counting as
/// equal: it is longer or shorter, or differs in a character.
pub proof fn law_new_sheet_name_differs(name: Seq<char>, taken: Seq<Seq<char>>, k: int)
    requires
        taken.len() < usize::MAX - 2,
        0 <= k < taken.len(),
    ensures
        ({
            let new = crate::writer_helpers::new_sheet_name(name, taken);
            taken[k].len() != new.len() || exists|i: int|
                0 <= i < new.len() && #[trigger] new[i] != taken[k][i] && !('A' <= new[i] <= 'Z'
                    && taken[k][i] as u32 == new[i] as u32 + 32) && !('A' <= taken[k][i] <= 'Z'
                    && new[i] as u32 == taken[k][i] as u32 + 32)
        }),
{
    crate::writer_helpers::law_new_sheet_name_is_unique(name, taken);
    let new = crate::writer_helpers::new_sheet_name(name, taken);
    assert(!crate::text::same_ignoring_case(taken[k], new));
    if taken[k].len() == new.len() {
        let i = choose|i: int|
            0 <= i < new.len() && crate::text::ascii_lower(#[trigger] taken[k][i])
                != crate::text::ascii_lower(new[i]);
        assert(new[i] != taken[k][i]);
    }
}

/// A new sheet whose name is free has the name; one whose name is taken has the name,
/// cut where it has to be, with a number from two on in brackets behind it.
pub proof fn law_new_sheet_name_is_the_name_or_numbered(name: Seq<char>, taken: Seq<Seq<char>>)
    requires
        taken.len() < usize::MAX - 2,
    ensures
        ({
            let base = crate::writer_helpers::sanitized_name(name, taken.len() as int);
            let new = crate::writer_helpers::new_sheet_name(name, taken);
            let is_free = forall|k: int|
                0 <= k < taken.len() ==> !crate::text::same_ignoring_case(
                    #[trigger] taken[k],
                    base,
                );
            &&& is_free ==> new == base
            &&& !is_free ==> exists|n: nat|
                n >= 2 && {
                    let tail = seq![' ', '('] + #[trigger] crate::text::digits(n) + seq![')'];
                    &&& new.len() >= tail.len()
                    &&& new.skip(new.len() - tail.len()) == tail
                    &&& new.take(new.len() - tail.len()) == base.take(new.len() - tail.len())
                    &&& new.len() == 31 || new.len() == base.len() + tail.len()
                }
        }),
{
    let base = crate::writer_helpers::sanitized_name(name, taken.len() as int);
    let new = crate::writer_helpers::new_sheet_name(name, taken);
    assert(crate::writer_helpers::name_candidate(base, 0) == base);
    if !crate::writer_helpers::name_taken(taken, base) {
        assert(crate::writer_helpers::first_free_name(base, taken, 0) == base);
    } else {
        assert(crate::writer_helpers::first_free_name(base, taken, 0)
            == crate::writer_helpers::first_free_name(base, taken, 1));
        assert(crate::writer_helpers::first_free_name(base, taken, 1)
            == crate::writer_helpers::first_free_name(base, taken, 2));
        let n = lemma_numbered(base, taken, 2);
        let tail = seq![' ', '('] + crate::text::digits(n) + seq![')'];
        crate::writer_helpers::law_sanitized_name_is_valid(name, taken.len() as usize);
        crate::text::lemma_digits_len(n);
        let keep = new.len() - tail.len();
        assert(new.skip(keep) =~= tail);
        assert(new.take(keep) =~= base.take(keep));
    }
}

/// A number is found for a name that is taken.
proof fn lemma_numbered(base: Seq<char>, taken: Seq<Seq<char>>, from: nat) -> (n: nat)
    requires
        2 <= from <= taken.len() + 3,
        taken.len() < usize::MAX - 2,
    ensures
        from <= n <= taken.len() + 3,
        crate::writer_helpers::first_free_name(base, taken, from)
            == crate::writer_helpers::name_candidate(base, n),
    decreases taken.len() + 3 - from,
{
    if from > taken.len() + 2 || !crate::writer_helpers::name_taken(
        taken,
        crate::writer_helpers::name_candidate(base, from),
    ) {
        from
    } else {
        lemma_numbered(base, taken, from + 1)
    }
}

} // verus!
