//! Sheet names and column widths.

use vstd::prelude::*;
use crate::formats::{CellValue, CellValueRef, borrow_cell};
use crate::number::NumberTable;
use crate::text::{chars_of, decimal_text, eq_ignoring_case, push_decimal, string_of, whitespace};

verus! {

/// The characters that a sheet name cannot hold.
pub open spec fn is_invalid_name_char(c: char) -> bool {
    c == '\\' || c == '/' || c == '*' || c == '?' || c == '[' || c == ']' || c == ':'
}

/// The longest sheet name, in characters.
pub const MAX_SHEET_NAME: usize = 31;

/// The characters that a sheet name cannot hold.
pub fn invalid_sheet_name_chars() -> (v: Vec<char>)
    ensures
        v@ == seq!['\\', '/', '*', '?', '[', ']', ':'],
{
    vec!['\\', '/', '*', '?', '[', ']', ':']
}

/// The name of a sheet that has none of its own.
pub open spec fn default_sheet_name(sheet_count: int) -> Seq<char> {
    "Sheet"@ + crate::text::decimal(sheet_count + 1)
}

/// The first characters of a name, as many as a sheet name can have, with `_` in
/// place of those that it cannot hold.
pub open spec fn cleaned_name(name: Seq<char>) -> Seq<char> {
    name.take(
        if name.len() < 31 {
            name.len() as int
        } else {
            31
        },
    ).map_values(
        |c: char|
            if is_invalid_name_char(c) {
                '_'
            } else {
                c
            },
    )
}

/// All characters are white space.
pub open spec fn is_blank(s: Seq<char>) -> bool {
    forall|i: int| 0 <= i < s.len() ==> crate::text::is_whitespace(#[trigger] s[i])
}

/// The sheet name made of a name: cleaned, and the default name where that is
/// blank.
pub open spec fn sanitized_name(name: Seq<char>, sheet_count: int) -> Seq<char> {
    if is_blank(cleaned_name(name)) {
        default_sheet_name(sheet_count)
    } else {
        cleaned_name(name)
    }
}

/// Makes an Excel sheet name: no invalid characters, at most 31 characters, not
/// blank. `sheet_count` is the number of sheets before this one.
pub fn sanitize_sheet_name(name: &str, sheet_count: usize) -> (s: String)
    requires
        sheet_count < usize::MAX,
    ensures
        s@ == sanitized_name(name@, sheet_count as int),
{
    let chars = chars_of(name);
    let mut clean: Vec<char> = Vec::new();
    let mut blank = true;
    let mut i: usize = 0;
    let n: usize = if chars.len() < 31 {
        chars.len()
    } else {
        31
    };
    let ghost whole = cleaned_name(name@);
    while i < n
        invariant
            i <= n <= chars.len(),
            chars@ == name@,
            n == (if name@.len() < 31 {
                name@.len() as int
            } else {
                31
            }),
            whole == cleaned_name(name@),
            clean@ == whole.take(i as int),
            blank == is_blank(whole.take(i as int)),
        decreases n - i,
    {
        let c = if chars[i] == '\\' || chars[i] == '/' || chars[i] == '*' || chars[i] == '?' || chars[i]
            == '[' || chars[i] == ']' || chars[i] == ':' {
            '_'
        } else {
            chars[i]
        };
        assert(whole[i as int] == c);
        clean.push(c);
        if !whitespace(c) {
            blank = false;
            assert(whole.take(i as int + 1)[i as int] == c);
        }
        proof {
            assert(clean@ =~= whole.take(i as int + 1));
            if is_blank(whole.take(i as int + 1)) {
                assert forall|j: int| 0 <= j < i implies crate::text::is_whitespace(
                    #[trigger] whole.take(i as int)[j],
                ) by {
                    assert(whole.take(i as int + 1)[j] == whole.take(i as int)[j]);
                }
            }
        }
        i += 1;
    }
    assert(whole.take(n as int) =~= whole);
    if blank {
        let mut s = "Sheet".to_owned();
        push_decimal(&mut s, sheet_count as i128 + 1);
        s
    } else {
        string_of(&clean)
    }
}

/// What a sanitized name is: of 1 to 31 characters, none of them invalid, and not
/// blank.
pub open spec fn is_sheet_name(s: Seq<char>) -> bool {
    &&& 1 <= s.len() <= 31
    &&& forall|i: int| 0 <= i < s.len() ==> !is_invalid_name_char(#[trigger] s[i])
    &&& !is_blank(s)
}

/// Every sanitized name is a sheet name.
pub proof fn law_sanitized_name_is_valid(name: Seq<char>, sheet_count: usize)
    requires
        sheet_count < usize::MAX,
    ensures
        is_sheet_name(sanitized_name(name, sheet_count as int)),
{
    if is_blank(cleaned_name(name)) {
        let n = sheet_count + 1;
        let s = default_sheet_name(sheet_count as int);
        reveal_strlit("Sheet");
        crate::text::lemma_digits(n as nat);
        crate::text::lemma_digits_len(n as nat);
        assert(s[0] == 'S');
        assert(!crate::text::is_whitespace(s[0]));
        assert forall|i: int| 0 <= i < s.len() implies !is_invalid_name_char(#[trigger] s[i]) by {
            if i >= 5 {
                assert(s[i] == crate::text::digits(n as nat)[i - 5]);
                assert(crate::text::is_digit(s[i]));
            }
        }
    }
}

/// A name that is a sheet name already is left as it is.
pub proof fn law_sanitize_keeps_sheet_names(name: Seq<char>, sheet_count: usize)
    requires
        is_sheet_name(name),
    ensures
        sanitized_name(name, sheet_count as int) == name,
{
    assert(cleaned_name(name) =~= name);
}

/// The name to try: the base itself, and for a suffix from 2 on the base, cut to
/// leave room for it, with the suffix in brackets.
pub open spec fn name_candidate(base: Seq<char>, suffix: nat) -> Seq<char> {
    if suffix < 2 {
        base
    } else {
        let tail = seq![' ', '('] + crate::text::digits(suffix) + seq![')'];
        let keep = if tail.len() >= 31 {
            0
        } else if base.len() < 31 - tail.len() {
            base.len() as int
        } else {
            31 - tail.len()
        };
        base.take(keep) + tail
    }
}

/// No answer of the predicate to this text says that it is taken.
pub open spec fn surely_free<P: Fn(&str) -> bool>(is_taken: P, text: Seq<char>) -> bool {
    forall|s: &str, b: bool| s@ == text && #[trigger] is_taken.ensures((s,), b) ==> !b
}

/// The predicate has answered to this text.
pub open spec fn answered<P: Fn(&str) -> bool>(is_taken: P, text: Seq<char>, b: bool) -> bool {
    exists|s: &str| s@ == text && #[trigger] is_taken.ensures((s,), b)
}

/// Returns a sanitized worksheet name that the predicate calls free: the first of
/// the candidates that it does not call taken. Some candidate below `usize::MAX`
/// has to be free.
pub fn unique_sheet_name<P: Fn(&str) -> bool>(
    name: &str,
    sheet_count: usize,
    is_taken: P,
) -> (r: String)
    requires
        sheet_count < usize::MAX,
        forall|s: &str| is_taken.requires((s,)),
        exists|k: nat|
            k < usize::MAX && (k == 0 || k >= 2) && surely_free(
                is_taken,
                #[trigger] name_candidate(sanitized_name(name@, sheet_count as int), k),
            ),
    ensures
        exists|k: nat|
            {
                &&& k == 0 || k >= 2
                &&& r@ == #[trigger] name_candidate(sanitized_name(name@, sheet_count as int), k)
                &&& answered(is_taken, r@, false)
                &&& forall|j: nat|
                    j < k && j != 1 ==> answered(
                        is_taken,
                        #[trigger] name_candidate(sanitized_name(name@, sheet_count as int), j),
                        true,
                    )
            },
{
    let base = sanitize_sheet_name(name, sheet_count);
    let ghost b = base@;
    if !is_taken(base.as_str()) {
        assert(name_candidate(b, 0) == b);
        return base;
    }
    assert(answered(is_taken, b, true));
    let chars = chars_of(base.as_str());
    let ghost free = choose|k: nat|
        k < usize::MAX && (k == 0 || k >= 2) && surely_free(
            is_taken,
            #[trigger] name_candidate(b, k),
        );
    let mut suffix: usize = 2;
    loop
        invariant
            2 <= suffix <= usize::MAX,
            chars@ == b,
            b == sanitized_name(name@, sheet_count as int),
            forall|s: &str| is_taken.requires((s,)),
            free < usize::MAX,
            free == 0 || free >= 2,
            surely_free(is_taken, name_candidate(b, free)),
            suffix <= free,
            forall|j: nat|
                j < suffix && j != 1 ==> answered(is_taken, #[trigger] name_candidate(b, j), true),
        decreases usize::MAX - suffix,
    {
        let mut tail = " (".to_owned();
        push_decimal(&mut tail, suffix as i128);
        tail.push(')');
        let used: usize = tail.as_str().unicode_len();
        proof {
            reveal_strlit(" (");
            assert(tail@ =~= seq![' ', '('] + crate::text::digits(suffix as nat) + seq![')']);
        }
        let keep: usize = if used >= 31 {
            0
        } else if chars.len() < 31 - used {
            chars.len()
        } else {
            31 - used
        };
        let mut candidate = string_of(vstd::slice::slice_subrange(&chars, 0, keep));
        candidate.append(tail.as_str());
        assert(candidate@ =~= name_candidate(b, suffix as nat));
        if !is_taken(candidate.as_str()) {
            return candidate;
        }
        assert(answered(is_taken, name_candidate(b, suffix as nat), true));
        suffix += 1;
    }
}

/// A name of the list is this text, capitals and small letters counting as equal.
pub open spec fn name_taken(taken: Seq<Seq<char>>, text: Seq<char>) -> bool {
    exists|i: int| 0 <= i < taken.len() && crate::text::same_ignoring_case(#[trigger] taken[i], text)
}

proof fn lemma_pigeonhole(f: spec_fn(int) -> int, m: nat, n: nat)
    requires
        forall|j: int| 0 <= j < m ==> 0 <= #[trigger] f(j) < n,
        forall|j: int, k: int| 0 <= j < k < m ==> #[trigger] f(j) != #[trigger] f(k),
    ensures
        m <= n,
    decreases n,
{
    if m > n {
        if n == 0 {
            assert(0 <= f(0) < n);
        } else if exists|j: int| 0 <= j < m && #[trigger] f(j) == n - 1 {
            let top = choose|j: int| 0 <= j < m && #[trigger] f(j) == n - 1;
            let g = |j: int|
                if j == top {
                    f(m - 1)
                } else {
                    f(j)
                };
            lemma_pigeonhole(g, (m - 1) as nat, (n - 1) as nat);
        } else {
            lemma_pigeonhole(f, m, (n - 1) as nat);
        }
    }
}

proof fn lemma_candidates_differ(base: Seq<char>, j: nat, k: nat, text: Seq<char>)
    requires
        j >= 2,
        k >= 2,
        crate::text::same_ignoring_case(text, name_candidate(base, j)),
        crate::text::same_ignoring_case(text, name_candidate(base, k)),
        crate::text::digits(j).len() <= crate::text::digits(k).len(),
    ensures
        j == k,
{
    let dj = crate::text::digits(j);
    let dk = crate::text::digits(k);
    let cj = name_candidate(base, j);
    let ck = name_candidate(base, k);
    let len = text.len();
    crate::text::lemma_digits(j);
    crate::text::lemma_digits(k);
    assert(cj.len() == len && ck.len() == len);
    if dj.len() < dk.len() {
        let at = len - 2 - dj.len();
        assert(cj[at] == '(');
        assert(ck[at] == dk[at - (len - 1 - dk.len())]);
        assert(crate::text::is_digit(ck[at]));
        assert(crate::text::ascii_lower(text[at]) == crate::text::ascii_lower(cj[at]));
        assert(crate::text::ascii_lower(text[at]) == crate::text::ascii_lower(ck[at]));
    } else {
        assert forall|i: int| 0 <= i < dj.len() implies dj[i] == dk[i] by {
            let at = len - 1 - dj.len() + i;
            assert(cj[at] == dj[i]);
            assert(ck[at] == dk[i]);
            assert(crate::text::is_digit(dj[i]) && crate::text::is_digit(dk[i]));
            assert(crate::text::ascii_lower(text[at]) == crate::text::ascii_lower(cj[at]));
            assert(crate::text::ascii_lower(text[at]) == crate::text::ascii_lower(ck[at]));
        }
        assert(dj =~= dk);
    }
}

/// Among as many suffixes as there are names, and one more, one gives a name that
/// is not taken.
pub proof fn lemma_some_candidate_is_free(base: Seq<char>, taken: Seq<Seq<char>>) -> (k: nat)
    ensures
        2 <= k <= taken.len() + 2,
        !name_taken(taken, name_candidate(base, k)),
{
    let n = taken.len();
    if forall|j: int| 0 <= j <= n ==> name_taken(taken, #[trigger] name_candidate(base, (j + 2) as nat)) {
        let f = |j: int|
            choose|i: int|
                0 <= i < n && crate::text::same_ignoring_case(
                    #[trigger] taken[i],
                    name_candidate(base, (j + 2) as nat),
                );
        assert forall|j: int| 0 <= j < n + 1 implies 0 <= #[trigger] f(j) < n
            && crate::text::same_ignoring_case(
            taken[f(j)],
            name_candidate(base, (j + 2) as nat),
        ) by {
            assert(name_taken(taken, name_candidate(base, (j + 2) as nat)));
        }
        assert forall|j: int, k: int| 0 <= j < k < n + 1 implies #[trigger] f(j)
            != #[trigger] f(k) by {
            if f(j) == f(k) {
                let text = taken[f(j)];
                if crate::text::digits((j + 2) as nat).len() <= crate::text::digits(
                    (k + 2) as nat,
                ).len() {
                    lemma_candidates_differ(base, (j + 2) as nat, (k + 2) as nat, text);
                } else {
                    lemma_candidates_differ(base, (k + 2) as nat, (j + 2) as nat, text);
                }
            }
        }
        lemma_pigeonhole(f, n + 1, n);
    }
    let j = choose|j: int|
        0 <= j <= n && !name_taken(taken, #[trigger] name_candidate(base, (j + 2) as nat));
    (j + 2) as nat
}

/// Every candidate for a sheet name is a sheet name, as long as its suffix fits.
pub proof fn law_candidate_is_valid(base: Seq<char>, suffix: nat)
    requires
        is_sheet_name(base),
        suffix <= usize::MAX,
    ensures
        is_sheet_name(name_candidate(base, suffix)),
{
    if suffix >= 2 {
        let s = name_candidate(base, suffix);
        let d = crate::text::digits(suffix);
        let tail = seq![' ', '('] + d + seq![')'];
        crate::text::lemma_digits(suffix);
        crate::text::lemma_digits_len(suffix);
        let keep = s.len() - tail.len();
        assert forall|i: int| 0 <= i < s.len() implies !is_invalid_name_char(#[trigger] s[i]) by {
            if i < keep {
                assert(s[i] == base[i]);
            } else {
                assert(s[i] == tail[i - keep]);
                if 2 <= i - keep < 2 + d.len() {
                    assert(crate::text::is_digit(d[i - keep - 2]));
                }
            }
        }
        assert(s[keep + 1] == '(');
        assert(!crate::text::is_whitespace(s[keep + 1]));
    }
}

/// The first candidate that is not taken.
pub open spec fn first_free_name(base: Seq<char>, taken: Seq<Seq<char>>, from: nat) -> Seq<char>
    decreases taken.len() + 3 - from,
{
    if from == 1 {
        first_free_name(base, taken, 2)
    } else if from > taken.len() + 2 || !name_taken(taken, name_candidate(base, from)) {
        name_candidate(base, from)
    } else {
        first_free_name(base, taken, from + 1)
    }
}

/// The name that a new sheet gets beside the sheets that there are.
pub open spec fn new_sheet_name(name: Seq<char>, taken: Seq<Seq<char>>) -> Seq<char> {
    first_free_name(sanitized_name(name, taken.len() as int), taken, 0)
}

proof fn lemma_first_free(base: Seq<char>, taken: Seq<Seq<char>>, from: nat, k: nat)
    requires
        from <= k,
        k == 0 || k >= 2,
        !name_taken(taken, name_candidate(base, k)),
        forall|j: nat| from <= j < k && j != 1 ==> name_taken(taken, #[trigger] name_candidate(base, j)),
        k <= taken.len() + 2,
    ensures
        first_free_name(base, taken, from) == name_candidate(base, k),
    decreases k - from,
{
    if from == 1 {
        lemma_first_free(base, taken, 2, k);
    } else if from < k {
        assert(name_taken(taken, name_candidate(base, from)));
        lemma_first_free(base, taken, from + 1, k);
    }
}

/// A new sheet gets a valid name that no other sheet has, capitals and small
/// letters counting as equal.
pub proof fn law_new_sheet_name_is_unique(name: Seq<char>, taken: Seq<Seq<char>>)
    requires
        taken.len() < usize::MAX - 2,
    ensures
        is_sheet_name(new_sheet_name(name, taken)),
        !name_taken(taken, new_sheet_name(name, taken)),
{
    let base = sanitized_name(name, taken.len() as int);
    law_sanitized_name_is_valid(name, taken.len() as usize);
    let k = lemma_some_candidate_is_free(base, taken);
    lemma_least_free(base, taken, k);
}

proof fn lemma_least_free(base: Seq<char>, taken: Seq<Seq<char>>, k: nat) -> (least: nat)
    requires
        k == 0 || k >= 2,
        !name_taken(taken, name_candidate(base, k)),
        k <= taken.len() + 2,
        is_sheet_name(base),
        taken.len() < usize::MAX - 2,
    ensures
        least <= k,
        first_free_name(base, taken, 0) == name_candidate(base, least),
        !name_taken(taken, name_candidate(base, least)),
        is_sheet_name(name_candidate(base, least)),
    decreases k,
{
    if exists|j: nat| j < k && j != 1 && !name_taken(taken, #[trigger] name_candidate(base, j)) {
        let j = choose|j: nat|
            j < k && j != 1 && !name_taken(taken, #[trigger] name_candidate(base, j));
        lemma_least_free(base, taken, j)
    } else {
        lemma_first_free(base, taken, 0, k);
        law_candidate_is_valid(base, k);
        k
    }
}

/// The name that a new sheet gets beside sheets with the given names.
pub fn free_sheet_name(name: &str, taken: &Vec<Vec<char>>) -> (r: String)
    requires
        taken.len() < usize::MAX - 2,
    ensures
        r@ == new_sheet_name(name@, char_views(taken@)),
{
    let ghost names = char_views(taken@);
    let ghost base = sanitized_name(name@, taken.len() as int);
    let is_taken = |candidate: &str| -> (b: bool)
        ensures
            b == name_taken(char_views(taken@), candidate@),
        { is_listed(taken, candidate) };
    proof {
        let k = lemma_some_candidate_is_free(base, names);
        assert(surely_free(is_taken, name_candidate(base, k)));
    }
    let r = unique_sheet_name(name, taken.len(), is_taken);
    proof {
        let k = choose|k: nat|
            {
                &&& k == 0 || k >= 2
                &&& r@ == #[trigger] name_candidate(base, k)
                &&& answered(is_taken, r@, false)
                &&& forall|j: nat|
                    j < k && j != 1 ==> answered(
                        is_taken,
                        #[trigger] name_candidate(base, j),
                        true,
                    )
            };
        assert forall|j: nat| 0 <= j < k && j != 1 implies name_taken(
            names,
            #[trigger] name_candidate(base, j),
        ) by {
            assert(answered(is_taken, name_candidate(base, j), true));
        }
        let f = lemma_some_candidate_is_free(base, names);
        if k > names.len() + 2 {
            assert(name_taken(names, name_candidate(base, f)));
        }
        lemma_first_free(base, names, 0, k);
    }
    r
}

/// The texts of a list of character vectors.
pub open spec fn char_views(list: Seq<Vec<char>>) -> Seq<Seq<char>> {
    Seq::new(list.len(), |i: int| list[i]@)
}

fn is_listed(taken: &Vec<Vec<char>>, candidate: &str) -> (b: bool)
    ensures
        b == name_taken(char_views(taken@), candidate@),
{
    let chars = chars_of(candidate);
    let mut i: usize = 0;
    while i < taken.len()
        invariant
            i <= taken.len(),
            chars@ == candidate@,
            forall|j: int|
                0 <= j < i ==> !crate::text::same_ignoring_case(
                    #[trigger] char_views(taken@)[j],
                    candidate@,
                ),
        decreases taken.len() - i,
    {
        if eq_ignoring_case(&taken[i], &chars) {
            assert(char_views(taken@)[i as int] == taken@[i as int]@);
            return true;
        }
        i += 1;
    }
    false
}

/// The width, in hundredths of a character, that fits a text of `len` characters.
pub open spec fn autofit(len: nat) -> int {
    if 125 * len + 200 > 8000 {
        8000
    } else {
        (125 * len + 200) as int
    }
}

/// The width that fits `chars` characters and one more.
fn fit_one_more(chars: usize) -> (w: i64)
    ensures
        w == autofit((chars + 1) as nat),
{
    if chars >= 62 {
        8000
    } else {
        125 * (chars as i64 + 1) + 200
    }
}

/// The larger of two widths.
pub open spec fn wider(a: int, b: int) -> int {
    if a < b {
        b
    } else {
        a
    }
}

/// The widths of columns, in hundredths of a character.
pub open spec fn width_values(widths: Seq<i64>) -> Seq<int> {
    widths.map_values(|w: i64| w as int)
}

/// Column widths that are all unknown, which -100 stands for.
pub fn init_col_widths(column_count: usize) -> (v: Vec<i64>)
    ensures
        v@ == Seq::new(column_count as nat, |i: int| -100i64),
{
    let mut v: Vec<i64> = Vec::new();
    let mut i: usize = 0;
    while i < column_count
        invariant
            i <= column_count,
            v@ == Seq::new(i as nat, |j: int| -100i64),
        decreases column_count - i,
    {
        v.push(-100);
        assert(v@ =~= Seq::new(i as nat + 1, |j: int| -100i64));
        i += 1;
    }
    v
}

/// The length that a header asks its column to show: one more than its
/// characters, nothing where there is none.
pub open spec fn header_len(headers: Seq<Seq<char>>, column: int) -> nat {
    if column < headers.len() {
        headers[column].len() + 1
    } else {
        0
    }
}

/// The widths after the headers of the first `column_count` columns.
pub open spec fn header_widths(
    widths: Seq<int>,
    headers: Seq<Seq<char>>,
    column_count: int,
) -> Seq<int> {
    Seq::new(
        widths.len(),
        |c: int|
            if c < column_count {
                wider(widths[c], autofit(header_len(headers, c)))
            } else {
                widths[c]
            },
    )
}

/// Widens columns to fit their headers.
pub fn apply_header_widths(col_widths: &mut Vec<i64>, headers: &[String], column_count: usize)
    ensures
        width_values(final(col_widths)@) == header_widths(
            width_values(old(col_widths)@),
            crate::biff12::texts(headers@),
            column_count as int,
        ),
{
    let ghost start = col_widths@;
    let ghost target = header_widths(
        width_values(start),
        crate::biff12::texts(headers@),
        column_count as int,
    );
    let mut c: usize = 0;
    while c < col_widths.len() && c < column_count
        invariant
            col_widths.len() == start.len(),
            c <= col_widths.len(),
            c <= column_count,
            target == header_widths(
                width_values(start),
                crate::biff12::texts(headers@),
                column_count as int,
            ),
            forall|j: int| 0 <= j < c ==> col_widths@[j] == target[j],
            forall|j: int| c <= j < start.len() ==> col_widths@[j] == start[j],
        decreases col_widths.len() - c,
    {
        let width: i64 = if c < headers.len() {
            fit_one_more(headers[c].as_str().unicode_len())
        } else {
            200
        };
        if col_widths[c] < width {
            col_widths.set(c, width);
        }
        c += 1;
    }
    assert(width_values(col_widths@) =~= target);
}

/// The number of characters that a cell shows, and one more. A date shows twenty.
pub open spec fn display_len(value: crate::formats::Plain, numbers: NumberTable) -> nat {
    match value {
        crate::formats::Plain::Empty => 0,
        crate::formats::Plain::DateTime(_) => 20,
        crate::formats::Plain::Text(s) => s.len() + 1,
        crate::formats::Plain::Number(n) => numbers.display(n).len() + 1,
        crate::formats::Plain::Integer(n) => crate::text::decimal(n as int).len() + 1,
        crate::formats::Plain::Boolean(b) => if b {
            5
        } else {
            6
        },
    }
}

/// The width that fits what a cell shows.
fn cell_width(value: CellValueRef<'_>, numbers: &NumberTable) -> (w: i64)
    ensures
        w == autofit(display_len(value@, *numbers)),
{
    match value {
        CellValueRef::Empty => 200,
        CellValueRef::DateTime(_) => 2700,
        CellValueRef::Text(s) => fit_one_more(s.unicode_len()),
        CellValueRef::Number(n) => fit_one_more(numbers.display_text(n).unicode_len()),
        CellValueRef::Integer(n) => fit_one_more(decimal_text(n as i128).as_str().unicode_len()),
        CellValueRef::Boolean(b) => if b {
            fit_one_more(4)
        } else {
            fit_one_more(5)
        },
    }
}

/// The width of a column after a cell. A cell with neither value nor format does
/// not count.
pub open spec fn width_with_cell(
    width: int,
    cell: crate::formats::Cell,
    numbers: NumberTable,
) -> int {
    if cell.value is Empty && cell.format is None {
        width
    } else {
        wider(width, autofit(display_len(cell.value, numbers)))
    }
}

/// The width of a column after the first `n` rows.
pub open spec fn width_with_rows(
    width: int,
    rows: Seq<Seq<crate::formats::Cell>>,
    column: int,
    n: nat,
    numbers: NumberTable,
) -> int
    decreases n,
{
    if n == 0 {
        width
    } else {
        let before = width_with_rows(width, rows, column, (n - 1) as nat, numbers);
        let row = rows[n - 1];
        if column < row.len() {
            width_with_cell(before, row[column], numbers)
        } else {
            before
        }
    }
}

/// The widths after the first `sample_limit` rows.
pub open spec fn sampled_widths(
    widths: Seq<int>,
    rows: Seq<Seq<crate::formats::Cell>>,
    sample_limit: int,
    numbers: NumberTable,
) -> Seq<int> {
    let n = if rows.len() < sample_limit {
        rows.len()
    } else {
        sample_limit as nat
    };
    Seq::new(widths.len(), |c: int| width_with_rows(widths[c], rows, c, n, numbers))
}

/// Widens columns to fit the cells of up to `sample_limit` rows.
pub fn update_col_widths_from_rows(
    col_widths: &mut Vec<i64>,
    rows: &Vec<Vec<CellValue>>,
    sample_limit: usize,
    numbers: &NumberTable,
)
    ensures
        width_values(final(col_widths)@) == sampled_widths(
            width_values(old(col_widths)@),
            crate::formats::sheet_cells(rows@),
            sample_limit as int,
            *numbers,
        ),
{
    let ghost start = width_values(col_widths@);
    let ghost cells = crate::formats::sheet_cells(rows@);
    let mut r: usize = 0;
    assert(width_values(col_widths@) =~= Seq::new(
        start.len(),
        |c: int| width_with_rows(start[c], cells, c, 0, *numbers),
    ));
    while r < rows.len() && r < sample_limit
        invariant
            r <= rows.len(),
            r <= sample_limit,
            cells == crate::formats::sheet_cells(rows@),
            width_values(col_widths@) == Seq::new(
                start.len(),
                |c: int| width_with_rows(start[c], cells, c, r as nat, *numbers),
            ),
        decreases rows.len() - r,
    {
        let row = &rows[r];
        let ghost before = width_values(col_widths@);
        let ghost line = crate::formats::row_cells(row@);
        assert(cells[r as int] == line);
        let mut c: usize = 0;
        while c < row.len() && c < col_widths.len()
            invariant
                c <= row.len(),
                c <= col_widths.len(),
                col_widths@.len() == before.len(),
                line == crate::formats::row_cells(row@),
                forall|j: int|
                    0 <= j < c ==> col_widths@[j] == width_with_cell(
                        before[j],
                        line[j],
                        *numbers,
                    ),
                forall|j: int| c <= j < before.len() ==> col_widths@[j] == before[j],
            decreases row.len() - c,
        {
            assert(line[c as int] == row@[c as int]@);
            let skip = match row[c] {
                CellValue::Empty => true,
                _ => false,
            };
            if !skip {
                let width: i64 = cell_width(borrow_cell(&row[c]), numbers);
                if col_widths[c] < width {
                    col_widths.set(c, width);
                }
            }
            c += 1;
        }
        proof {
            let next = Seq::new(
                start.len(),
                |c: int| width_with_rows(start[c], cells, c, r as nat + 1, *numbers),
            );
            assert forall|j: int| 0 <= j < start.len() implies col_widths@[j] == next[j] by {
                assert(before[j] == width_with_rows(start[j], cells, j, r as nat, *numbers));
            }
            assert(width_values(col_widths@) =~= next);
        }
        r += 1;
    }
}

/// The width that is written for a column: 10 characters where none is known, and
/// on request cut down to whole characters.
pub open spec fn written_width(width: int, floor: bool) -> int {
    if width <= 0 {
        1000
    } else if floor {
        width - width % 100
    } else {
        width
    }
}

/// The width that is written for a column. XLSB takes whole characters, XLSX any
/// width.
pub fn default_col_width(width: i64, floor: bool) -> (w: i64)
    ensures
        w == written_width(width as int, floor),
{
    if width > 0 {
        if floor {
            width - width % 100
        } else {
            width
        }
    } else {
        1000
    }
}

/// Hundredths as a decimal number without trailing zeros.
pub open spec fn hundredths_text(n: nat) -> Seq<char> {
    let whole = crate::text::digits(n / 100);
    let tens = n / 10 % 10;
    let ones = n % 10;
    if n % 100 == 0 {
        whole
    } else if ones == 0 {
        whole + seq!['.', crate::text::digit(tens)]
    } else {
        whole + seq!['.', crate::text::digit(tens), crate::text::digit(ones)]
    }
}

/// Appends hundredths as a decimal number without trailing zeros.
pub fn push_hundredths(s: &mut String, n: u64)
    ensures
        final(s)@ == old(s)@ + hundredths_text(n as nat),
{
    let ghost before = s@;
    push_decimal(s, (n / 100) as i128);
    if n % 100 != 0 {
        s.push('.');
        s.push((48 + (n / 10 % 10) as u8) as char);
        if n % 10 != 0 {
            s.push((48 + (n % 10) as u8) as char);
        }
    }
    assert(s@ =~= before + hundredths_text(n as nat));
}

} // verus!
