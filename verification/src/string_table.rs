//! A table of texts in which each text is found by its first index.

use vstd::prelude::*;
use crate::text::{char_code, chars_of};
use std::collections::HashMap;

verus! {

/// The first index of a text in a list of texts.
pub open spec fn position(list: Seq<Seq<char>>, text: Seq<char>) -> Option<int>
    decreases list.len(),
{
    if list.len() == 0 {
        None
    } else {
        match position(list.drop_last(), text) {
            Some(i) => Some(i),
            None => if list.last() == text {
                Some(list.len() - 1)
            } else {
                None
            },
        }
    }
}

/// The position of a text is the first place where it stands.
pub proof fn lemma_position(list: Seq<Seq<char>>, text: Seq<char>)
    ensures
        match position(list, text) {
            Some(i) => 0 <= i < list.len() && list[i] == text && forall|j: int|
                0 <= j < i ==> list[j] != text,
            None => forall|j: int| 0 <= j < list.len() ==> list[j] != text,
        },
    decreases list.len(),
{
    if list.len() > 0 {
        let init = list.drop_last();
        lemma_position(init, text);
        match position(init, text) {
            Some(i) => {
                assert forall|j: int| 0 <= j < i implies list[j] != text by {
                    assert(init[j] == list[j]);
                }
            },
            None => {
                assert forall|j: int| 0 <= j < list.len() - 1 implies list[j] != text by {
                    assert(init[j] == list[j]);
                }
            },
        }
    }
}

/// The list with the text in it: as it is where the text stands in it already,
/// else with the text at its end.
pub open spec fn with_text(list: Seq<Seq<char>>, text: Seq<char>) -> Seq<Seq<char>> {
    if position(list, text) is Some {
        list
    } else {
        list.push(text)
    }
}

/// The index under which a text is found once it is in the list.
pub open spec fn index_for(list: Seq<Seq<char>>, text: Seq<char>) -> int {
    match position(list, text) {
        Some(i) => i,
        None => list.len() as int,
    }
}

/// A text that has been put into a list is found there under the index that was
/// given out for it, and every text that was in the list keeps its index.
pub proof fn law_index_finds_text(list: Seq<Seq<char>>, text: Seq<char>, other: Seq<char>)
    ensures
        0 <= index_for(list, text) < with_text(list, text).len(),
        with_text(list, text)[index_for(list, text)] == text,
        position(with_text(list, text), text) == Some(index_for(list, text)),
        position(list, other) is Some ==> position(with_text(list, text), other) == position(
            list,
            other,
        ),
        list.is_prefix_of(with_text(list, text)),
{
    lemma_position(list, text);
    if position(list, text) is None {
        assert(list.push(text).drop_last() =~= list);
    }
}

/// A number to file a text under.
spec fn text_key(s: Seq<char>) -> int
    decreases s.len(),
{
    if s.len() == 0 {
        0
    } else {
        (text_key(s.drop_last()) * 31 + s.last() as int) % 0x100_0000_0000
    }
}

fn key_of(s: &[char]) -> (k: u64)
    ensures
        k == text_key(s@),
{
    let mut k: u64 = 0;
    let mut i: usize = 0;
    while i < s.len()
        invariant
            i <= s.len(),
            k == text_key(s@.take(i as int)),
            k < 0x100_0000_0000,
        decreases s.len() - i,
    {
        let c: u32 = char_code(s[i]);
        assert(s@.take(i as int + 1).drop_last() =~= s@.take(i as int));
        k = (k * 31 + c as u64) % 0x100_0000_0000;
        i += 1;
    }
    assert(s@.take(s@.len() as int) =~= s@);
    k
}

/// A table of texts.
pub struct StringTable {
    values: Vec<String>,
    /// For each key, the indices at which a text with that key stands for the
    /// first time.
    filed: HashMap<u64, Vec<usize>>,
}

impl View for StringTable {
    type V = Seq<Seq<char>>;

    closed spec fn view(&self) -> Seq<Seq<char>> {
        crate::biff12::texts(self.values@)
    }
}

impl StringTable {
    /// Every first occurrence is filed, and nothing else.
    pub closed spec fn wf(self) -> bool {
        &&& forall|i: int|
            0 <= i < self@.len() && position(self@, #[trigger] self@[i]) == Some(i)
                ==> self.is_filed(text_key(self@[i]) as u64, i)
        &&& forall|k: u64, n: int|
            self.filed@.contains_key(k) && 0 <= n < self.filed@[k]@.len() ==> {
                let i = #[trigger] self.filed@[k]@[n] as int;
                &&& i < self@.len()
                &&& position(self@, self@[i]) == Some(i)
            }
    }

    spec fn is_filed(self, k: u64, i: int) -> bool {
        self.filed@.contains_key(k) && exists|n: int|
            0 <= n < self.filed@[k]@.len() && #[trigger] self.filed@[k]@[n] == i
    }

    /// A table without texts.
    pub fn new() -> (r: Self)
        ensures
            r.wf(),
            r@ == Seq::<Seq<char>>::empty(),
    {
        broadcast use vstd::std_specs::hash::group_hash_axioms;

        let r = StringTable { values: Vec::new(), filed: HashMap::new() };
        assert(r@ =~= Seq::<Seq<char>>::empty());
        r
    }

    pub fn len(&self) -> (n: usize)
        ensures
            n == self@.len(),
    {
        self.values.len()
    }

    /// The text with the given index.
    pub fn get(&self, i: usize) -> (s: &str)
        requires
            i < self@.len(),
        ensures
            s@ == self@[i as int],
    {
        self.values[i].as_str()
    }

    /// The first index of a text.
    pub fn find(&self, text: &str) -> (r: Option<usize>)
        requires
            self.wf(),
        ensures
            match r {
                Some(i) => position(self@, text@) == Some(i as int),
                None => position(self@, text@) is None,
            },
    {
        broadcast use vstd::std_specs::hash::group_hash_axioms;

        let chars = chars_of(text);
        let k: u64 = key_of(&chars);
        proof {
            lemma_position(self@, text@);
        }
        match self.filed.get(&k) {
            None => {
                proof {
                    if let Some(i) = position(self@, text@) {
                        assert(position(self@, self@[i]) == Some(i));
                        assert(self.is_filed(k, i));
                    }
                }
                None
            },
            Some(bucket) => {
                let mut n: usize = 0;
                while n < bucket.len()
                    invariant
                        n <= bucket.len(),
                        self.wf(),
                        self.filed@.contains_key(k),
                        self.filed@[k] == *bucket,
                        forall|m: int|
                            0 <= m < n ==> self@[#[trigger] bucket@[m] as int] != text@,
                    decreases bucket.len() - n,
                {
                    let i: usize = bucket[n];
                    assert(self.filed@[k]@[n as int] as int == i);
                    if crate::text::eq_str(self.values[i].as_str(), text) {
                        return Some(i);
                    }
                    n += 1;
                }
                proof {
                    if let Some(i) = position(self@, text@) {
                        assert(position(self@, self@[i]) == Some(i));
                        assert(self.is_filed(k, i));
                    }
                }
                None
            },
        }
    }

    /// Adds a text at the end, whether or not it is there already.
    pub fn push(&mut self, text: &str)
        requires
            old(self).wf(),
        ensures
            final(self).wf(),
            final(self)@ == old(self)@.push(text@),
    {
        broadcast use vstd::std_specs::hash::group_hash_axioms;

        let ghost before = *self;
        let known = self.find(text).is_some();
        let chars = chars_of(text);
        let k: u64 = key_of(&chars);
        let index: usize = self.values.len();
        self.values.push(text.to_owned());
        assert(self@ =~= before@.push(text@));
        proof {
            assert(self@.drop_last() =~= before@);
            assert forall|i: int| 0 <= i < before@.len() implies #[trigger] position(
                self@,
                self@[i],
            ) == position(before@, before@[i]) by {
                lemma_position(before@, before@[i]);
            }
        }
        if !known {
            let mut bucket = match self.filed.remove(&k) {
                Some(bucket) => bucket,
                None => Vec::new(),
            };
            let ghost old_bucket = bucket@;
            bucket.push(index);
            let ghost new_bucket = bucket@;
            self.filed.insert(k, bucket);
            proof {
                assert(self.filed@[k]@ == old_bucket.push(index));
                assert(self.filed@[k]@[old_bucket.len() as int] == index);
                assert(self.is_filed(k, index as int));
                assert forall|i: int|
                    0 <= i < self@.len() && position(self@, #[trigger] self@[i]) == Some(
                        i,
                    ) implies self.is_filed(text_key(self@[i]) as u64, i) by {
                    if i < index {
                        let key = text_key(self@[i]) as u64;
                        assert(position(self@, self@[i]) == position(before@, before@[i]));
                        assert(before.is_filed(key, i));
                        let n = choose|n: int|
                            0 <= n < before.filed@[key]@.len() && #[trigger] before.filed@[key]@[n]
                                == i;
                        if key == k {
                            assert(self.filed@[key]@[n] == i);
                        } else {
                            assert(self.filed@[key] == before.filed@[key]);
                            assert(self.filed@[key]@[n] == i);
                        }
                    }
                }
                assert forall|key: u64, n: int|
                    self.filed@.contains_key(key) && 0 <= n < self.filed@[key]@.len() implies ({
                    let i = #[trigger] self.filed@[key]@[n] as int;
                    &&& i < self@.len()
                    &&& position(self@, self@[i]) == Some(i)
                }) by {
                    let i = self.filed@[key]@[n] as int;
                    if key == k && n == old_bucket.len() {
                        assert(i == index);
                    } else {
                        if key == k {
                            assert(before.filed@.contains_key(key));
                            assert(before.filed@[key]@[n] == i);
                        } else {
                            assert(before.filed@[key]@[n] == i);
                        }
                        assert(position(self@, self@[i]) == position(before@, before@[i]));
                    }
                }
            }
        } else {
            proof {
                assert forall|i: int|
                    0 <= i < self@.len() && position(self@, #[trigger] self@[i]) == Some(
                        i,
                    ) implies self.is_filed(text_key(self@[i]) as u64, i) by {
                    if i < index {
                        assert(position(self@, self@[i]) == position(before@, before@[i]));
                        assert(before.is_filed(text_key(before@[i]) as u64, i));
                    } else {
                        lemma_position(before@, text@);
                    }
                }
                assert forall|key: u64, n: int|
                    self.filed@.contains_key(key) && 0 <= n < self.filed@[key]@.len() implies ({
                    let i = #[trigger] self.filed@[key]@[n] as int;
                    &&& i < self@.len()
                    &&& position(self@, self@[i]) == Some(i)
                }) by {
                    let i = self.filed@[key]@[n] as int;
                    assert(before.filed@[key]@[n] == i);
                    assert(position(self@, self@[i]) == position(before@, before@[i]));
                }
            }
        }
    }

    /// A copy of the table.
    pub fn copy(&self) -> (r: Self)
        requires
            self.wf(),
        ensures
            r.wf(),
            r@ == self@,
    {
        let mut r = StringTable::new();
        let mut i: usize = 0;
        while i < self.values.len()
            invariant
                i <= self.values.len(),
                r.wf(),
                r@ == self@.take(i as int),
            decreases self.values.len() - i,
        {
            r.push(self.values[i].as_str());
            assert(r@ =~= self@.take(i as int + 1));
            i += 1;
        }
        assert(self@.take(i as int) =~= self@);
        r
    }

    /// The index of a text, which is added at the end where it is not there yet.
    pub fn intern(&mut self, text: &str) -> (i: usize)
        requires
            old(self).wf(),
        ensures
            final(self).wf(),
            final(self)@ == with_text(old(self)@, text@),
            i == index_for(old(self)@, text@),
    {
        match self.find(text) {
            Some(i) => i,
            None => {
                let i: usize = self.values.len();
                self.push(text);
                i
            },
        }
    }
}

} // verus!
