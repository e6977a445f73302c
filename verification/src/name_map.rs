//! A map from names to values that remembers the order in which names came.

use vstd::prelude::*;
use crate::text::eq_str;

verus! {

/// A map from names to values. A value that is put under a name that is there
/// already takes the place of the earlier one.
pub struct NameMap<T> {
    names: Vec<String>,
    values: Vec<T>,
}

/// The map that pairs the first `n` names with the values beside them.
pub open spec fn paired<T>(names: Seq<Seq<char>>, values: Seq<T>, n: nat) -> Map<Seq<char>, T>
    decreases n,
{
    if n == 0 {
        Map::empty()
    } else {
        paired(names, values, (n - 1) as nat).insert(names[n - 1], values[n - 1])
    }
}

/// A list of names without one of them.
pub open spec fn without(list: Seq<Seq<char>>, name: Seq<char>) -> Seq<Seq<char>>
    decreases list.len(),
{
    if list.len() == 0 {
        list
    } else if list.last() == name {
        without(list.drop_last(), name)
    } else {
        without(list.drop_last(), name).push(list.last())
    }
}

proof fn lemma_paired<T>(names: Seq<Seq<char>>, values: Seq<T>, n: nat)
    requires
        n <= names.len() == values.len(),
        names.no_duplicates(),
    ensures
        forall|name: Seq<char>| #[trigger]
            paired(names, values, n).contains_key(name) <==> names.take(n as int).contains(name),
        forall|i: int| 0 <= i < n ==> paired(names, values, n)[#[trigger] names[i]] == values[i],
    decreases n,
{
    if n == 0 {
        assert(names.take(0) =~= Seq::<Seq<char>>::empty());
    } else {
        let m = (n - 1) as nat;
        lemma_paired(names, values, m);
        assert forall|name: Seq<char>| #[trigger]
            paired(names, values, n).contains_key(name) <==> names.take(n as int).contains(name) by {
            assert(names.take(n as int)[n - 1] == names[n - 1]);
            if name == names[n - 1] {
                assert(names.take(n as int).contains(name));
            } else if names.take(m as int).contains(name) {
                let i = choose|i: int| 0 <= i < m && names.take(m as int)[i] == name;
                assert(names.take(n as int)[i] == name);
            }
            assert(paired(names, values, m).contains_key(name) <==> names.take(m as int).contains(
                name,
            ));
            if names.take(n as int).contains(name) && name != names[n - 1] {
                let i = choose|i: int| 0 <= i < n && names.take(n as int)[i] == name;
                assert(names.take(m as int)[i] == name);
            }
        }
    }
}

proof fn lemma_paired_prefix<T>(
    a: Seq<Seq<char>>,
    u: Seq<T>,
    b: Seq<Seq<char>>,
    v: Seq<T>,
    n: nat,
)
    requires
        n <= a.len() == u.len(),
        n <= b.len() == v.len(),
        forall|i: int| 0 <= i < n ==> a[i] == b[i] && u[i] == v[i],
    ensures
        paired(a, u, n) == paired(b, v, n),
    decreases n,
{
    if n > 0 {
        lemma_paired_prefix(a, u, b, v, (n - 1) as nat);
    }
}

impl<T> View for NameMap<T> {
    type V = Map<Seq<char>, T>;

    closed spec fn view(&self) -> Map<Seq<char>, T> {
        paired(self.order(), self.values@, self.values@.len())
    }
}

impl<T> NameMap<T> {
    /// The names in the order in which they came.
    pub closed spec fn order(self) -> Seq<Seq<char>> {
        crate::biff12::texts(self.names@)
    }

    /// Each name has one value, and is listed once.
    pub closed spec fn wf(self) -> bool {
        self.names@.len() == self.values@.len() && self.order().no_duplicates()
    }

    /// A name is listed where it has a value.
    pub proof fn lemma_order(self)
        requires
            self.wf(),
        ensures
            self.order().no_duplicates(),
            forall|name: Seq<char>| #[trigger]
                self@.contains_key(name) <==> self.order().contains(name),
    {
        lemma_paired(self.order(), self.values@, self.values@.len());
        assert(self.order().take(self.order().len() as int) =~= self.order());
    }

    pub fn new() -> (r: Self)
        ensures
            r.wf(),
            r@ == Map::<Seq<char>, T>::empty(),
            r.order() == Seq::<Seq<char>>::empty(),
    {
        let r = NameMap { names: Vec::new(), values: Vec::new() };
        assert(r.order() =~= Seq::<Seq<char>>::empty());
        r
    }

    pub fn len(&self) -> (n: usize)
        ensures
            n == self.order().len(),
    {
        self.names.len()
    }

    /// The name that came at this place.
    pub fn name(&self, i: usize) -> (name: &str)
        requires
            i < self.order().len(),
        ensures
            name@ == self.order()[i as int],
    {
        self.names[i].as_str()
    }

    /// The value of the name that came at this place.
    pub fn value(&self, i: usize) -> (value: &T)
        requires
            self.wf(),
            i < self.order().len(),
        ensures
            self@.contains_key(self.order()[i as int]),
            *value == self@[self.order()[i as int]],
    {
        proof {
            self.lemma_order();
            lemma_paired(self.order(), self.values@, self.values@.len());
            assert(self.order().contains(self.order()[i as int]));
        }
        &self.values[i]
    }

    fn find(&self, name: &str) -> (r: Option<usize>)
        requires
            self.wf(),
        ensures
            match r {
                Some(i) => {
                    &&& i < self.values@.len()
                    &&& self.order()[i as int] == name@
                    &&& self@.contains_key(name@)
                    &&& self@[name@] == self.values@[i as int]
                },
                None => !self@.contains_key(name@) && !self.order().contains(name@),
            },
    {
        proof {
            self.lemma_order();
            lemma_paired(self.order(), self.values@, self.values@.len());
        }
        let mut i: usize = 0;
        while i < self.names.len()
            invariant
                i <= self.names.len(),
                self.wf(),
                forall|j: int| 0 <= j < i ==> #[trigger] self.order()[j] != name@,
                forall|k: Seq<char>| #[trigger]
                    self@.contains_key(k) <==> self.order().contains(k),
                forall|j: int|
                    0 <= j < self.values@.len() ==> self@[#[trigger] self.order()[j]]
                        == self.values@[j],
            decreases self.names.len() - i,
        {
            if eq_str(self.names[i].as_str(), name) {
                assert(self.order()[i as int] == name@);
                assert(self.order().contains(name@));
                return Some(i);
            }
            i += 1;
        }
        None
    }

    pub fn contains(&self, name: &str) -> (b: bool)
        requires
            self.wf(),
        ensures
            b == self@.contains_key(name@),
    {
        self.find(name).is_some()
    }

    pub fn get(&self, name: &str) -> (r: Option<&T>)
        requires
            self.wf(),
        ensures
            match r {
                Some(value) => self@.contains_key(name@) && *value == self@[name@],
                None => !self@.contains_key(name@),
            },
    {
        match self.find(name) {
            Some(i) => Some(&self.values[i]),
            None => None,
        }
    }

    /// Puts a value under a name.
    pub fn insert(&mut self, name: &str, value: T)
        requires
            old(self).wf(),
        ensures
            final(self).wf(),
            final(self)@ == old(self)@.insert(name@, value),
            final(self).order() == crate::string_table::with_text(old(self).order(), name@),
    {
        let ghost before = *self;
        proof {
            before.lemma_order();
            lemma_paired(before.order(), before.values@, before.values@.len());
            crate::string_table::lemma_position(before.order(), name@);
        }
        match self.find(name) {
            Some(i) => {
                self.values[i] = value;
                proof {
                    lemma_paired(self.order(), self.values@, self.values@.len());
                    self.lemma_order();
                    assert(self.order() == before.order());
                    assert(self@ =~= before@.insert(name@, value)) by {
                        assert forall|k: Seq<char>| self@.contains_key(k) implies self@[k]
                            == before@.insert(name@, value)[k] by {
                            let j = choose|j: int|
                                0 <= j < self.order().len() && self.order()[j] == k;
                            assert(self@[self.order()[j]] == self.values@[j]);
                            assert(before@[before.order()[j]] == before.values@[j]);
                        }
                    }
                }
            },
            None => {
                self.names.push(name.to_owned());
                self.values.push(value);
                proof {
                    assert(self.order() =~= before.order().push(name@));
                    assert(self.order().no_duplicates());
                    lemma_paired_prefix(
                        self.order(),
                        self.values@,
                        before.order(),
                        before.values@,
                        before.values@.len(),
                    );
                }
            },
        }
    }

    /// Takes a name and its value out.
    pub fn remove(&mut self, name: &str) -> (r: Option<T>)
        requires
            old(self).wf(),
        ensures
            final(self).wf(),
            final(self)@ == old(self)@.remove(name@),
            final(self).order() == without(old(self).order(), name@),
            match r {
                Some(value) => old(self)@.contains_key(name@) && value == old(self)@[name@],
                None => !old(self)@.contains_key(name@),
            },
    {
        let ghost before = *self;
        proof {
            before.lemma_order();
            lemma_paired(before.order(), before.values@, before.values@.len());
        }
        match self.find(name) {
            Some(i) => {
                self.names.remove(i);
                let value = self.values.remove(i);
                proof {
                    let at = i as int;
                    assert(self.order() =~= before.order().remove(at));
                    lemma_without(before.order(), at);
                    lemma_paired(self.order(), self.values@, self.values@.len());
                    self.lemma_order();
                    assert(self@ =~= before@.remove(name@)) by {
                        assert forall|k: Seq<char>|
                            self@.contains_key(k) <==> before@.remove(name@).contains_key(k) by {
                            if self@.contains_key(k) {
                                let j = choose|j: int|
                                    0 <= j < self.order().len() && self.order()[j] == k;
                                let h = if j < at {
                                    j
                                } else {
                                    j + 1
                                };
                                assert(before.order()[h] == k);
                                assert(before.order()[at] == name@);
                            }
                            if before@.remove(name@).contains_key(k) {
                                let h = choose|h: int|
                                    0 <= h < before.order().len() && before.order()[h] == k;
                                let j = if h < at {
                                    h
                                } else {
                                    h - 1
                                };
                                assert(self.order()[j] == k);
                            }
                        }
                        assert forall|k: Seq<char>| self@.contains_key(k) implies self@[k]
                            == before@.remove(name@)[k] by {
                            let j = choose|j: int|
                                0 <= j < self.order().len() && self.order()[j] == k;
                            let h = if j < at {
                                j
                            } else {
                                j + 1
                            };
                            assert(before.order()[h] == k);
                            assert(self@[self.order()[j]] == self.values@[j]);
                            assert(before@[before.order()[h]] == before.values@[h]);
                        }
                    }
                }
                Some(value)
            },
            None => {
                proof {
                    assert(self@ =~= before@.remove(name@));
                    lemma_all_kept(before.order(), name@);
                }
                None
            },
        }
    }
}

/// A list of names without one that is not in it is the list.
pub proof fn lemma_all_kept(list: Seq<Seq<char>>, name: Seq<char>)
    requires
        !list.contains(name),
    ensures
        without(list, name) == list,
    decreases list.len(),
{
    if list.len() > 0 {
        assert(list.last() != name) by {
            assert(list.contains(list[list.len() - 1]));
        }
        assert(!list.drop_last().contains(name)) by {
            if list.drop_last().contains(name) {
                let i = choose|i: int| 0 <= i < list.len() - 1 && list.drop_last()[i] == name;
                assert(list[i] == name);
            }
        }
        lemma_all_kept(list.drop_last(), name);
        assert(list.drop_last().push(list.last()) =~= list);
    }
}

/// A list of names without the one at a place, which stands there alone.
proof fn lemma_without(list: Seq<Seq<char>>, at: int)
    requires
        0 <= at < list.len(),
        list.no_duplicates(),
    ensures
        without(list, list[at]) == list.remove(at),
        list.remove(at).no_duplicates(),
    decreases list.len(),
{
    let name = list[at];
    let init = list.drop_last();
    if at == list.len() - 1 {
        assert(!init.contains(name));
        lemma_all_kept(init, name);
        assert(list.remove(at) =~= init);
    } else {
        lemma_without(init, at);
        assert(init[at] == name);
        assert(init.remove(at).push(list.last()) =~= list.remove(at));
    }
}

} // verus!
