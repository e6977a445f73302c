//! The parts of a workbook's archive while the workbook is updated.
//!
//! Parts live in memory. A part that was replaced row by row is staged: its bytes
//! stand in a file outside, and the store holds the path of the file and, once
//! they have been read, the bytes.

use vstd::prelude::*;
use crate::error::{SpreadsheetError, SpreadsheetResult};
use crate::name_map::NameMap;

verus! {

/// A part that is staged in a file.
pub struct StagedPart {
    pub path: String,
    pub data: Option<Vec<u8>>,
}

/// What a staged part stands for.
pub struct Staged {
    pub path: Seq<char>,
    pub data: Option<Seq<u8>>,
}

impl View for StagedPart {
    type V = Staged;

    open spec fn view(&self) -> Staged {
        Staged {
            path: self.path@,
            data: match self.data {
                Some(data) => Some(data@),
                None => None,
            },
        }
    }
}

/// Where the bytes of a part are to be had.
pub enum PartSource<'a> {
    Memory(&'a [u8]),
    File(&'a str),
    Absent,
}

/// What a store stands for: the names in archive order, the parts in memory, and
/// the parts that are staged with the order in which they were.
#[verifier::ext_equal]
pub struct Parts {
    pub order: Seq<Seq<char>>,
    pub files: Map<Seq<char>, Seq<u8>>,
    pub staged: Map<Seq<char>, Staged>,
    pub staged_order: Seq<Seq<char>>,
}

/// The names of a list that are not among the parts in memory.
pub open spec fn unfiled(list: Seq<Seq<char>>, files: Map<Seq<char>, Seq<u8>>) -> Seq<Seq<char>>
    decreases list.len(),
{
    if list.len() == 0 {
        list
    } else if files.contains_key(list.last()) {
        unfiled(list.drop_last(), files)
    } else {
        unfiled(list.drop_last(), files).push(list.last())
    }
}

/// The message for a part that is not there.
pub open spec fn missing_part(name: Seq<char>) -> Seq<char> {
    "ZIP member missing: "@ + name
}

/// The message for a staged part whose file has not been read.
pub open spec fn unread_part(path: Seq<char>) -> Seq<char> {
    "staged part has not been read: "@ + path
}

impl Parts {
    pub open spec fn has(self, name: Seq<char>) -> bool {
        self.files.contains_key(name) || self.staged.contains_key(name)
    }

    /// The current bytes of a part, where they are at hand.
    pub open spec fn content(self, name: Seq<char>) -> Option<Seq<u8>> {
        if self.staged.contains_key(name) {
            self.staged[name].data
        } else if self.files.contains_key(name) {
            Some(self.files[name])
        } else {
            None
        }
    }

    /// Why the bytes of a part are not at hand.
    pub open spec fn lacks(self, name: Seq<char>, e: SpreadsheetError) -> bool {
        if self.staged.contains_key(name) {
            e matches SpreadsheetError::Io(message) && message@ == unread_part(
                self.staged[name].path,
            )
        } else {
            e.says(missing_part(name))
        }
    }

    /// The names of all parts.
    pub open spec fn names(self) -> Seq<Seq<char>> {
        self.order + unfiled(self.staged_order, self.files)
    }

    /// The store with a part replaced in memory. A staged replacement is dropped.
    pub open spec fn with_file(self, name: Seq<char>, data: Seq<u8>) -> Parts {
        Parts {
            order: if self.files.contains_key(name) {
                self.order
            } else {
                self.order.push(name)
            },
            files: self.files.insert(name, data),
            staged: self.staged.remove(name),
            staged_order: crate::name_map::without(self.staged_order, name),
        }
    }

    /// The store with a part staged in a file that has not been read.
    pub open spec fn with_staged(self, name: Seq<char>, path: Seq<char>) -> Parts {
        Parts {
            staged: self.staged.insert(name, Staged { path, data: None }),
            staged_order: crate::string_table::with_text(self.staged_order, name),
            ..self
        }
    }

    /// The store with the staged replacement of a part dropped.
    pub open spec fn unstaged(self, name: Seq<char>) -> Parts {
        Parts {
            staged: self.staged.remove(name),
            staged_order: crate::name_map::without(self.staged_order, name),
            ..self
        }
    }

    /// The store after an operation on a part failed: the replacement is dropped
    /// if it got as far as being staged, and what was staged before is staged.
    pub open spec fn rolled_back(
        self,
        name: Seq<char>,
        previous: Option<Seq<char>>,
        replacement: Seq<char>,
    ) -> Parts {
        let cleared = if self.staged.contains_key(name) && self.staged[name].path == replacement {
            self.unstaged(name)
        } else {
            self
        };
        match previous {
            Some(path) => if cleared.staged.contains_key(name) {
                cleared
            } else {
                cleared.with_staged(name, path)
            },
            None => cleared,
        }
    }

    /// The bytes of all staged parts have been read.
    pub open spec fn all_read(self) -> bool {
        forall|name: Seq<char>| #[trigger]
            self.staged.contains_key(name) ==> self.staged[name].data is Some
    }

    /// The store with the first `n` staged parts moved into memory.
    pub open spec fn moved(self, n: nat) -> Parts
        decreases n,
    {
        if n == 0 {
            self
        } else {
            let before = self.moved((n - 1) as nat);
            let name = self.staged_order[n - 1];
            Parts {
                order: if before.files.contains_key(name) {
                    before.order
                } else {
                    before.order.push(name)
                },
                files: before.files.insert(
                    name,
                    match self.staged[name].data {
                        Some(data) => data,
                        None => Seq::empty(),
                    },
                ),
                ..before
            }
        }
    }

    /// The store with all staged parts moved into memory.
    pub open spec fn materialized(self) -> Parts {
        Parts {
            staged: Map::empty(),
            staged_order: Seq::empty(),
            ..self.moved(self.staged_order.len())
        }
    }
}

/// A failed operation leaves every part that it touched only by staging a
/// replacement as it was: with the file that was staged before, or with none.
pub proof fn law_rollback_restores_the_staged_part(
    parts: Parts,
    name: Seq<char>,
    replacement: Seq<char>,
)
    requires
        parts.staged.contains_key(name) ==> parts.staged[name].path != replacement,
    ensures
        ({
            let previous = if parts.staged.contains_key(name) {
                Some(parts.staged[name].path)
            } else {
                None
            };
            let early = parts.rolled_back(name, previous, replacement);
            let late = parts.with_staged(name, replacement).rolled_back(
                name,
                previous,
                replacement,
            );
            &&& early == parts
            &&& late.files == parts.files && late.order == parts.order
            &&& late.staged.contains_key(name) == parts.staged.contains_key(name)
            &&& parts.staged.contains_key(name) ==> late.staged[name].path
                == parts.staged[name].path
            &&& forall|other: Seq<char>|
                other != name ==> #[trigger] late.content(other) == parts.content(other)
        }),
{
}

/// Replacing a part leaves the bytes of every other part as they were.
pub proof fn law_update_touches_one_part(
    parts: Parts,
    name: Seq<char>,
    data: Seq<u8>,
    other: Seq<char>,
)
    ensures
        parts.with_file(name, data).content(name) == Some(data),
        other != name ==> parts.with_file(name, data).content(other) == parts.content(other),
        other != name ==> parts.with_file(name, data).has(other) == parts.has(other),
{
}

/// The bytes of each part.
pub open spec fn bytes_map(m: Map<Seq<char>, Vec<u8>>) -> Map<Seq<char>, Seq<u8>> {
    m.map_values(|v: Vec<u8>| v@)
}

/// What each staged part stands for.
pub open spec fn staged_map(m: Map<Seq<char>, StagedPart>) -> Map<Seq<char>, Staged> {
    m.map_values(|v: StagedPart| v@)
}

/// The parts of a workbook's archive.
pub struct ZipStore {
    order: Vec<String>,
    files: NameMap<Vec<u8>>,
    staged: NameMap<StagedPart>,
}

impl View for ZipStore {
    type V = Parts;

    closed spec fn view(&self) -> Parts {
        Parts {
            order: crate::biff12::texts(self.order@),
            files: bytes_map(self.files@),
            staged: staged_map(self.staged@),
            staged_order: self.staged.order(),
        }
    }
}

/// The store that an archive's members make, one after the other. Of members with
/// the same name the last one counts.
pub open spec fn stored(members: Seq<(Seq<char>, Seq<u8>)>) -> Parts
    decreases members.len(),
{
    if members.len() == 0 {
        Parts {
            order: Seq::empty(),
            files: Map::empty(),
            staged: Map::empty(),
            staged_order: Seq::empty(),
        }
    } else {
        let before = stored(members.drop_last());
        Parts {
            order: before.order.push(members.last().0),
            files: before.files.insert(members.last().0, members.last().1),
            ..before
        }
    }
}

fn concat(a: &str, b: &str) -> (s: String)
    ensures
        s@ == a@ + b@,
{
    let mut s = a.to_owned();
    s.append(b);
    s
}

impl ZipStore {
    pub closed spec fn wf(self) -> bool {
        self.files.wf() && self.staged.wf()
    }

    /// Names in the staging order are the staged names.
    pub proof fn lemma_staged(self)
        requires
            self.wf(),
        ensures
            self@.staged_order.no_duplicates(),
            forall|name: Seq<char>| #[trigger]
                self@.staged.contains_key(name) <==> self@.staged_order.contains(name),
    {
        self.staged.lemma_order();
    }

    /// An archive without members.
    pub fn new() -> (r: Self)
        ensures
            r.wf(),
            r@ == stored(Seq::empty()),
    {
        let r = ZipStore { order: Vec::new(), files: NameMap::new(), staged: NameMap::new() };
        assert(r@ =~= stored(Seq::empty()));
        r
    }

    /// Adds a member of the archive that was opened.
    pub fn add_member(&mut self, name: &str, data: Vec<u8>)
        requires
            old(self).wf(),
        ensures
            final(self).wf(),
            final(self)@ == (Parts {
                order: old(self)@.order.push(name@),
                files: old(self)@.files.insert(name@, data@),
                ..old(self)@
            }),
    {
        let ghost before = self@;
        self.order.push(name.to_owned());
        self.files.insert(name, data);
        assert(self@ =~= (Parts {
            order: before.order.push(name@),
            files: before.files.insert(name@, data@),
            ..before
        }));
    }

    pub fn has_entry(&self, name: &str) -> (b: bool)
        requires
            self.wf(),
        ensures
            b == self@.has(name@),
    {
        self.files.contains(name) || self.staged.contains(name)
    }

    /// The names of all parts: those of the archive in its order, then those that
    /// are staged alone.
    pub fn entry_names(&self) -> (names: Vec<String>)
        requires
            self.wf(),
        ensures
            crate::biff12::texts(names@) == self@.names(),
    {
        let mut names: Vec<String> = Vec::new();
        let mut i: usize = 0;
        while i < self.order.len()
            invariant
                i <= self.order.len(),
                crate::biff12::texts(names@) == self@.order.take(i as int),
            decreases self.order.len() - i,
        {
            let ghost earlier = names@;
            names.push(self.order[i].as_str().to_owned());
            assert(crate::biff12::texts(names@) =~= crate::biff12::texts(earlier).push(
                self@.order[i as int],
            ));
            assert(crate::biff12::texts(names@) =~= self@.order.take(i as int + 1));
            i += 1;
        }
        assert(self@.order.take(i as int) =~= self@.order);
        let mut k: usize = 0;
        assert(self@.order + unfiled(self@.staged_order.take(0), self@.files) =~= self@.order);
        while k < self.staged.len()
            invariant
                self.wf(),
                k <= self@.staged_order.len(),
                self@.staged_order == self.staged.order(),
                crate::biff12::texts(names@) == self@.order + unfiled(
                    self@.staged_order.take(k as int),
                    self@.files,
                ),
            decreases self@.staged_order.len() - k,
        {
            let name = self.staged.name(k);
            let ghost earlier = names@;
            proof {
                assert(self@.staged_order.take(k as int + 1).drop_last()
                    =~= self@.staged_order.take(k as int));
                assert(self@.files.contains_key(name@) == self.files@.contains_key(name@));
            }
            if !self.files.contains(name) {
                names.push(name.to_owned());
                assert(crate::biff12::texts(names@) =~= crate::biff12::texts(earlier).push(name@));
                assert(crate::biff12::texts(names@) =~= self@.order + unfiled(
                    self@.staged_order.take(k as int + 1),
                    self@.files,
                ));
            }
            k += 1;
        }
        assert(self@.staged_order.take(k as int) =~= self@.staged_order);
        names
    }

    /// The current bytes of a part, the staged ones before those in memory.
    pub fn entry_data(&self, name: &str) -> (r: SpreadsheetResult<&[u8]>)
        requires
            self.wf(),
        ensures
            match r {
                Ok(data) => self@.content(name@) == Some(data@),
                Err(e) => self@.content(name@) is None && self@.lacks(name@, e),
            },
    {
        match self.staged.get(name) {
            Some(part) => match &part.data {
                Some(data) => Ok(data.as_slice()),
                None => Err(
                    SpreadsheetError::Io(
                        concat("staged part has not been read: ", part.path.as_str()),
                    ),
                ),
            },
            None => match self.files.get(name) {
                Some(data) => Ok(data.as_slice()),
                None => Err(SpreadsheetError::InvalidFormat(concat("ZIP member missing: ", name))),
            },
        }
    }

    /// Where the bytes of a part are to be had when the archive is written.
    pub fn entry_source(&self, name: &str) -> (r: PartSource<'_>)
        requires
            self.wf(),
        ensures
            match r {
                PartSource::File(path) => self@.staged.contains_key(name@)
                    && self@.staged[name@].path == path@,
                PartSource::Memory(data) => !self@.staged.contains_key(name@)
                    && self@.files.contains_key(name@) && self@.files[name@] == data@,
                PartSource::Absent => !self@.has(name@),
            },
    {
        match self.staged.get(name) {
            Some(part) => PartSource::File(part.path.as_str()),
            None => match self.files.get(name) {
                Some(data) => PartSource::Memory(data.as_slice()),
                None => PartSource::Absent,
            },
        }
    }

    /// Replaces a part in memory and drops a staged replacement, whose file, no
    /// longer needed, is returned.
    pub fn update_file(&mut self, name: &str, data: Vec<u8>) -> (file: Option<String>)
        requires
            old(self).wf(),
        ensures
            final(self).wf(),
            final(self)@ == old(self)@.with_file(name@, data@),
            match file {
                Some(path) => old(self)@.staged.contains_key(name@) && path@
                    == old(self)@.staged[name@].path,
                None => !old(self)@.staged.contains_key(name@),
            },
    {
        let ghost before = self@;
        if !self.files.contains(name) {
            self.order.push(name.to_owned());
        }
        self.files.insert(name, data);
        let dropped = self.staged.remove(name);
        proof {
            assert(before.files.contains_key(name@) == old(self).files@.contains_key(name@));
            assert(self@.order =~= before.with_file(name@, data@).order);
            assert(self@ =~= before.with_file(name@, data@));
        }
        match dropped {
            Some(part) => Some(part.path),
            None => None,
        }
    }

    /// The file that a part is staged in.
    pub fn staged_path(&self, name: &str) -> (r: Option<&str>)
        requires
            self.wf(),
        ensures
            match r {
                Some(path) => self@.staged.contains_key(name@) && path@
                    == self@.staged[name@].path,
                None => !self@.staged.contains_key(name@),
            },
    {
        match self.staged.get(name) {
            Some(part) => Some(part.path.as_str()),
            None => None,
        }
    }

    /// Stages a part in a file. The file that it was staged in before stays, so
    /// that a failed operation can go back to it.
    pub fn stage_part(&mut self, name: &str, path: &str)
        requires
            old(self).wf(),
        ensures
            final(self).wf(),
            final(self)@ == old(self)@.with_staged(name@, path@),
    {
        let ghost before = self@;
        self.staged.insert(name, StagedPart { path: path.to_owned(), data: None });
        assert(self@ =~= before.with_staged(name@, path@));
    }

    /// Hands over the bytes that were read from the file of a staged part.
    pub fn load_staged(&mut self, name: &str, data: Vec<u8>)
        requires
            old(self).wf(),
        ensures
            final(self).wf(),
            !old(self)@.staged.contains_key(name@) ==> final(self)@ == old(self)@,
            old(self)@.staged.contains_key(name@) ==> final(self)@ == (Parts {
                staged: old(self)@.staged.insert(
                    name@,
                    Staged { path: old(self)@.staged[name@].path, data: Some(data@) },
                ),
                ..old(self)@
            }),
    {
        let ghost before = self@;
        let path = match self.staged.get(name) {
            Some(part) => part.path.as_str().to_owned(),
            None => return,
        };
        proof {
            self.staged.lemma_order();
            crate::string_table::lemma_position(self.staged.order(), name@);
        }
        self.staged.insert(name, StagedPart { path, data: Some(data) });
        assert(self@ =~= (Parts {
            staged: before.staged.insert(
                name@,
                Staged { path: before.staged[name@].path, data: Some(data@) },
            ),
            ..before
        }));
    }

    /// Drops the staged replacement of a part. Its file is returned.
    pub fn discard_staged(&mut self, name: &str) -> (file: Option<String>)
        requires
            old(self).wf(),
        ensures
            final(self).wf(),
            final(self)@ == old(self)@.unstaged(name@),
            match file {
                Some(path) => old(self)@.staged.contains_key(name@) && path@
                    == old(self)@.staged[name@].path,
                None => !old(self)@.staged.contains_key(name@),
            },
    {
        let ghost before = self@;
        let dropped = self.staged.remove(name);
        assert(self@ =~= before.unstaged(name@));
        match dropped {
            Some(part) => Some(part.path),
            None => None,
        }
    }

    /// Goes back to what was staged before an operation that failed. A replacement
    /// that never got as far as being staged leaves the earlier one untouched. The
    /// file of a replacement that was staged is returned.
    pub fn rollback_staged(
        &mut self,
        name: &str,
        previous: Option<String>,
        replacement: &str,
    ) -> (file: Option<String>)
        requires
            old(self).wf(),
        ensures
            final(self).wf(),
            final(self)@ == old(self)@.rolled_back(
                name@,
                match previous {
                    Some(path) => Some(path@),
                    None => None,
                },
                replacement@,
            ),
            match file {
                Some(path) => path@ == replacement@ && old(self)@.staged.contains_key(name@)
                    && old(self)@.staged[name@].path == replacement@,
                None => !(old(self)@.staged.contains_key(name@) && old(self)@.staged[name@].path
                    == replacement@),
            },
    {
        let installed = match self.staged_path(name) {
            Some(path) => crate::text::eq_str(path, replacement),
            None => false,
        };
        let file = if installed {
            self.discard_staged(name)
        } else {
            None
        };
        match previous {
            Some(path) => {
                if !self.staged.contains(name) {
                    self.stage_part(name, path.as_str());
                }
            },
            None => {},
        }
        file
    }

    /// Moves all staged parts into memory. Their files, no longer needed, are
    /// returned. Nothing changes where the bytes of one have not been read.
    pub fn materialize_staged(&mut self) -> (r: SpreadsheetResult<Vec<String>>)
        requires
            old(self).wf(),
        ensures
            final(self).wf(),
            match r {
                Ok(files) => {
                    &&& old(self)@.all_read()
                    &&& final(self)@ == old(self)@.materialized()
                    &&& crate::biff12::texts(files@) == Seq::new(
                        old(self)@.staged_order.len(),
                        |i: int| old(self)@.staged[old(self)@.staged_order[i]].path,
                    )
                },
                Err(e) => {
                    &&& !old(self)@.all_read()
                    &&& *final(self) == *old(self)
                    &&& e is Io
                },
            },
    {
        let ghost before = self@;
        let mut i: usize = 0;
        proof {
            self.lemma_staged();
        }
        while i < self.staged.len()
            invariant
                self.wf(),
                *self == *old(self),
                self@.staged_order == self.staged.order(),
                i <= self@.staged_order.len(),
                forall|j: int|
                    0 <= j < i ==> self@.staged[#[trigger] self@.staged_order[j]].data is Some,
            decreases self@.staged_order.len() - i,
        {
            let part = self.staged.value(i);
            assert(self@.staged[self@.staged_order[i as int]] == part@);
            if part.data.is_none() {
                assert(self@.staged.contains_key(self@.staged_order[i as int]));
                return Err(
                    SpreadsheetError::Io(
                        concat("staged part has not been read: ", part.path.as_str()),
                    ),
                );
            }
            i += 1;
        }
        assert(before.all_read()) by {
            assert forall|name: Seq<char>| #[trigger]
                before.staged.contains_key(name) implies before.staged[name].data is Some by {
                assert(before.staged_order.contains(name));
                let j = choose|j: int|
                    0 <= j < before.staged_order.len() && before.staged_order[j] == name;
                assert(before.staged[before.staged_order[j]].data is Some);
            }
        }
        let mut files: Vec<String> = Vec::new();
        let mut k: usize = 0;
        while k < self.staged.len()
            invariant
                self.wf(),
                before == old(self)@,
                before.all_read(),
                self.staged == old(self).staged,
                before.staged_order == self.staged.order(),
                before.staged == staged_map(self.staged@),
                k <= before.staged_order.len(),
                self@ == before.moved(k as nat),
                crate::biff12::texts(files@) == Seq::new(
                    k as nat,
                    |i: int| before.staged[before.staged_order[i]].path,
                ),
            decreases before.staged_order.len() - k,
        {
            let ghost earlier = *self;
            let ghost paths = files@;
            let name = self.staged.name(k).to_owned();
            let part = self.staged.value(k);
            assert(before.staged.contains_key(name@));
            assert(before.staged[name@] == part@);
            files.push(part.path.as_str().to_owned());
            let data: Vec<u8> = match &part.data {
                Some(data) => vstd::slice::slice_to_vec(data.as_slice()),
                None => Vec::new(),
            };
            proof {
                assert(earlier@.files.contains_key(name@) == self.files@.contains_key(name@));
            }
            if !self.files.contains(name.as_str()) {
                self.order.push(name.as_str().to_owned());
            }
            self.files.insert(name.as_str(), data);
            k += 1;
            proof {
                assert(crate::biff12::texts(files@) =~= crate::biff12::texts(paths).push(
                    before.staged[name@].path,
                ));
                assert(crate::biff12::texts(files@) =~= Seq::new(
                    k as nat,
                    |i: int| before.staged[before.staged_order[i]].path,
                ));
                assert(self@.order =~= before.moved(k as nat).order);
                assert(self@ =~= before.moved(k as nat));
            }
        }
        self.staged = NameMap::new();
        proof {
            assert(self@ =~= before.materialized());
        }
        Ok(files)
    }

    /// Forgets all staged parts. Their files are returned.
    pub fn dispose(&mut self) -> (files: Vec<String>)
        requires
            old(self).wf(),
        ensures
            final(self).wf(),
            final(self)@ == (Parts {
                staged: Map::empty(),
                staged_order: Seq::empty(),
                ..old(self)@
            }),
            crate::biff12::texts(files@) == Seq::new(
                old(self)@.staged_order.len(),
                |i: int| old(self)@.staged[old(self)@.staged_order[i]].path,
            ),
    {
        let ghost before = self@;
        let mut files: Vec<String> = Vec::new();
        let mut k: usize = 0;
        while k < self.staged.len()
            invariant
                self.wf(),
                *self == *old(self),
                before == self@,
                before.staged_order == self.staged.order(),
                before.staged == staged_map(self.staged@),
                k <= before.staged_order.len(),
                crate::biff12::texts(files@) == Seq::new(
                    k as nat,
                    |i: int| before.staged[before.staged_order[i]].path,
                ),
            decreases before.staged_order.len() - k,
        {
            let part = self.staged.value(k);
            assert(before.staged[before.staged_order[k as int]] == part@);
            let ghost paths = files@;
            files.push(part.path.as_str().to_owned());
            k += 1;
            assert(crate::biff12::texts(files@) =~= crate::biff12::texts(paths).push(part.path@));
            assert(crate::biff12::texts(files@) =~= Seq::new(
                k as nat,
                |i: int| before.staged[before.staged_order[i]].path,
            ));
        }
        self.staged = NameMap::new();
        assert(self@ =~= (Parts {
            staged: Map::empty(),
            staged_order: Seq::empty(),
            ..before
        }));
        files
    }
}

} // verus!
