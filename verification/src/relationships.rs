//! Relationship parts: which id stands for which part.

use vstd::prelude::*;
use crate::text::{chars_of, eq_str, push_chars, string_of};
use crate::xml_tags::{find_open_tag, tag_attribute};
use crate::xml_utils::matches_at;

verus! {

/// One relationship.
pub struct Relationship {
    pub id: String,
    pub target: String,
}

/// The targets of the first `n` relationships by their ids. Of two with one id
/// the later counts.
pub open spec fn targets(list: Seq<Relationship>, n: nat) -> Map<Seq<char>, Seq<char>>
    decreases n,
{
    if n == 0 {
        Map::empty()
    } else {
        targets(list, (n - 1) as nat).insert(list[n - 1].id@, list[n - 1].target@)
    }
}

/// Targets by their ids.
pub struct RelationshipMap {
    list: Vec<Relationship>,
}

impl View for RelationshipMap {
    type V = Map<Seq<char>, Seq<char>>;

    closed spec fn view(&self) -> Map<Seq<char>, Seq<char>> {
        targets(self.list@, self.list@.len())
    }
}

proof fn lemma_targets_prefix(a: Seq<Relationship>, b: Seq<Relationship>, n: nat)
    requires
        n <= a.len(),
        n <= b.len(),
        forall|i: int| 0 <= i < n ==> a[i] == b[i],
    ensures
        targets(a, n) == targets(b, n),
    decreases n,
{
    if n > 0 {
        lemma_targets_prefix(a, b, (n - 1) as nat);
    }
}

impl RelationshipMap {
    pub fn new() -> (r: Self)
        ensures
            r@ == Map::<Seq<char>, Seq<char>>::empty(),
    {
        RelationshipMap { list: Vec::new() }
    }

    /// Adds a relationship. An earlier one with the same id no longer counts.
    pub fn insert(&mut self, id: String, target: String)
        ensures
            final(self)@ == old(self)@.insert(id@, target@),
    {
        let ghost before = self.list@;
        self.list.push(Relationship { id, target });
        proof {
            lemma_targets_prefix(before, self.list@, before.len());
        }
    }

    /// The target of an id.
    pub fn get(&self, id: &str) -> (r: Option<&str>)
        ensures
            match r {
                Some(target) => self@.contains_key(id@) && self@[id@] == target@,
                None => !self@.contains_key(id@),
            },
    {
        let mut i: usize = self.list.len();
        while i > 0
            invariant
                i <= self.list@.len(),
                self@.contains_key(id@) == targets(self.list@, i as nat).contains_key(id@),
                self@.contains_key(id@) ==> self@[id@] == targets(self.list@, i as nat)[id@],
            decreases i,
        {
            i -= 1;
            if eq_str(self.list[i].id.as_str(), id) {
                return Some(self.list[i].target.as_str());
            }
        }
        None
    }
}

impl Default for RelationshipMap {
    fn default() -> (r: Self)
        ensures
            r@ == Map::<Seq<char>, Seq<char>>::empty(),
    {
        RelationshipMap::new()
    }
}

/// The relationships with the one that a tag states, if it has an id and a target.
pub open spec fn with_relationship(
    known: Map<Seq<char>, Seq<char>>,
    tag: Seq<char>,
) -> Map<Seq<char>, Seq<char>> {
    match (crate::xml_tags::attribute(tag, "Id"@), crate::xml_tags::attribute(tag, "Target"@)) {
        (Some(id), Some(target)) => known.insert(id, target),
        _ => known,
    }
}

/// The relationships that the document states from `from` on, added to those
/// already known.
pub open spec fn relationships_from(
    xml: Seq<char>,
    from: int,
    known: Map<Seq<char>, Seq<char>>,
) -> Map<Seq<char>, Seq<char>>
    decreases xml.len() - from,
    when 0 <= from
{
    proof {
        crate::xml_tags::lemma_open_tag(xml, from, "Relationship"@);
    }
    match crate::xml_tags::open_tag_from(xml, from, "Relationship"@) {
        None => known,
        Some((start, end)) => relationships_from(
            xml,
            end,
            with_relationship(known, xml.subrange(start, end)),
        ),
    }
}

/// The relationships that a document states.
pub open spec fn relationships(xml: Seq<char>) -> Map<Seq<char>, Seq<char>> {
    relationships_from(xml, 0, Map::empty())
}

/// Reads the relationships that a document states.
pub fn parse_relationships(xml: &str) -> (map: RelationshipMap)
    ensures
        map@ == relationships(xml@),
{
    let doc = chars_of(xml);
    let local = chars_of("Relationship");
    let mut map = RelationshipMap::new();
    let mut search: usize = 0;
    while search < doc.len()
        invariant
            doc@ == xml@,
            local@ == "Relationship"@,
            search <= doc.len(),
            relationships(xml@) == relationships_from(xml@, search as int, map@),
        decreases doc.len() - search,
    {
        proof {
            crate::xml_tags::lemma_open_tag(xml@, search as int, "Relationship"@);
        }
        match find_open_tag(&doc, search, &local) {
            None => return map,
            Some((start, end)) => {
                let tag = vstd::slice::slice_subrange(doc.as_slice(), start, end);
                if let (Some(id), Some(target)) = (
                    tag_attribute(tag, "Id"),
                    tag_attribute(tag, "Target"),
                ) {
                    map.insert(string_of(&id), string_of(&target));
                }
                search = end;
            },
        }
    }
    map
}

/// The path of a part that the workbook's relationships give as a target: without
/// a slash in front, and below `xl/`.
pub open spec fn part_path(target: Seq<char>) -> Seq<char> {
    let bare = if target.len() > 0 && target[0] == '/' {
        target.skip(1)
    } else {
        target
    };
    if crate::xml_utils::stands_at(bare, "xl/"@, 0) {
        bare
    } else {
        "xl/"@ + bare
    }
}

/// The path of a part that the workbook's relationships give as a target.
pub fn resolve_part(target: &str) -> (path: String)
    ensures
        path@ == part_path(target@),
{
    let chars = chars_of(target);
    let root = chars_of("xl/");
    let skipped: usize = if chars.len() > 0 && chars[0] == '/' {
        1
    } else {
        0
    };
    let end: usize = chars.len();
    let bare = vstd::slice::slice_subrange(chars.as_slice(), skipped, end);
    assert(bare@ =~= if target@.len() > 0 && target@[0] == '/' {
        target@.skip(1)
    } else {
        target@
    });
    let mut path = String::new();
    if !matches_at(bare, &root, 0) {
        path.append("xl/");
    }
    push_chars(&mut path, bare);
    assert(path@ =~= part_path(target@));
    path
}

} // verus!
