//! The tables that the sheets of a workbook share while it is written.

use vstd::prelude::*;
use crate::string_table::StringTable;

verus! {

/// The texts and formats that the cells written so far have asked for, and how
/// often a text was asked for.
pub struct Tables {
    pub strings: Seq<Seq<char>>,
    pub uses: int,
    pub formats: Seq<Seq<char>>,
}

impl Tables {
    /// The tables after a cell has asked for a text.
    pub open spec fn with_string(self, text: Seq<char>) -> Tables {
        Tables {
            strings: crate::string_table::with_text(self.strings, text),
            uses: self.uses + 1,
            ..self
        }
    }

    /// The index that a cell gets for a text.
    pub open spec fn string_index(self, text: Seq<char>) -> int {
        crate::string_table::index_for(self.strings, text)
    }

    /// The tables after a cell has asked for its format, if it has one.
    pub open spec fn with_format(self, format: Option<Seq<char>>) -> Tables {
        match format {
            Some(format) => Tables {
                formats: crate::string_table::with_text(self.formats, format),
                ..self
            },
            None => self,
        }
    }

    /// The index of the cell style that a format gets. Four styles come before
    /// those of the formats.
    pub open spec fn style_for(self, format: Option<Seq<char>>) -> Option<int> {
        match format {
            Some(format) => Some(4 + crate::string_table::index_for(self.formats, format)),
            None => None,
        }
    }

    /// The counters have room for `n` more cells.
    pub open spec fn has_room(self, n: int) -> bool {
        self.uses + n <= u64::MAX && self.formats.len() + n <= u32::MAX - 200
    }

    /// The tables have grown by no more than `n` cells need.
    pub open spec fn grown(self, earlier: Tables, n: int) -> bool {
        &&& earlier.uses <= self.uses <= earlier.uses + n
        &&& earlier.formats.len() <= self.formats.len() <= earlier.formats.len() + n
        &&& earlier.strings.is_prefix_of(self.strings)
        &&& earlier.formats.is_prefix_of(self.formats)
    }
}

/// The shared tables of a workbook being written.
pub struct SheetTables {
    pub strings: StringTable,
    pub uses: u64,
    pub formats: StringTable,
}

impl View for SheetTables {
    type V = Tables;

    open spec fn view(&self) -> Tables {
        Tables { strings: self.strings@, uses: self.uses as int, formats: self.formats@ }
    }
}

impl SheetTables {
    pub open spec fn wf(self) -> bool {
        self.strings.wf() && self.formats.wf()
    }

    pub fn new() -> (r: Self)
        ensures
            r.wf(),
            r@ == (Tables { strings: Seq::empty(), uses: 0, formats: Seq::empty() }),
    {
        SheetTables { strings: StringTable::new(), uses: 0, formats: StringTable::new() }
    }

    /// The index of a text that a cell asks for.
    pub fn intern_string(&mut self, text: &str) -> (i: usize)
        requires
            old(self).wf(),
            old(self)@.uses < u64::MAX,
        ensures
            final(self).wf(),
            final(self)@ == old(self)@.with_string(text@),
            i == old(self)@.string_index(text@),
            final(self)@.grown(old(self)@, 1),
    {
        let i: usize = self.strings.intern(text);
        self.uses = self.uses + 1;
        i
    }

    /// The style of a format that a cell asks for.
    pub fn register_format(&mut self, format: &str) -> (style: usize)
        requires
            old(self).wf(),
            old(self)@.formats.len() < u32::MAX - 200,
        ensures
            final(self).wf(),
            final(self)@ == old(self)@.with_format(Some(format@)),
            old(self)@.style_for(Some(format@)) == Some(style as int),
            final(self)@.grown(old(self)@, 1),
    {
        proof {
            crate::string_table::lemma_position(self@.formats, format@);
        }
        4 + self.formats.intern(format)
    }
}

/// Growth adds up.
pub proof fn lemma_grown_trans(a: Tables, b: Tables, c: Tables, m: int, n: int)
    requires
        b.grown(a, m),
        c.grown(b, n),
    ensures
        c.grown(a, m + n),
{
    assert(a.strings.is_prefix_of(c.strings)) by {
        assert(a.strings =~= c.strings.take(a.strings.len() as int)) by {
            assert(a.strings =~= b.strings.take(a.strings.len() as int));
            assert(b.strings =~= c.strings.take(b.strings.len() as int));
        }
    }
    assert(a.formats.is_prefix_of(c.formats)) by {
        assert(a.formats =~= c.formats.take(a.formats.len() as int)) by {
            assert(a.formats =~= b.formats.take(a.formats.len() as int));
            assert(b.formats =~= c.formats.take(b.formats.len() as int));
        }
    }
}

/// What was no more than `m` cells need is no more than `n` need.
pub proof fn lemma_grown_more(b: Tables, a: Tables, m: int, n: int)
    requires
        b.grown(a, m),
        m <= n,
    ensures
        b.grown(a, n),
{
}

} // verus!
