//! The fixed byte sequences that an XLSB workbook is assembled from.

use vstd::prelude::*;

verus! {

/// Fixed byte sequences of an XLSB workbook.
pub struct XlsbTemplates {
    /// The style part of a workbook without number formats of its own.
    pub styles_bin_base: Vec<u8>,
    /// An empty worksheet.
    pub sheet1_bytes: Vec<u8>,
    /// The pane that keeps the header row in view.
    pub sticky_header_a1: Vec<u8>,
    pub autofilter_start: Vec<u8>,
    pub autofilter_end: Vec<u8>,
    pub filter_fix0: Vec<u8>,
    pub filter_fix1: Vec<u8>,
    pub filter_fix2: Vec<u8>,
    pub workbook_bin_start: Vec<u8>,
    pub workbook_bin_middle: Vec<u8>,
    pub workbook_bin_end: Vec<u8>,
    pub binary_index_bin: Vec<u8>,
}

/// What the templates hold.
pub struct Templates {
    pub styles_bin_base: Seq<u8>,
    pub sheet1_bytes: Seq<u8>,
    pub sticky_header_a1: Seq<u8>,
    pub autofilter_start: Seq<u8>,
    pub autofilter_end: Seq<u8>,
    pub filter_fix0: Seq<u8>,
    pub filter_fix1: Seq<u8>,
    pub filter_fix2: Seq<u8>,
    pub workbook_bin_start: Seq<u8>,
    pub workbook_bin_middle: Seq<u8>,
    pub workbook_bin_end: Seq<u8>,
    pub binary_index_bin: Seq<u8>,
}

impl View for XlsbTemplates {
    type V = Templates;

    open spec fn view(&self) -> Templates {
        Templates {
            styles_bin_base: self.styles_bin_base@,
            sheet1_bytes: self.sheet1_bytes@,
            sticky_header_a1: self.sticky_header_a1@,
            autofilter_start: self.autofilter_start@,
            autofilter_end: self.autofilter_end@,
            filter_fix0: self.filter_fix0@,
            filter_fix1: self.filter_fix1@,
            filter_fix2: self.filter_fix2@,
            workbook_bin_start: self.workbook_bin_start@,
            workbook_bin_middle: self.workbook_bin_middle@,
            workbook_bin_end: self.workbook_bin_end@,
            binary_index_bin: self.binary_index_bin@,
        }
    }
}

/// The first offset from `from` on at which the bytes stand.
pub open spec fn find_bytes(s: Seq<u8>, needle: Seq<u8>, from: int) -> Option<int>
    decreases s.len() + 1 - from,
{
    if from + needle.len() > s.len() {
        None
    } else if s.subrange(from, from + needle.len()) == needle {
        Some(from)
    } else {
        find_bytes(s, needle, from + 1)
    }
}

/// The bytes stand where they were found.
pub proof fn lemma_find_bytes(s: Seq<u8>, needle: Seq<u8>, from: int)
    requires
        0 <= from,
    ensures
        find_bytes(s, needle, from) matches Some(at) ==> from <= at && at + needle.len() <= s.len()
            && s.subrange(at, at + needle.len()) == needle,
    decreases s.len() + 1 - from,
{
    if from + needle.len() <= s.len() && s.subrange(from, from + needle.len()) != needle {
        lemma_find_bytes(s, needle, from + 1);
    }
}

/// The first offset from `from` on at which the bytes stand.
pub fn search_bytes(s: &[u8], needle: &[u8], from: usize) -> (r: Option<usize>)
    requires
        from <= s.len(),
    ensures
        match r {
            Some(at) => find_bytes(s@, needle@, from as int) == Some(at as int) && from <= at && at
                + needle.len() <= s.len(),
            None => find_bytes(s@, needle@, from as int) is None,
        },
{
    let mut at: usize = from;
    while needle.len() <= s.len() && at <= s.len() - needle.len()
        invariant
            from <= at,
            find_bytes(s@, needle@, from as int) == find_bytes(s@, needle@, at as int),
        decreases s.len() + 1 - at,
    {
        let mut same = true;
        let mut i: usize = 0;
        while i < needle.len()
            invariant
                i <= needle.len(),
                at + needle.len() <= s.len(),
                same == (forall|j: int| 0 <= j < i ==> s@[at + j] == needle@[j]),
            decreases needle.len() - i,
        {
            if s[at + i] != needle[i] {
                same = false;
            }
            i += 1;
        }
        if same {
            assert(s@.subrange(at as int, at + needle@.len()) =~= needle@);
            return Some(at);
        }
        proof {
            let j = choose|j: int| 0 <= j < needle@.len() && s@[at + j] != needle@[j];
            assert(s@.subrange(at as int, at + needle@.len())[j] != needle@[j]);
        }
        if at == s.len() {
            return None;
        }
        at += 1;
    }
    None
}

/// Where the parts of the style template stand: the end mark of its fonts, the
/// start of its fills, and the start and the end mark of its cell styles.
pub struct StyleLayout {
    pub font_end: int,
    pub fill_begin: int,
    pub xf_begin: int,
    pub xf_end: int,
}

/// The layout of a style template.
pub open spec fn style_layout(base: Seq<u8>) -> StyleLayout {
    let end = base.len() as int;
    let font_end = match find_bytes(base, seq![0xe8u8, 0x04u8, 0x00u8], 3) {
        Some(at) => at,
        None => end,
    };
    let xf_begin = match find_bytes(base, seq![0xe9u8, 0x04u8], font_end + 3) {
        Some(at) => at,
        None => end,
    };
    let xf_end = match find_bytes(base, seq![0xeau8, 0x04u8, 0x00u8], xf_begin) {
        Some(at) => at,
        None => end,
    };
    let fill_begin = match find_bytes(base, seq![0xe3u8, 0x04u8], font_end + 3) {
        Some(at) => at,
        None => xf_begin,
    };
    StyleLayout { font_end, fill_begin, xf_begin, xf_end }
}

impl Templates {
    /// The templates are long enough to be cut and patched, and the style template
    /// has its parts in order.
    pub open spec fn wf(self) -> bool {
        let layout = style_layout(self.styles_bin_base);
        &&& self.sheet1_bytes.len() >= 290
        &&& self.filter_fix1.len() >= 8
        &&& self.styles_bin_base.len() >= 3
        &&& layout.font_end + 3 <= self.styles_bin_base.len()
        &&& layout.fill_begin <= layout.xf_begin
        &&& layout.xf_end + 3 <= self.styles_bin_base.len()
    }
}

impl XlsbTemplates {
    /// Whether the templates are long enough and have their parts in order.
    pub fn is_usable(&self) -> (b: bool)
        ensures
            b == self@.wf(),
    {
        let base = self.styles_bin_base.as_slice();
        if self.sheet1_bytes.len() < 290 || self.filter_fix1.len() < 8 || base.len() < 3 {
            return false;
        }
        match locate_styles(base) {
            Some(_) => true,
            None => false,
        }
    }
}

/// The start of the fills, and the start and the end mark of the cell styles.
pub fn locate_styles(base: &[u8]) -> (r: Option<(usize, usize, usize)>)
    requires
        base.len() >= 3,
    ensures
        ({
            let layout = style_layout(base@);
            match r {
                Some((fill_begin, xf_begin, xf_end)) => {
                    &&& layout.font_end + 3 <= base@.len()
                    &&& fill_begin == layout.fill_begin
                    &&& xf_begin == layout.xf_begin
                    &&& xf_end == layout.xf_end
                    &&& 3 <= fill_begin <= xf_begin <= xf_end
                    &&& xf_end + 3 <= base@.len()
                },
                None => layout.font_end + 3 > base@.len() || layout.fill_begin > layout.xf_begin
                    || layout.xf_end + 3 > base@.len(),
            }
        }),
{
    let fonts: [u8; 3] = [0xe8, 0x04, 0x00];
    let xfs: [u8; 2] = [0xe9, 0x04];
    let xfs_end: [u8; 3] = [0xea, 0x04, 0x00];
    let fills: [u8; 2] = [0xe3, 0x04];
    assert(fonts@ =~= seq![0xe8u8, 0x04u8, 0x00u8]);
    assert(xfs@ =~= seq![0xe9u8, 0x04u8]);
    assert(xfs_end@ =~= seq![0xeau8, 0x04u8, 0x00u8]);
    assert(fills@ =~= seq![0xe3u8, 0x04u8]);
    let font_end: usize = match search_bytes(base, &fonts, 3) {
        Some(at) => at,
        None => return None,
    };
    let xf_begin: usize = match search_bytes(base, &xfs, font_end + 3) {
        Some(at) => at,
        None => base.len(),
    };
    let xf_end: usize = match search_bytes(base, &xfs_end, xf_begin) {
        Some(at) => at,
        None => return None,
    };
    let fill_begin: usize = match search_bytes(base, &fills, font_end + 3) {
        Some(at) => at,
        None => xf_begin,
    };
    if fill_begin > xf_begin {
        return None;
    }
    Some((fill_begin, xf_begin, xf_end))
}

} // verus!
