//! Classified memory sections and the predicates their collections obey.

use vstd::prelude::*;

verus! {

/// Base of the physical RAM window reserved for mutable program state.
pub const RAM_BASE: u64 = 0xa000_0000;

/// End (exclusive) of the physical RAM window.
pub const RAM_END: u64 = 0xc000_0000;

/// Width in bytes of one instruction word.
pub const INST_BYTES: usize = 4;

/// Mathematical model of a section: base address and byte contents.
pub type SecModel = (int, Seq<u8>);

/// Mathematical model of a raw loadable segment:
/// address, readable, writable, executable, byte contents.
pub type SegModel = (int, bool, bool, bool, Seq<u8>);

/// A loadable region extracted from the container, before classification.
pub struct RawSegment {
    pub addr: u64,
    pub readable: bool,
    pub writable: bool,
    pub executable: bool,
    pub data: Vec<u8>,
}

impl View for RawSegment {
    type V = SegModel;

    open spec fn view(&self) -> SegModel {
        (self.addr as int, self.readable, self.writable, self.executable, self.data@)
    }
}

/// A classified, address-sorted contiguous byte range.
#[derive(Debug, Clone, PartialEq, Eq)]
pub struct DataSection {
    pub addr: u64,
    pub data: Vec<u8>,
}

impl View for DataSection {
    type V = SecModel;

    open spec fn view(&self) -> SecModel {
        (self.addr as int, self.data@)
    }
}

/// One-past-the-end address of a section.
pub open spec fn sec_end(s: SecModel) -> int {
    s.0 + s.1.len()
}

/// The sections of `segs`, in order, as mathematical values.
pub open spec fn secs_view(v: Seq<DataSection>) -> Seq<SecModel> {
    v.map_values(|d: DataSection| d@)
}

/// The raw segments of `segs`, in order, as mathematical values.
pub open spec fn segs_view(v: Seq<RawSegment>) -> Seq<SegModel> {
    v.map_values(|s: RawSegment| s@)
}

/// Sections are non-overlapping and sorted ascending: each one ends at or
/// before the next begins.
pub open spec fn sections_ordered(s: Seq<SecModel>) -> bool {
    forall|i: int, j: int| 0 <= i < j < s.len() ==> sec_end(#[trigger] s[i]) <= (#[trigger] s[j]).0
}

/// Every section holds at least one byte.
pub open spec fn sections_nonempty(s: Seq<SecModel>) -> bool {
    forall|i: int| 0 <= i < s.len() ==> (#[trigger] s[i]).1.len() > 0
}

/// Every section's address range fits in the 64-bit address space.
pub open spec fn sections_bounded(s: Seq<SecModel>) -> bool {
    forall|i: int| 0 <= i < s.len() ==> 0 <= (#[trigger] s[i]).0 && sec_end(s[i]) <= u64::MAX
}

/// The section lies entirely inside the RAM window.
pub open spec fn section_in_ram(s: SecModel) -> bool {
    RAM_BASE <= s.0 && sec_end(s) <= RAM_END
}

/// Total number of bytes held by the sections.
pub open spec fn total_len(s: Seq<SecModel>) -> int
    decreases s.len(),
{
    if s.len() == 0 {
        0
    } else {
        total_len(s.drop_last()) + s.last().1.len()
    }
}

/// Appending a section adds its length to the total.
pub proof fn lemma_total_len_push(s: Seq<SecModel>, x: SecModel)
    ensures
        total_len(s.push(x)) == total_len(s) + x.1.len(),
{
    assert(s.push(x).drop_last() =~= s);
}

/// Inserting a section anywhere adds its length to the total.
pub proof fn lemma_total_len_insert(s: Seq<SecModel>, j: int, x: SecModel)
    requires
        0 <= j <= s.len(),
    ensures
        total_len(s.insert(j, x)) == total_len(s) + x.1.len(),
    decreases s.len(),
{
    let t = s.insert(j, x);
    if j == s.len() {
        assert(t =~= s.push(x));
        lemma_total_len_push(s, x);
    } else {
        s.insert_ensures(j, x);
        assert(t.last() == s.last());
        assert(t.drop_last() =~= s.drop_last().insert(j, x));
        lemma_total_len_insert(s.drop_last(), j, x);
    }
}

} // verus!
