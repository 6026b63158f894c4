//! The RAM-window gate and the entry-point check.

use vstd::prelude::*;

use crate::error::ElfError;
use crate::sections::{sec_end, section_in_ram, secs_view, DataSection, SecModel, RAM_BASE, RAM_END};

verus! {

/// Every section lies inside the RAM window.
pub open spec fn all_in_ram(s: Seq<SecModel>) -> bool {
    forall|i: int| 0 <= i < s.len() ==> section_in_ram(#[trigger] s[i])
}

/// Index of the first section outside the RAM window, or the length when
/// there is none.
pub open spec fn first_oob(s: Seq<SecModel>) -> int
    decreases s.len(),
{
    if s.len() == 0 {
        0
    } else if section_in_ram(s[0]) {
        1 + first_oob(s.drop_first())
    } else {
        0
    }
}

/// `first_oob` points at the first violation, and reaches the end exactly
/// when there is none.
pub proof fn lemma_first_oob(s: Seq<SecModel>)
    ensures
        0 <= first_oob(s) <= s.len(),
        forall|i: int| 0 <= i < first_oob(s) ==> section_in_ram(#[trigger] s[i]),
        first_oob(s) < s.len() ==> !section_in_ram(s[first_oob(s)]),
        first_oob(s) == s.len() <==> all_in_ram(s),
    decreases s.len(),
{
    if s.len() != 0 && section_in_ram(s[0]) {
        lemma_first_oob(s.drop_first());
        let f = first_oob(s);
        assert(f == 1 + first_oob(s.drop_first()));
        assert forall|i: int| 0 <= i < f implies section_in_ram(#[trigger] s[i]) by {
            if i > 0 {
                assert(s.drop_first()[i - 1] == s[i]);
            }
        }
        if f < s.len() {
            assert(s.drop_first()[f - 1] == s[f]);
        }
        if f == s.len() {
            assert forall|i: int| 0 <= i < s.len() implies section_in_ram(#[trigger] s[i]) by {}
        } else {
            assert(!all_in_ram(s));
        }
    }
}

/// Checks that every read-write section lies inside the RAM window; fails
/// with [`ElfError::OutOfBounds`], carrying the first offending section's
/// address and length, exactly when one does not.
pub fn validate_ram(rw: &Vec<DataSection>) -> (r: Result<(), ElfError>)
    ensures
        r is Ok <==> all_in_ram(secs_view(rw@)),
        r is Err ==> {
            let s = secs_view(rw@);
            r == Err::<(), ElfError>(
                ElfError::OutOfBounds {
                    addr: s[first_oob(s)].0 as u64,
                    len: s[first_oob(s)].1.len() as u64,
                },
            )
        },
{
    let ghost s = secs_view(rw@);
    proof {
        lemma_first_oob(s);
    }
    let n: usize = rw.len();
    let mut i: usize = 0;
    while i < n
        invariant
            s == secs_view(rw@),
            n == rw@.len(),
            i <= n,
            forall|k: int| 0 <= k < i ==> section_in_ram(#[trigger] s[k]),
            first_oob(s) >= i,
        decreases n - i,
    {
        proof {
            lemma_first_oob(s);
        }
        let sec = &rw[i];
        let len64: u64 = sec.data.len() as u64;
        if !(sec.addr >= RAM_BASE && sec.addr <= RAM_END && len64 <= RAM_END - sec.addr) {
            proof {
                assert(!section_in_ram(s[i as int]));
                assert(first_oob(s) == i);
            }
            return Err(
                ElfError::OutOfBounds { addr: sec.addr, len: len64 },
            );
        }
        proof {
            assert(section_in_ram(s[i as int]));
            assert(first_oob(s) != i);
        }
        i = i + 1;
    }
    Ok(())
}

/// `entry` falls inside one of the sections.
pub open spec fn entry_in_sections(s: Seq<SecModel>, entry: int) -> bool {
    exists|i: int| 0 <= i < s.len() && (#[trigger] s[i]).0 <= entry < sec_end(s[i])
}

/// Whether the entry address falls inside one of the executable sections.
pub fn entry_in_exec(exec: &Vec<DataSection>, entry: u64) -> (r: bool)
    ensures
        r == entry_in_sections(secs_view(exec@), entry as int),
{
    let ghost s = secs_view(exec@);
    let n: usize = exec.len();
    let mut i: usize = 0;
    while i < n
        invariant
            s == secs_view(exec@),
            n == exec@.len(),
            i <= n,
            forall|k: int|
                0 <= k < i ==> !((#[trigger] s[k]).0 <= entry as int && (entry as int) < sec_end(
                    s[k],
                )),
        decreases n - i,
    {
        let sec = &exec[i];
        if sec.addr <= entry && entry - sec.addr < sec.data.len() as u64 {
            assert(s[i as int].0 <= entry as int && (entry as int) < sec_end(s[i as int]));
            return true;
        }
        assert(!(s[i as int].0 <= entry as int && (entry as int) < sec_end(s[i as int])));
        i = i + 1;
    }
    false
}

} // verus!
