//! ROM construction: decoding the executable sections into an
//! address-indexed instruction table.
//!
//! Decoding is purely mechanical word extraction at natural alignment.
//! Non-contiguous executable ranges are each decoded independently and the
//! gaps between them are left unfilled — no instruction is ever
//! synthesised.  A range whose length is not a whole number of instruction
//! words is rejected rather than silently truncated.

use vstd::prelude::*;

use crate::bytes::{le32, read_u32};
use crate::error::ElfError;
use crate::payload::{collect_elf_payload, collect_spec};
use crate::sections::{secs_view, sections_bounded, DataSection, SecModel, INST_BYTES};

verus! {

/// One decoded instruction: its address and its word.
#[derive(Debug, Clone, Copy, PartialEq, Eq)]
pub struct RomInst {
    pub addr: u64,
    pub word: u32,
}

impl View for RomInst {
    type V = (int, int);

    open spec fn view(&self) -> (int, int) {
        (self.addr as int, self.word as int)
    }
}

/// The instruction memory image: the decoded instructions of the
/// executable sections, in ascending address order.
#[derive(Debug, Clone, PartialEq, Eq)]
pub struct Rom {
    pub insts: Vec<RomInst>,
}

/// The instructions of `v`, in order, as mathematical values.
pub open spec fn insts_view(v: Seq<RomInst>) -> Seq<(int, int)> {
    v.map_values(|x: RomInst| x@)
}

impl View for Rom {
    type V = Seq<(int, int)>;

    open spec fn view(&self) -> Seq<(int, int)> {
        insts_view(self.insts@)
    }
}

/// The instruction words of one section: one entry per aligned word,
/// addressed from the section's base.
pub open spec fn words_of(sec: SecModel) -> Seq<(int, int)> {
    Seq::new(
        ((sec.1.len() as int) / (INST_BYTES as int)) as nat,
        |k: int| (sec.0 + (INST_BYTES as int) * k, le32(sec.1, (INST_BYTES as int) * k)),
    )
}

/// The instructions of the first `n` sections, concatenated in order.
pub open spec fn rom_of(e: Seq<SecModel>, n: int) -> Seq<(int, int)>
    decreases n,
{
    if n <= 0 {
        Seq::empty()
    } else {
        rom_of(e, n - 1) + words_of(e[n - 1])
    }
}

/// Every section's length is a whole number of instruction words.
pub open spec fn sections_aligned(e: Seq<SecModel>) -> bool {
    forall|i: int| 0 <= i < e.len() ==> ((#[trigger] e[i]).1.len() as int) % (INST_BYTES as int) == 0
}

/// Index of the first section with a misaligned length, or the length of
/// the sequence when there is none.
pub open spec fn first_misaligned(e: Seq<SecModel>) -> int
    decreases e.len(),
{
    if e.len() == 0 {
        0
    } else if (e[0].1.len() as int) % (INST_BYTES as int) == 0 {
        1 + first_misaligned(e.drop_first())
    } else {
        0
    }
}

/// `first_misaligned` points at the first misaligned section, and reaches
/// the end exactly when every section is aligned.
pub proof fn lemma_first_misaligned(e: Seq<SecModel>)
    ensures
        0 <= first_misaligned(e) <= e.len(),
        forall|i: int|
            0 <= i < first_misaligned(e) ==> ((#[trigger] e[i]).1.len() as int) % (INST_BYTES as int) == 0,
        first_misaligned(e) < e.len() ==> (e[first_misaligned(e)].1.len() as int) % (INST_BYTES as int)
            != 0,
        first_misaligned(e) == e.len() <==> sections_aligned(e),
    decreases e.len(),
{
    if e.len() != 0 && (e[0].1.len() as int) % (INST_BYTES as int) == 0 {
        lemma_first_misaligned(e.drop_first());
        let f = first_misaligned(e);
        assert(f == 1 + first_misaligned(e.drop_first()));
        assert forall|i: int|
            0 <= i < f implies ((#[trigger] e[i]).1.len() as int) % (INST_BYTES as int) == 0 by {
            if i > 0 {
                assert(e.drop_first()[i - 1] == e[i]);
            }
        }
        if f < e.len() {
            assert(e.drop_first()[f - 1] == e[f]);
        }
        if f == e.len() {
            assert forall|i: int|
                0 <= i < e.len() implies ((#[trigger] e[i]).1.len() as int) % (INST_BYTES as int) == 0 by {}
        } else {
            assert(!sections_aligned(e));
        }
    }
}

/// What building the ROM from image `b` yields: the decoded instruction
/// table, or the error of the first stage that rejects the image.  A pure
/// function of the bytes.
pub open spec fn rom_spec(b: Seq<u8>) -> Result<Seq<(int, int)>, ElfError> {
    match collect_spec(b) {
        Err(e) => Err(e),
        Ok(p) => if !sections_aligned(p.1) {
            Err(
                ElfError::Misaligned {
                    addr: p.1[first_misaligned(p.1)].0 as u64,
                    len: p.1[first_misaligned(p.1)].1.len() as u64,
                },
            )
        } else {
            Ok(rom_of(p.1, p.1.len() as int))
        },
    }
}

/// The result of a ROM build, as a mathematical value.
pub open spec fn rom_result_view(r: Result<Rom, ElfError>) -> Result<Seq<(int, int)>, ElfError> {
    match r {
        Ok(rom) => Ok(rom@),
        Err(e) => Err(e),
    }
}

/// Decodes the validated executable sections into the instruction table;
/// fails with [`ElfError::Misaligned`], carrying the first offending
/// section's address and length, exactly when a section's length is not a
/// whole number of instruction words.
///
/// Words are taken at natural alignment relative to each section's base:
/// the instruction at index `k` of a section sits at `base + 4 * k`.  The
/// base address's own alignment is deliberately not constrained — only
/// the length rule is enforced, so a section whose base is unaligned
/// decodes into a table whose addresses carry that same offset.
pub fn build_rom(exec: &Vec<DataSection>) -> (r: Result<Rom, ElfError>)
    requires
        sections_bounded(secs_view(exec@)),
    ensures
        ({
            let e = secs_view(exec@);
            match r {
                Ok(rom) => sections_aligned(e) && rom@ == rom_of(e, e.len() as int),
                Err(err) => !sections_aligned(e) && err == (ElfError::Misaligned {
                    addr: e[first_misaligned(e)].0 as u64,
                    len: e[first_misaligned(e)].1.len() as u64,
                }),
            }
        }),
{
    let ghost e = secs_view(exec@);
    let mut insts: Vec<RomInst> = Vec::new();
    let n: usize = exec.len();
    let mut i: usize = 0;
    while i < n
        invariant
            e == secs_view(exec@),
            n == exec@.len(),
            i <= n,
            sections_bounded(e),
            forall|j: int| 0 <= j < i ==> ((#[trigger] e[j]).1.len() as int) % (INST_BYTES as int) == 0,
            insts_view(insts@) == rom_of(e, i as int),
        decreases n - i,
    {
        proof {
            lemma_first_misaligned(e);
        }
        let sec = &exec[i];
        let len: usize = sec.data.len();
        if len % INST_BYTES != 0 {
            proof {
                assert((e[i as int].1.len() as int) % (INST_BYTES as int) != 0);
                assert(first_misaligned(e) == i);
            }
            return Err(ElfError::Misaligned { addr: sec.addr, len: len as u64 });
        }
        let words: usize = len / INST_BYTES;
        let mut k: usize = 0;
        while k < words
            invariant
                e == secs_view(exec@),
                n == exec@.len(),
                i < n,
                sec@ == e[i as int],
                sections_bounded(e),
                len == sec.data@.len(),
                len % INST_BYTES == 0,
                words == len / INST_BYTES,
                k <= words,
                insts_view(insts@) == rom_of(e, i as int) + words_of(e[i as int]).take(k as int),
            decreases words - k,
        {
            let off: usize = INST_BYTES * k;
            let word: u32 = read_u32(&sec.data, off);
            proof {
                assert(0 <= e[i as int].0 && crate::sections::sec_end(e[i as int]) <= u64::MAX);
            }
            let inst = RomInst { addr: sec.addr + off as u64, word };
            assert(inst@ == words_of(e[i as int])[k as int]);
            let ghost prev = insts@;
            insts.push(inst);
            k = k + 1;
            proof {
                let target = rom_of(e, i as int) + words_of(e[i as int]).take(k as int);
                assert(e[i as int].1.len() == len);
                assert(words_of(e[i as int]).len() == words as int);
                assert(words_of(e[i as int]).take(k as int).len() == k as int);
                assert(prev.len() == insts_view(prev).len());
                assert(insts_view(prev).len() == rom_of(e, i as int).len() + (k - 1));
                assert(insts@.len() == target.len());
                assert forall|m: int| 0 <= m < insts@.len() implies insts_view(insts@)[m]
                    == target[m] by {
                    if m < prev.len() {
                        assert(insts@[m] == prev[m]);
                        assert(insts_view(prev)[m] == (rom_of(e, i as int) + words_of(
                            e[i as int],
                        ).take(k as int - 1))[m]);
                    } else {
                        assert(insts@[m] == inst);
                        assert(target[m] == words_of(e[i as int])[k as int - 1]);
                    }
                }
                assert(insts_view(insts@) =~= target);
            }
        }
        proof {
            assert(words_of(e[i as int]).take(words as int) =~= words_of(e[i as int]));
            assert(insts_view(insts@) =~= rom_of(e, i as int + 1));
        }
        i = i + 1;
    }
    proof {
        lemma_first_misaligned(e);
        assert(sections_aligned(e));
    }
    Ok(Rom { insts })
}

/// Loads the image held in `file` and builds its instruction ROM.  The
/// image passes the same gates as [`collect_elf_payload`]; on top of them
/// every executable section must be a whole number of instruction words.
///
/// The result is exactly [`rom_spec`] of the bytes.
pub fn elf2rom(file: &Vec<u8>) -> (r: Result<Rom, ElfError>)
    ensures
        rom_result_view(r) == rom_spec(file@),
{
    let payload = match collect_elf_payload(file) {
        Ok(p) => p,
        Err(e) => {
            return Err(e);
        },
    };
    build_rom(&payload.exe)
}

} // verus!
