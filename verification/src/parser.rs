//! Container parsing: header validation and loadable-segment extraction.
//!
//! The container is a 64-bit little-endian ELF image for the RISC-V machine.
//! Parsing validates the magic number, the word-size class and the machine
//! type, then walks the program-header table and copies every loadable
//! entry's bytes into a [`RawSegment`], in file order.  A segment whose
//! in-memory size exceeds its size in the file (uninitialised data) is
//! padded with zero bytes up to the declared in-memory size.

use vstd::prelude::*;

use crate::bytes::{le16, le32, le64, read_u16, read_u32, read_u64};
use crate::error::ElfError;
use crate::sections::{segs_view, RawSegment, SegModel};

verus! {

/// Size in bytes of the container header that parsing reads.
pub const HEADER_BYTES: usize = 64;

/// Size in bytes of one program-header table entry.
pub const PH_ENTRY_BYTES: usize = 56;

/// The machine-type field value for RISC-V.
pub const MACHINE_RISCV: u16 = 0xf3;

/// The header is well formed: magic number, 64-bit class, RISC-V machine
/// type, and the standard program-header entry size.
pub open spec fn header_ok(b: Seq<u8>) -> bool {
    &&& b.len() >= HEADER_BYTES
    &&& b[0] == 0x7f
    &&& b[1] == 0x45
    &&& b[2] == 0x4c
    &&& b[3] == 0x46
    &&& b[4] == 2
    &&& le16(b, 18) == MACHINE_RISCV
    &&& le16(b, 54) == PH_ENTRY_BYTES
}

/// The declared entry-point address.
pub open spec fn entry_of(b: Seq<u8>) -> int {
    le64(b, 24)
}

/// File offset of the program-header table.
pub open spec fn phoff_of(b: Seq<u8>) -> int {
    le64(b, 32)
}

/// Number of program-header table entries.
pub open spec fn phnum_of(b: Seq<u8>) -> int {
    le16(b, 56)
}

/// File offset of program-header entry `i`.
pub open spec fn ph_base(b: Seq<u8>, i: int) -> int {
    phoff_of(b) + PH_ENTRY_BYTES * i
}

/// The whole program-header table lies inside the container.
pub open spec fn table_fits(b: Seq<u8>) -> bool {
    phoff_of(b) + PH_ENTRY_BYTES * phnum_of(b) <= b.len()
}

pub open spec fn ph_type(b: Seq<u8>, i: int) -> int {
    le32(b, ph_base(b, i))
}

pub open spec fn ph_flags(b: Seq<u8>, i: int) -> int {
    le32(b, ph_base(b, i) + 4)
}

pub open spec fn ph_offset(b: Seq<u8>, i: int) -> int {
    le64(b, ph_base(b, i) + 8)
}

pub open spec fn ph_vaddr(b: Seq<u8>, i: int) -> int {
    le64(b, ph_base(b, i) + 16)
}

pub open spec fn ph_filesz(b: Seq<u8>, i: int) -> int {
    le64(b, ph_base(b, i) + 32)
}

pub open spec fn ph_memsz(b: Seq<u8>, i: int) -> int {
    le64(b, ph_base(b, i) + 40)
}

/// Entry `i` is a loadable segment.
pub open spec fn is_load(b: Seq<u8>, i: int) -> bool {
    ph_type(b, i) == 1
}

/// The sizes and offsets that loadable entry `i` declares are consistent:
/// its file range lies inside the container, its in-memory size covers its
/// file size, its address range fits the 64-bit address space, and its
/// in-memory size is addressable on this machine.
pub open spec fn seg_ok(b: Seq<u8>, i: int) -> bool {
    &&& ph_memsz(b, i) >= ph_filesz(b, i)
    &&& ph_offset(b, i) + ph_filesz(b, i) <= b.len()
    &&& ph_vaddr(b, i) + ph_memsz(b, i) <= u64::MAX
    &&& ph_memsz(b, i) <= usize::MAX
}

/// The program-header table and every loadable entry are consistent.
pub open spec fn segments_ok(b: Seq<u8>) -> bool {
    &&& table_fits(b)
    &&& forall|i: int| 0 <= i < phnum_of(b) && is_load(b, i) ==> seg_ok(b, i)
}

/// `n` zero bytes.
pub open spec fn zero_bytes(n: int) -> Seq<u8> {
    Seq::new(n as nat, |i: int| 0u8)
}

/// The bytes of loadable entry `i`: its file range, zero-padded to its
/// declared in-memory size.
pub open spec fn seg_data(b: Seq<u8>, i: int) -> Seq<u8> {
    b.subrange(ph_offset(b, i), ph_offset(b, i) + ph_filesz(b, i)) + zero_bytes(
        ph_memsz(b, i) - ph_filesz(b, i),
    )
}

/// The model of loadable entry `i`: address and permission flags
/// (readable, writable, executable) plus contents.
pub open spec fn seg_model(b: Seq<u8>, i: int) -> SegModel {
    (
        ph_vaddr(b, i),
        (ph_flags(b, i) / 4) % 2 == 1,
        (ph_flags(b, i) / 2) % 2 == 1,
        ph_flags(b, i) % 2 == 1,
        seg_data(b, i),
    )
}

/// The loadable segments among the first `n` program-header entries, in
/// file order.
pub open spec fn load_models(b: Seq<u8>, n: int) -> Seq<SegModel>
    decreases n,
{
    if n <= 0 {
        Seq::empty()
    } else if is_load(b, n - 1) {
        load_models(b, n - 1).push(seg_model(b, n - 1))
    } else {
        load_models(b, n - 1)
    }
}

/// Total number of bytes across the given loadable segments.
pub open spec fn total_seg_len(gs: Seq<SegModel>) -> int
    decreases gs.len(),
{
    if gs.len() == 0 {
        0
    } else {
        total_seg_len(gs.drop_last()) + gs.last().4.len()
    }
}

/// A copy of `file[off .. off + n]`.
fn copy_range(file: &Vec<u8>, off: usize, n: usize) -> (r: Vec<u8>)
    requires
        off + n <= file@.len(),
    ensures
        r@ == file@.subrange(off as int, off as int + n as int),
{
    let total: usize = file.len();
    let mut r: Vec<u8> = Vec::new();
    let mut j: usize = 0;
    while j < n
        invariant
            off + n <= total,
            total == file@.len(),
            j <= n,
            r@ == file@.subrange(off as int, off as int + j as int),
        decreases n - j,
    {
        r.push(file[off + j]);
        j = j + 1;
        assert(r@ =~= file@.subrange(off as int, off as int + j as int));
    }
    r
}

/// Appends `n` zero bytes to `v`.
fn append_zeros(v: &mut Vec<u8>, n: usize)
    ensures
        final(v)@ == old(v)@ + zero_bytes(n as int),
{
    let mut j: usize = 0;
    while j < n
        invariant
            j <= n,
            v@ == old(v)@ + zero_bytes(j as int),
        decreases n - j,
    {
        v.push(0u8);
        j = j + 1;
        assert(v@ =~= old(v)@ + zero_bytes(j as int));
    }
}

/// Validates the container header and extracts the loadable segments in
/// file order, together with the declared entry-point address.
///
/// Fails with [`ElfError::Format`] exactly when the header is malformed,
/// and with [`ElfError::Truncated`] exactly when the program-header table
/// or a loadable entry declares sizes the container cannot honour.
pub fn parse_elf(file: &Vec<u8>) -> (r: Result<(u64, Vec<RawSegment>), ElfError>)
    ensures
        r is Ok <==> header_ok(file@) && segments_ok(file@),
        r == Err::<(u64, Vec<RawSegment>), ElfError>(ElfError::Format) <==> !header_ok(file@),
        r is Err && header_ok(file@) ==> r == Err::<(u64, Vec<RawSegment>), ElfError>(
            ElfError::Truncated,
        ),
        r matches Ok((entry, segs)) ==> entry == entry_of(file@) && segs_view(segs@)
            == load_models(file@, phnum_of(file@)),
{
    let len: usize = file.len();
    if len < HEADER_BYTES {
        return Err(ElfError::Format);
    }
    if !(file[0] == 0x7f && file[1] == 0x45 && file[2] == 0x4c && file[3] == 0x46) {
        return Err(ElfError::Format);
    }
    if file[4] != 2 {
        return Err(ElfError::Format);
    }
    if read_u16(file, 18) != MACHINE_RISCV {
        return Err(ElfError::Format);
    }
    if read_u16(file, 54) as usize != PH_ENTRY_BYTES {
        return Err(ElfError::Format);
    }
    let entry: u64 = read_u64(file, 24);
    let phoff: u64 = read_u64(file, 32);
    let phnum: u16 = read_u16(file, 56);
    let len64: u64 = len as u64;
    let table_len: u64 = (PH_ENTRY_BYTES as u64) * (phnum as u64);
    if phoff > len64 || table_len > len64 - phoff {
        return Err(ElfError::Truncated);
    }
    assert(table_fits(file@));
    let mut segs: Vec<RawSegment> = Vec::new();
    let mut i: usize = 0;
    while i < phnum as usize
        invariant
            header_ok(file@),
            table_fits(file@),
            len == file@.len(),
            len64 == len as u64,
            phoff == phoff_of(file@),
            phnum == phnum_of(file@),
            i <= phnum,
            forall|j: int| 0 <= j < i && is_load(file@, j) ==> seg_ok(file@, j),
            segs_view(segs@) == load_models(file@, i as int),
        decreases phnum - i,
    {
        let base: usize = (phoff as usize) + PH_ENTRY_BYTES * i;
        assert(base == ph_base(file@, i as int));
        assert(base + PH_ENTRY_BYTES <= len);
        let ptype: u32 = read_u32(file, base);
        if ptype == 1 {
            let flags: u32 = read_u32(file, base + 4);
            let offset: u64 = read_u64(file, base + 8);
            let vaddr: u64 = read_u64(file, base + 16);
            let filesz: u64 = read_u64(file, base + 32);
            let memsz: u64 = read_u64(file, base + 40);
            let bad = memsz < filesz || offset > len64 || filesz > len64 - offset || vaddr
                > u64::MAX - memsz || memsz > usize::MAX as u64;
            if bad {
                assert(!seg_ok(file@, i as int));
                assert(is_load(file@, i as int));
                assert(!segments_ok(file@));
                return Err(ElfError::Truncated);
            }
            assert(seg_ok(file@, i as int));
            let mut data: Vec<u8> = copy_range(file, offset as usize, filesz as usize);
            append_zeros(&mut data, (memsz - filesz) as usize);
            assert(data@ =~= seg_data(file@, i as int));
            let seg = RawSegment {
                addr: vaddr,
                readable: (flags / 4) % 2 == 1,
                writable: (flags / 2) % 2 == 1,
                executable: flags % 2 == 1,
                data,
            };
            assert(seg@ == seg_model(file@, i as int));
            segs.push(seg);
            assert(segs_view(segs@) =~= load_models(file@, i as int + 1));
        } else {
            assert(!is_load(file@, i as int));
            assert(segs_view(segs@) =~= load_models(file@, i as int + 1));
        }
        i = i + 1;
    }
    Ok((entry, segs))
}

} // verus!
