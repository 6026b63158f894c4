use zisk_core::error::ElfError;
use zisk_core::payload::collect_elf_payload;
use zisk_core::rom::elf2rom;
use zisk_core::sections::{RAM_BASE, RAM_END};

struct SegSpec {
    vaddr: u64,
    flags: u32,
    file_bytes: Vec<u8>,
    memsz: u64,
}

fn w16(out: &mut Vec<u8>, off: usize, v: u16) {
    out[off] = (v & 0xff) as u8;
    out[off + 1] = (v >> 8) as u8;
}

fn w32(out: &mut Vec<u8>, off: usize, v: u32) {
    w16(out, off, (v & 0xffff) as u16);
    w16(out, off + 2, (v >> 16) as u16);
}

fn w64(out: &mut Vec<u8>, off: usize, v: u64) {
    w32(out, off, (v & 0xffff_ffff) as u32);
    w32(out, off + 4, (v >> 32) as u32);
}

/// Builds a minimal 64-bit little-endian RISC-V ELF image with one
/// loadable program header per segment description.
fn build_elf(entry: u64, segs: &[SegSpec]) -> Vec<u8> {
    let phnum = segs.len();
    let mut data_off = 64 + 56 * phnum;
    let mut out = vec![0u8; data_off];
    out[0] = 0x7f;
    out[1] = b'E';
    out[2] = b'L';
    out[3] = b'F';
    out[4] = 2; // 64-bit class
    out[5] = 1; // little endian
    w16(&mut out, 18, 0xf3); // RISC-V machine type
    w64(&mut out, 24, entry);
    w64(&mut out, 32, 64); // program-header table offset
    w16(&mut out, 54, 56); // program-header entry size
    w16(&mut out, 56, phnum as u16);
    for (i, s) in segs.iter().enumerate() {
        let base = 64 + 56 * i;
        w32(&mut out, base, 1); // loadable
        w32(&mut out, base + 4, s.flags);
        w64(&mut out, base + 8, data_off as u64);
        w64(&mut out, base + 16, s.vaddr);
        w64(&mut out, base + 32, s.file_bytes.len() as u64);
        w64(&mut out, base + 40, s.memsz);
        data_off += s.file_bytes.len();
    }
    for s in segs {
        out.extend(s.file_bytes.iter().copied());
    }
    out
}

fn seg(vaddr: u64, flags: u32, file_bytes: Vec<u8>) -> SegSpec {
    let memsz = file_bytes.len() as u64;
    SegSpec { vaddr, flags, file_bytes, memsz }
}

/// A well-formed image: one executable segment, one writable segment in
/// RAM, one read-only segment.
fn good_elf() -> Vec<u8> {
    build_elf(
        0x1000,
        &[
            seg(0x1000, 5, vec![0x13, 0x00, 0x00, 0x00, 0x93, 0x08, 0x60, 0x00]),
            seg(RAM_BASE, 6, vec![1, 2, 3, 4]),
            seg(0x2000, 4, vec![9, 9]),
        ],
    )
}

#[test]
fn test_elf_with_bss_outside_ram() {
    // Create a fake ELF file path (this would be an ELF with BSS at wrong address)
    // For demonstration, we'll use a non-existent file to show the error flow

    // This test is mainly to document the expected behavior
    // In a real scenario, you'd have an ELF with .bss or .data sections
    // placed outside the RAM region (0xa0000000 - 0xc0000000)

    println!("This test documents that ELF files with writable sections");
    println!("outside RAM boundaries should be rejected with a clear error message.");
    println!("RAM boundaries: 0xa0000000 - 0xc0000000");
}

#[test]
fn test_good_elf_passes() {
    let bytes = good_elf();
    match collect_elf_payload(&bytes) {
        Ok(payload) => {
            // Should have some executable sections
            assert!(!payload.exe.is_empty(), "Should have executable sections");

            // Should have read-write sections (data and bss in RAM)
            assert!(!payload.rw.is_empty(), "Should have read-write sections in RAM");

            // Entry point should be valid
            assert!(payload.entry_point != 0, "Should have valid entry point");

            println!("✓ ELF with properly placed sections loads successfully");
        }
        Err(e) => {
            panic!("Good ELF should not fail: {}", e.describe());
        }
    }
}

#[test]
fn empty_container_yields_entry_point_error() {
    // A degenerate container with no loadable segments is pinned to fail:
    // its entry point (zero) resolves inside no executable section.
    let bytes = build_elf(0, &[]);
    let r = collect_elf_payload(&bytes);
    assert_eq!(r, Err(ElfError::EntryPoint { entry: 0 }));
    let rom = elf2rom(&bytes);
    assert_eq!(rom, Err(ElfError::EntryPoint { entry: 0 }));
}

#[test]
fn writable_segment_below_ram_base_rejected() {
    let bytes = build_elf(
        0x1000,
        &[
            seg(0x1000, 5, vec![0; 4]),
            seg(0x8000_0000, 6, vec![1, 2, 3, 4]),
        ],
    );
    let r = collect_elf_payload(&bytes);
    assert_eq!(r, Err(ElfError::OutOfBounds { addr: 0x8000_0000, len: 4 }));
}

#[test]
fn writable_segment_past_ram_end_rejected() {
    let addr = RAM_END - 2;
    let bytes = build_elf(
        0x1000,
        &[seg(0x1000, 5, vec![0; 4]), seg(addr, 6, vec![1, 2, 3, 4])],
    );
    let r = collect_elf_payload(&bytes);
    assert_eq!(r, Err(ElfError::OutOfBounds { addr, len: 4 }));
}

#[test]
fn overlapping_segments_same_bucket_rejected() {
    // Two writable segments with intersecting ranges must fail rather
    // than be silently merged.
    let bytes = build_elf(
        0x1000,
        &[
            seg(0x1000, 5, vec![0; 4]),
            seg(RAM_BASE, 6, vec![0; 8]),
            seg(RAM_BASE + 4, 6, vec![0; 8]),
        ],
    );
    let r = collect_elf_payload(&bytes);
    assert_eq!(r, Err(ElfError::Overlap));
}

#[test]
fn equal_addresses_same_bucket_rejected() {
    let bytes = build_elf(
        0x1000,
        &[
            seg(0x1000, 5, vec![0; 4]),
            seg(RAM_BASE, 6, vec![0; 4]),
            seg(RAM_BASE, 6, vec![0; 4]),
        ],
    );
    assert_eq!(collect_elf_payload(&bytes), Err(ElfError::Overlap));
}

#[test]
fn bucket_totals_conserve_bytes() {
    // Exec 8 + rw 4 + ro 2 bytes in, the same total out.
    let bytes = good_elf();
    let payload = collect_elf_payload(&bytes).unwrap();
    let total_exe: usize = payload.exe.iter().map(|s| s.data.len()).sum();
    let total_rw: usize = payload.rw.iter().map(|s| s.data.len()).sum();
    let total_ro: usize = payload.ro.iter().map(|s| s.data.len()).sum();
    assert_eq!(total_exe, 8);
    assert_eq!(total_rw, 4);
    assert_eq!(total_ro, 2);
    assert_eq!(total_exe + total_rw + total_ro, 14);
}

#[test]
fn buckets_sorted_and_disjoint() {
    // Segments arrive in descending address order; each bucket must come
    // out strictly ascending and non-overlapping.
    let bytes = build_elf(
        0x3000,
        &[
            seg(0x3000, 5, vec![0; 8]),
            seg(0x1000, 5, vec![0; 8]),
            seg(RAM_BASE + 0x100, 6, vec![0; 4]),
            seg(RAM_BASE, 6, vec![0; 4]),
        ],
    );
    let payload = collect_elf_payload(&bytes).unwrap();
    assert_eq!(payload.exe.len(), 2);
    assert_eq!(payload.exe[0].addr, 0x1000);
    assert_eq!(payload.exe[1].addr, 0x3000);
    assert_eq!(payload.rw[0].addr, RAM_BASE);
    assert_eq!(payload.rw[1].addr, RAM_BASE + 0x100);
    for bucket in [&payload.exe, &payload.rw, &payload.ro] {
        for pair in bucket.windows(2) {
            let end = pair[0].addr + pair[0].data.len() as u64;
            assert!(end <= pair[1].addr);
        }
    }
}

#[test]
fn write_takes_precedence_over_executable() {
    // A segment that is both writable and executable is data for layout
    // purposes: it lands in the read-write bucket.
    let bytes = build_elf(
        0x1000,
        &[seg(0x1000, 5, vec![0; 4]), seg(RAM_BASE, 7, vec![0; 4])],
    );
    let payload = collect_elf_payload(&bytes).unwrap();
    assert_eq!(payload.exe.len(), 1);
    assert_eq!(payload.rw.len(), 1);
    assert_eq!(payload.rw[0].addr, RAM_BASE);
}

#[test]
fn zero_length_segment_dropped() {
    let bytes = build_elf(
        0x1000,
        &[
            seg(0x1000, 5, vec![0; 4]),
            SegSpec { vaddr: 0x9000, flags: 6, file_bytes: vec![], memsz: 0 },
        ],
    );
    let payload = collect_elf_payload(&bytes).unwrap();
    assert_eq!(payload.exe.len(), 1);
    assert!(payload.rw.is_empty());
    assert!(payload.ro.is_empty());
}

#[test]
fn bss_segment_zero_filled() {
    // A segment whose in-memory size exceeds its file size is padded with
    // zeroes up to the declared in-memory size.
    let bytes = build_elf(
        0x1000,
        &[
            seg(0x1000, 5, vec![0; 4]),
            SegSpec { vaddr: RAM_BASE, flags: 6, file_bytes: vec![7, 8], memsz: 8 },
        ],
    );
    let payload = collect_elf_payload(&bytes).unwrap();
    assert_eq!(payload.rw.len(), 1);
    assert_eq!(payload.rw[0].data, vec![7, 8, 0, 0, 0, 0, 0, 0]);
}

#[test]
fn entry_outside_executable_rejected() {
    let bytes = build_elf(
        0x4000,
        &[seg(0x1000, 5, vec![0; 4]), seg(RAM_BASE, 6, vec![0; 4])],
    );
    assert_eq!(
        collect_elf_payload(&bytes),
        Err(ElfError::EntryPoint { entry: 0x4000 })
    );
}

#[test]
fn entry_at_last_byte_accepted() {
    let bytes = build_elf(0x1007, &[seg(0x1000, 5, vec![0; 8])]);
    let payload = collect_elf_payload(&bytes).unwrap();
    assert_eq!(payload.entry_point, 0x1007);
}

#[test]
fn bad_magic_rejected() {
    let mut bytes = good_elf();
    bytes[1] = b'X';
    assert_eq!(collect_elf_payload(&bytes), Err(ElfError::Format));
}

#[test]
fn wrong_class_rejected() {
    let mut bytes = good_elf();
    bytes[4] = 1; // 32-bit class
    assert_eq!(collect_elf_payload(&bytes), Err(ElfError::Format));
}

#[test]
fn wrong_machine_rejected() {
    let mut bytes = good_elf();
    bytes[18] = 0x3e;
    assert_eq!(collect_elf_payload(&bytes), Err(ElfError::Format));
}

#[test]
fn short_buffer_rejected() {
    let bytes = vec![0x7f, b'E', b'L', b'F'];
    assert_eq!(collect_elf_payload(&bytes), Err(ElfError::Format));
}

#[test]
fn truncated_segment_rejected() {
    // The header declares more file bytes for the segment than the
    // container holds.
    let mut bytes = build_elf(0x1000, &[seg(0x1000, 5, vec![0; 4])]);
    let total = bytes.len() as u64;
    w64(&mut bytes, 64 + 32, total); // file size now runs past the end
    assert_eq!(collect_elf_payload(&bytes), Err(ElfError::Truncated));
}

#[test]
fn memsz_smaller_than_filesz_rejected() {
    let mut bytes = build_elf(0x1000, &[seg(0x1000, 5, vec![0; 4])]);
    w64(&mut bytes, 64 + 40, 2); // in-memory size below the file size
    assert_eq!(collect_elf_payload(&bytes), Err(ElfError::Truncated));
}

#[test]
fn ph_table_past_end_rejected() {
    let mut bytes = good_elf();
    w16(&mut bytes, 56, 1000); // far more entries than the file holds
    assert_eq!(collect_elf_payload(&bytes), Err(ElfError::Truncated));
}

#[test]
fn rom_decodes_little_endian_words() {
    let bytes = good_elf();
    let rom = elf2rom(&bytes).unwrap();
    assert_eq!(rom.insts.len(), 2);
    assert_eq!(rom.insts[0].addr, 0x1000);
    assert_eq!(rom.insts[0].word, 0x0000_0013);
    assert_eq!(rom.insts[1].addr, 0x1004);
    assert_eq!(rom.insts[1].word, 0x0060_0893);
}

#[test]
fn rom_ranges_decoded_independently() {
    // Two non-contiguous executable ranges: each is decoded on its own
    // and the gap is left unfilled - no instruction is synthesised.
    let bytes = build_elf(
        0x1000,
        &[
            seg(0x1000, 5, vec![1, 0, 0, 0, 2, 0, 0, 0]),
            seg(0x5000, 5, vec![3, 0, 0, 0]),
        ],
    );
    let rom = elf2rom(&bytes).unwrap();
    assert_eq!(rom.insts.len(), 3);
    assert_eq!(rom.insts[0].addr, 0x1000);
    assert_eq!(rom.insts[1].addr, 0x1004);
    assert_eq!(rom.insts[2].addr, 0x5000);
    assert_eq!(rom.insts[2].word, 3);
}

#[test]
fn rom_misaligned_section_rejected() {
    // A 6-byte executable range is not a whole number of words: rejected,
    // not truncated.
    let bytes = build_elf(0x1000, &[seg(0x1000, 5, vec![0; 6])]);
    assert_eq!(
        elf2rom(&bytes),
        Err(ElfError::Misaligned { addr: 0x1000, len: 6 })
    );
}

#[test]
fn loading_twice_is_identical() {
    let bytes = good_elf();
    let first = collect_elf_payload(&bytes).unwrap();
    let second = collect_elf_payload(&bytes).unwrap();
    assert_eq!(first, second);
    let rom_first = elf2rom(&bytes).unwrap();
    let rom_second = elf2rom(&bytes).unwrap();
    assert_eq!(rom_first, rom_second);
}

#[test]
fn error_descriptions_are_fixed_per_variant() {
    assert_eq!(ElfError::Format.describe(), "invalid container header");
    assert_eq!(ElfError::Truncated.describe(), "segment exceeds container bounds");
    assert_eq!(
        ElfError::OutOfBounds { addr: 1, len: 2 }.describe(),
        "writable segment outside the RAM window"
    );
    assert_eq!(ElfError::Overlap.describe(), "segments in one bucket overlap");
    assert_eq!(
        ElfError::EntryPoint { entry: 3 }.describe(),
        "entry point inside no executable segment"
    );
    assert_eq!(
        ElfError::Misaligned { addr: 4, len: 5 }.describe(),
        "executable segment length not a whole number of words"
    );
}
