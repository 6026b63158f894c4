//! The guarantees a successful load gives, stated and proved once over the
//! load model.

use vstd::prelude::*;

use crate::classify::{
    bucket_sel, bucket_tag, classify_model, classify_step, contains_sec, insert_sec,
    lemma_classify_none_persists, lemma_insert_rejects_overlap, lemma_insert_sec, ranges_overlap,
    sec_of,
};
use crate::error::ElfError;
use crate::parser::{
    load_models, ph_filesz, ph_memsz, phnum_of, seg_data, seg_model, seg_ok, segments_ok,
    total_seg_len,
};
use crate::payload::collect_spec;
use crate::sections::{
    sec_end, sections_bounded, sections_nonempty, sections_ordered, total_len, SecModel, SegModel,
};
use crate::validate::{all_in_ram, entry_in_sections};

verus! {

/// Every segment's address range is well placed in the 64-bit address
/// space.
pub open spec fn segs_bounded(gs: Seq<SegModel>) -> bool {
    forall|i: int|
        0 <= i < gs.len() ==> 0 <= (#[trigger] gs[i]).0 && gs[i].0 + gs[i].4.len() <= u64::MAX
}

/// The segments a consistent container declares all have well-placed
/// address ranges.
pub proof fn lemma_load_models_bounded(b: Seq<u8>, n: int)
    requires
        segments_ok(b),
        0 <= n <= phnum_of(b),
    ensures
        segs_bounded(load_models(b, n)),
    decreases n,
{
    if n > 0 {
        lemma_load_models_bounded(b, n - 1);
        if crate::parser::is_load(b, n - 1) {
            assert(seg_ok(b, n - 1));
            assert(seg_data(b, n - 1).len() == ph_memsz(b, n - 1)) by {
                assert(ph_memsz(b, n - 1) >= ph_filesz(b, n - 1));
            }
            let gs = load_models(b, n);
            let prev = load_models(b, n - 1);
            assert forall|i: int|
                0 <= i < gs.len() implies 0 <= (#[trigger] gs[i]).0 && gs[i].0 + gs[i].4.len()
                <= u64::MAX by {
                if i < prev.len() {
                    assert(gs[i] == prev[i]);
                } else {
                    assert(gs[i] == seg_model(b, n - 1));
                }
            }
        }
    }
}

/// What one classification step preserves: bucket shape, address bounds,
/// and the running byte total.
proof fn lemma_classify_step(
    acc: (Seq<SecModel>, Seq<SecModel>, Seq<SecModel>),
    g: SegModel,
)
    requires
        sections_ordered(acc.0) && sections_ordered(acc.1) && sections_ordered(acc.2),
        sections_nonempty(acc.0) && sections_nonempty(acc.1) && sections_nonempty(acc.2),
        sections_bounded(acc.0) && sections_bounded(acc.1) && sections_bounded(acc.2),
        0 <= g.0 && g.0 + g.4.len() <= u64::MAX,
    ensures
        classify_step(acc, g) matches Some(out) ==> {
            &&& sections_ordered(out.0) && sections_ordered(out.1) && sections_ordered(out.2)
            &&& sections_nonempty(out.0) && sections_nonempty(out.1) && sections_nonempty(out.2)
            &&& sections_bounded(out.0) && sections_bounded(out.1) && sections_bounded(out.2)
            &&& total_len(out.0) + total_len(out.1) + total_len(out.2) == total_len(acc.0)
                + total_len(acc.1) + total_len(acc.2) + g.4.len()
        },
{
    let sec = (g.0, g.4);
    if g.4.len() == 0 {
    } else {
        let bucket = if g.2 {
            acc.1
        } else if g.3 {
            acc.0
        } else {
            acc.2
        };
        lemma_insert_sec(bucket, sec);
        if insert_sec(bucket, sec) is Some {
            let t = insert_sec(bucket, sec)->Some_0;
            assert(sections_bounded(t)) by {
                assert forall|k: int|
                    0 <= k < t.len() implies 0 <= (#[trigger] t[k]).0 && sec_end(t[k])
                    <= u64::MAX by {
                    if t[k] != sec {
                        let i = choose|i: int| 0 <= i < bucket.len() && bucket[i] == t[k];
                        assert(0 <= bucket[i].0 && sec_end(bucket[i]) <= u64::MAX);
                    }
                }
            }
        }
    }
}

/// What classification guarantees of its buckets: each is sorted,
/// non-overlapping, free of empty sections, well placed in the address
/// space, and together they hold exactly the classified segments' bytes.
pub proof fn lemma_classify_model_invariants(gs: Seq<SegModel>, n: int)
    requires
        segs_bounded(gs),
        0 <= n <= gs.len(),
    ensures
        classify_model(gs, n) matches Some(out) ==> {
            &&& sections_ordered(out.0) && sections_ordered(out.1) && sections_ordered(out.2)
            &&& sections_nonempty(out.0) && sections_nonempty(out.1) && sections_nonempty(out.2)
            &&& sections_bounded(out.0) && sections_bounded(out.1) && sections_bounded(out.2)
            &&& total_len(out.0) + total_len(out.1) + total_len(out.2) == total_seg_len(
                gs.take(n),
            )
        },
    decreases n,
{
    if n > 0 {
        lemma_classify_model_invariants(gs, n - 1);
        if classify_model(gs, n - 1) is Some {
            let acc = classify_model(gs, n - 1)->Some_0;
            lemma_classify_step(acc, gs[n - 1]);
            assert(gs.take(n).drop_last() =~= gs.take(n - 1));
            assert(gs.take(n).last() == gs[n - 1]);
        }
    }
}

/// Every non-empty classified segment ends up as a section of its
/// bucket.
pub proof fn lemma_classify_keeps(gs: Seq<SegModel>, n: int, k: int)
    requires
        segs_bounded(gs),
        0 <= k < n <= gs.len(),
        gs[k].4.len() > 0,
        classify_model(gs, n) is Some,
    ensures
        contains_sec(bucket_sel(classify_model(gs, n)->Some_0, gs[k]), sec_of(gs[k])),
    decreases n,
{
    let acc = classify_model(gs, n - 1)->Some_0;
    let out = classify_model(gs, n)->Some_0;
    let g = gs[n - 1];
    lemma_classify_model_invariants(gs, n - 1);
    if k == n - 1 {
        lemma_insert_sec(bucket_sel(acc, g), sec_of(g));
    } else {
        lemma_classify_keeps(gs, n - 1, k);
        if g.4.len() > 0 {
            lemma_insert_sec(bucket_sel(acc, g), sec_of(g));
            if bucket_tag(g) == bucket_tag(gs[k]) {
                let i = choose|i: int|
                    0 <= i < bucket_sel(acc, gs[k]).len() && bucket_sel(acc, gs[k])[i] == sec_of(
                        gs[k],
                    );
                assert(contains_sec(bucket_sel(out, gs[k]), bucket_sel(acc, gs[k])[i]));
            }
        }
    }
}

/// Two non-empty segments that route to the same bucket and overlap make
/// classification fail, however many segments surround them.
pub proof fn lemma_same_bucket_overlap_rejected(gs: Seq<SegModel>, n: int, k1: int, k2: int)
    requires
        segs_bounded(gs),
        0 <= k1 < k2 < n <= gs.len(),
        gs[k1].4.len() > 0,
        gs[k2].4.len() > 0,
        bucket_tag(gs[k1]) == bucket_tag(gs[k2]),
        ranges_overlap(sec_of(gs[k1]), sec_of(gs[k2])),
    ensures
        classify_model(gs, n) is None,
{
    if classify_model(gs, k2) is None {
        lemma_classify_none_persists(gs, k2, n);
    } else {
        let acc = classify_model(gs, k2)->Some_0;
        lemma_classify_keeps(gs, k2, k1);
        lemma_classify_model_invariants(gs, k2);
        let bucket = bucket_sel(acc, gs[k2]);
        assert(bucket == bucket_sel(acc, gs[k1]));
        let i = choose|i: int| 0 <= i < bucket.len() && bucket[i] == sec_of(gs[k1]);
        lemma_insert_rejects_overlap(bucket, sec_of(gs[k2]), i);
        assert(classify_model(gs, k2 + 1) is None);
        lemma_classify_none_persists(gs, k2 + 1, n);
    }
}

/// A writable loadable segment outside the RAM window never loads: the
/// container is rejected, and whenever classification itself goes
/// through, the error is OutOfBounds.
pub proof fn lemma_misplaced_writable_rejected(b: Seq<u8>, k: int)
    requires
        crate::parser::header_ok(b),
        segments_ok(b),
        0 <= k < load_models(b, phnum_of(b)).len(),
        load_models(b, phnum_of(b))[k].2,
        load_models(b, phnum_of(b))[k].4.len() > 0,
        !crate::sections::section_in_ram(sec_of(load_models(b, phnum_of(b))[k])),
    ensures
        collect_spec(b) is Err,
        classify_model(load_models(b, phnum_of(b)), load_models(b, phnum_of(b)).len() as int)
            is Some ==> collect_spec(b) matches Err(ElfError::OutOfBounds { .. }),
{
    let gs = load_models(b, phnum_of(b));
    lemma_load_models_bounded(b, phnum_of(b));
    if classify_model(gs, gs.len() as int) is Some {
        let out = classify_model(gs, gs.len() as int)->Some_0;
        lemma_classify_keeps(gs, gs.len() as int, k);
        let j = choose|j: int| 0 <= j < out.1.len() && out.1[j] == sec_of(gs[k]);
        assert(!crate::sections::section_in_ram(out.1[j]));
        assert(!all_in_ram(out.1));
    }
}

/// Two loadable segments that classify into the same bucket and overlap
/// are never merged or truncated: the load fails with Overlap.
pub proof fn lemma_overlap_never_merged(b: Seq<u8>, k1: int, k2: int)
    requires
        crate::parser::header_ok(b),
        segments_ok(b),
        0 <= k1 < k2 < load_models(b, phnum_of(b)).len(),
        load_models(b, phnum_of(b))[k1].4.len() > 0,
        load_models(b, phnum_of(b))[k2].4.len() > 0,
        bucket_tag(load_models(b, phnum_of(b))[k1]) == bucket_tag(load_models(b, phnum_of(b))[k2]),
        ranges_overlap(sec_of(load_models(b, phnum_of(b))[k1]), sec_of(load_models(b, phnum_of(b))[k2])),
    ensures
        collect_spec(b) == Err::<crate::payload::PayloadModel, ElfError>(ElfError::Overlap),
{
    let gs = load_models(b, phnum_of(b));
    lemma_load_models_bounded(b, phnum_of(b));
    lemma_same_bucket_overlap_rejected(gs, gs.len() as int, k1, k2);
}

/// No segment bytes are dropped or duplicated: on a successful load the
/// three buckets together hold exactly as many bytes as the loadable
/// segments of the container declare.
pub proof fn lemma_no_bytes_lost(b: Seq<u8>)
    ensures
        collect_spec(b) matches Ok(p) ==> total_len(p.1) + total_len(p.2) + total_len(p.3)
            == total_seg_len(load_models(b, phnum_of(b))),
{
    if collect_spec(b) is Ok {
        let gs = load_models(b, phnum_of(b));
        lemma_load_models_bounded(b, phnum_of(b));
        lemma_classify_model_invariants(gs, gs.len() as int);
        assert(gs.take(gs.len() as int) =~= gs);
    }
}

/// Every bucket of a successful load is strictly ascending by address,
/// pairwise non-overlapping, free of empty sections, and well placed in
/// the 64-bit address space.
pub proof fn lemma_buckets_well_formed(b: Seq<u8>)
    ensures
        collect_spec(b) matches Ok(p) ==> {
            &&& sections_ordered(p.1) && sections_ordered(p.2) && sections_ordered(p.3)
            &&& sections_nonempty(p.1) && sections_nonempty(p.2) && sections_nonempty(p.3)
            &&& sections_bounded(p.1) && sections_bounded(p.2) && sections_bounded(p.3)
        },
{
    if collect_spec(b) is Ok {
        let gs = load_models(b, phnum_of(b));
        lemma_load_models_bounded(b, phnum_of(b));
        lemma_classify_model_invariants(gs, gs.len() as int);
    }
}

/// In a sorted bucket of non-empty sections the base addresses ascend
/// strictly.
pub proof fn lemma_addresses_strictly_ascend(s: Seq<SecModel>)
    requires
        sections_ordered(s),
        sections_nonempty(s),
    ensures
        forall|i: int, j: int| 0 <= i < j < s.len() ==> (#[trigger] s[i]).0 < (#[trigger] s[j]).0,
{
    assert forall|i: int, j: int|
        0 <= i < j < s.len() implies (#[trigger] s[i]).0 < (#[trigger] s[j]).0 by {
        assert(sec_end(s[i]) <= s[j].0);
        assert(s[i].1.len() > 0);
    }
}

/// Every read-write section of a successful load lies inside the RAM
/// window.
pub proof fn lemma_rw_inside_ram(b: Seq<u8>)
    ensures
        collect_spec(b) matches Ok(p) ==> all_in_ram(p.2),
{
}

/// The entry point of a successful load falls inside an executable
/// section.
pub proof fn lemma_entry_point_resolves(b: Seq<u8>)
    ensures
        collect_spec(b) matches Ok(p) ==> entry_in_sections(p.1, p.0),
{
}

/// Decoding sorted, non-empty executable sections yields instructions at
/// strictly ascending addresses, each inside its section's range.
proof fn lemma_rom_of_ascends(e: Seq<SecModel>, n: int)
    requires
        sections_ordered(e),
        sections_nonempty(e),
        0 <= n <= e.len(),
    ensures
        forall|i: int, j: int|
            0 <= i < j < crate::rom::rom_of(e, n).len() ==> (#[trigger] crate::rom::rom_of(
                e,
                n,
            )[i]).0 < (#[trigger] crate::rom::rom_of(e, n)[j]).0,
        forall|i: int|
            0 <= i < crate::rom::rom_of(e, n).len() ==> n > 0 && (#[trigger] crate::rom::rom_of(
                e,
                n,
            )[i]).0 < sec_end(e[n - 1]),
    decreases n,
{
    if n > 0 {
        lemma_rom_of_ascends(e, n - 1);
        let t = crate::rom::rom_of(e, n - 1);
        let w = crate::rom::words_of(e[n - 1]);
        let all = crate::rom::rom_of(e, n);
        assert(all == t + w);
        assert forall|k: int| 0 <= k < w.len() implies e[n - 1].0 <= (#[trigger] w[k]).0
            && w[k].0 < sec_end(e[n - 1]) by {
            assert(w[k].0 == e[n - 1].0 + (crate::sections::INST_BYTES as int) * k);
            assert((crate::sections::INST_BYTES as int) * k < e[n - 1].1.len());
        }
        assert forall|i: int|
            0 <= i < all.len() implies (#[trigger] all[i]).0 < sec_end(e[n - 1]) by {
            if i < t.len() {
                assert(all[i] == t[i]);
                assert(t[i].0 < sec_end(e[n - 2]));
                assert(sec_end(e[n - 2]) <= e[n - 1].0);
                assert(e[n - 1].0 <= sec_end(e[n - 1]));
            } else {
                assert(all[i] == w[i - t.len()]);
            }
        }
        assert forall|i: int, j: int|
            0 <= i < j < all.len() implies (#[trigger] all[i]).0 < (#[trigger] all[j]).0 by {
            if j < t.len() {
                assert(all[i] == t[i] && all[j] == t[j]);
            } else if i >= t.len() {
                assert(all[i] == w[i - t.len()] && all[j] == w[j - t.len()]);
                assert(w[i - t.len()].0 == e[n - 1].0 + (crate::sections::INST_BYTES as int) * (i
                    - t.len()));
                assert(w[j - t.len()].0 == e[n - 1].0 + (crate::sections::INST_BYTES as int) * (j
                    - t.len()));
            } else {
                assert(all[i] == t[i] && all[j] == w[j - t.len()]);
                assert(t[i].0 < sec_end(e[n - 2]));
                assert(sec_end(e[n - 2]) <= e[n - 1].0);
                assert(e[n - 1].0 <= w[j - t.len()].0);
            }
        }
    }
}

/// The instruction table of a successful ROM build is strictly ascending
/// by address: it is an address-indexed table with no duplicate entries.
pub proof fn lemma_rom_addresses_ascend(b: Seq<u8>)
    ensures
        crate::rom::rom_spec(b) matches Ok(t) ==> forall|i: int, j: int|
            0 <= i < j < t.len() ==> (#[trigger] t[i]).0 < (#[trigger] t[j]).0,
{
    if crate::rom::rom_spec(b) is Ok {
        let p = collect_spec(b)->Ok_0;
        lemma_buckets_well_formed(b);
        lemma_rom_of_ascends(p.1, p.1.len() as int);
    }
}

/// ROM construction is deterministic: two builds from the same image
/// yield identical instruction tables.
pub proof fn lemma_rom_deterministic(
    b: Seq<u8>,
    r1: Result<Seq<(int, int)>, crate::error::ElfError>,
    r2: Result<Seq<(int, int)>, crate::error::ElfError>,
)
    requires
        r1 == crate::rom::rom_spec(b),
        r2 == crate::rom::rom_spec(b),
    ensures
        r1 == r2,
{
}

/// Loading is deterministic: two loads of the same image yield identical
/// results, byte for byte.
pub proof fn lemma_load_deterministic(
    b: Seq<u8>,
    r1: Result<crate::payload::PayloadModel, crate::error::ElfError>,
    r2: Result<crate::payload::PayloadModel, crate::error::ElfError>,
)
    requires
        r1 == collect_spec(b),
        r2 == collect_spec(b),
    ensures
        r1 == r2,
{
}

} // verus!
