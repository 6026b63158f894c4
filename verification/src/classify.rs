//! Segment classification: permission buckets, address ordering, overlap
//! rejection.
//!
//! Loadable segments are partitioned into three buckets.  Writability takes
//! precedence: a writable segment always lands in the read-write bucket,
//! even when it is also executable; a non-writable executable segment lands
//! in the executable bucket; everything else is read-only.  Zero-length
//! segments are dropped silently.  Each bucket is kept sorted ascending by
//! address, and a segment that would overlap one already in its bucket is a
//! hard failure.

use vstd::prelude::*;

use crate::error::ElfError;
use crate::sections::{
    sec_end, sections_nonempty, sections_ordered, secs_view, DataSection, RawSegment, SecModel,
    SegModel,
};

verus! {

/// The two address ranges intersect.
pub open spec fn ranges_overlap(a: SecModel, b: SecModel) -> bool {
    a.0 < sec_end(b) && b.0 < sec_end(a)
}

/// `x` occurs among the sections of `s`.
pub open spec fn contains_sec(s: Seq<SecModel>, x: SecModel) -> bool {
    exists|j: int| 0 <= j < s.len() && s[j] == x
}

/// How many leading sections of `s` end at or before address `a`.  In a
/// sorted bucket this is where a section starting at `a` belongs.
pub open spec fn lower_bound(s: Seq<SecModel>, a: int) -> int
    decreases s.len(),
{
    if s.len() == 0 {
        0
    } else if sec_end(s[0]) <= a {
        1 + lower_bound(s.drop_first(), a)
    } else {
        0
    }
}

/// `lower_bound` splits `s` at the first section that ends past `a`.
pub proof fn lemma_lower_bound(s: Seq<SecModel>, a: int)
    ensures
        0 <= lower_bound(s, a) <= s.len(),
        forall|i: int| 0 <= i < lower_bound(s, a) ==> sec_end(#[trigger] s[i]) <= a,
        lower_bound(s, a) < s.len() ==> sec_end(s[lower_bound(s, a)]) > a,
    decreases s.len(),
{
    if s.len() != 0 && sec_end(s[0]) <= a {
        lemma_lower_bound(s.drop_first(), a);
        let lb = lower_bound(s, a);
        assert(lb == 1 + lower_bound(s.drop_first(), a));
        assert forall|i: int| 0 <= i < lb implies sec_end(#[trigger] s[i]) <= a by {
            if i > 0 {
                assert(s.drop_first()[i - 1] == s[i]);
            }
        }
        if lb < s.len() {
            assert(s.drop_first()[lb - 1] == s[lb]);
        }
    }
}

/// Places `x` at its sorted position in `s`, or yields nothing when `x`
/// overlaps a section already there.
pub open spec fn insert_sec(s: Seq<SecModel>, x: SecModel) -> Option<Seq<SecModel>> {
    let j = lower_bound(s, x.0);
    if j < s.len() && s[j].0 < sec_end(x) {
        None
    } else {
        Some(s.insert(j, x))
    }
}

/// The shape of `s` with `x` placed at index `j`: everything before `j` is
/// untouched, everything after is shifted up by one.
pub open spec fn placed_at(s: Seq<SecModel>, t: Seq<SecModel>, x: SecModel, j: int) -> bool {
    &&& t.len() == s.len() + 1
    &&& (forall|i: int| 0 <= i < j ==> #[trigger] t[i] == s[i])
    &&& t[j] == x
    &&& (forall|i: int| j < i < t.len() ==> #[trigger] t[i] == s[i - 1])
}

/// Placing a section between its neighbours keeps the bucket sorted,
/// non-overlapping and free of empty sections.
proof fn lemma_placed_props(s: Seq<SecModel>, t: Seq<SecModel>, x: SecModel, j: int)
    requires
        sections_ordered(s),
        x.1.len() > 0,
        0 <= j <= s.len(),
        placed_at(s, t, x, j),
        forall|i: int| 0 <= i < j ==> sec_end(#[trigger] s[i]) <= x.0,
        j < s.len() ==> sec_end(x) <= s[j].0,
    ensures
        sections_ordered(t),
        forall|k: int|
            0 <= k < t.len() ==> #[trigger] t[k] == x || exists|i: int|
                0 <= i < s.len() && s[i] == t[k],
        sections_nonempty(s) ==> sections_nonempty(t),
        contains_sec(t, x),
        forall|i: int| 0 <= i < s.len() ==> contains_sec(t, #[trigger] s[i]),
{
    assert(t[j] == x);
    assert forall|i: int| 0 <= i < s.len() implies contains_sec(t, #[trigger] s[i]) by {
        if i < j {
            assert(t[i] == s[i]);
        } else {
            assert(t[i + 1] == s[i]);
        }
    }
    assert forall|k: int| 0 <= k < t.len() implies #[trigger] t[k] == x || exists|i: int|
        0 <= i < s.len() && s[i] == t[k] by {
        if k < j {
            assert(s[k] == t[k]);
        } else if k > j {
            assert(s[k - 1] == t[k]);
        }
    }
    assert forall|i1: int, i2: int| 0 <= i1 < i2 < t.len() implies sec_end(#[trigger] t[i1])
        <= (#[trigger] t[i2]).0 by {
        if i2 < j {
            assert(t[i1] == s[i1] && t[i2] == s[i2]);
        } else if i2 == j {
            assert(t[i1] == s[i1] && t[i2] == x);
            assert(sec_end(s[i1]) <= x.0);
        } else if i1 < j {
            assert(t[i1] == s[i1] && t[i2] == s[i2 - 1]);
            if i2 - 1 == i1 {
                assert(sec_end(s[i1]) <= x.0 && x.0 < sec_end(x) && sec_end(x) <= s[i1].0);
            }
        } else if i1 == j {
            assert(t[i1] == x && t[i2] == s[i2 - 1]);
            assert(sec_end(x) <= s[j].0);
            if i2 - 1 > j {
                assert(sec_end(s[j]) <= s[i2 - 1].0);
                assert(s[j].0 <= sec_end(s[j]));
            }
        } else {
            assert(t[i1] == s[i1 - 1] && t[i2] == s[i2 - 1]);
        }
    }
    if sections_nonempty(s) {
        assert forall|k: int| 0 <= k < t.len() implies (#[trigger] t[k]).1.len() > 0 by {
            if k < j {
                assert(t[k] == s[k]);
            } else if k > j {
                assert(t[k] == s[k - 1]);
            }
        }
    }
}

/// A successful insertion keeps the bucket sorted, non-overlapping and free
/// of empty sections, grows it by one, and adds the new section's bytes to
/// the total; a failed one pinpoints an overlapping section.
#[verifier::rlimit(50)]
pub proof fn lemma_insert_sec(s: Seq<SecModel>, x: SecModel)
    requires
        sections_ordered(s),
        x.1.len() > 0,
    ensures
        insert_sec(s, x) matches Some(t) ==> {
            &&& sections_ordered(t)
            &&& t.len() == s.len() + 1
            &&& crate::sections::total_len(t) == crate::sections::total_len(s) + x.1.len()
            &&& forall|k: int|
                0 <= k < t.len() ==> #[trigger] t[k] == x || exists|i: int|
                    0 <= i < s.len() && s[i] == t[k]
            &&& sections_nonempty(s) ==> sections_nonempty(t)
            &&& contains_sec(t, x)
            &&& forall|i: int| 0 <= i < s.len() ==> contains_sec(t, #[trigger] s[i])
        },
        insert_sec(s, x) is Some ==> forall|i: int|
            0 <= i < s.len() ==> !ranges_overlap(#[trigger] s[i], x),
        insert_sec(s, x) is None ==> exists|i: int|
            0 <= i < s.len() && ranges_overlap(#[trigger] s[i], x),
{
    let j = lower_bound(s, x.0);
    lemma_lower_bound(s, x.0);
    if j < s.len() && s[j].0 < sec_end(x) {
        assert(sec_end(s[j]) > x.0);
        assert(ranges_overlap(s[j], x));
    } else {
        let t = s.insert(j, x);
        s.insert_ensures(j, x);
        crate::sections::lemma_total_len_insert(s, j, x);
        assert forall|i: int| j < i < t.len() implies #[trigger] t[i] == s[i - 1] by {
            assert(t[(i - 1) + 1] == s[i - 1]);
        }
        assert(placed_at(s, t, x, j));
        lemma_placed_props(s, t, x, j);
        assert forall|i: int| 0 <= i < s.len() implies !ranges_overlap(#[trigger] s[i], x) by {
            if i < j {
                assert(sec_end(s[i]) <= x.0);
            } else {
                assert(sec_end(x) <= s[j].0);
                if i > j {
                    assert(sec_end(s[j]) <= s[i].0);
                    assert(s[j].0 <= sec_end(s[j]));
                }
            }
        }
    }
}

/// Inserting a section that overlaps one already in the sorted bucket
/// always fails.
pub proof fn lemma_insert_rejects_overlap(s: Seq<SecModel>, x: SecModel, i: int)
    requires
        sections_ordered(s),
        x.1.len() > 0,
        0 <= i < s.len(),
        ranges_overlap(s[i], x),
    ensures
        insert_sec(s, x) is None,
{
    lemma_insert_sec(s, x);
}

/// One classification step: route segment `g` to its bucket and insert it;
/// zero-length segments pass through without effect.
pub open spec fn classify_step(
    acc: (Seq<SecModel>, Seq<SecModel>, Seq<SecModel>),
    g: SegModel,
) -> Option<(Seq<SecModel>, Seq<SecModel>, Seq<SecModel>)> {
    let sec = (g.0, g.4);
    if g.4.len() == 0 {
        Some(acc)
    } else if g.2 {
        match insert_sec(acc.1, sec) {
            Some(w) => Some((acc.0, w, acc.2)),
            None => None,
        }
    } else if g.3 {
        match insert_sec(acc.0, sec) {
            Some(e) => Some((e, acc.1, acc.2)),
            None => None,
        }
    } else {
        match insert_sec(acc.2, sec) {
            Some(r) => Some((acc.0, acc.1, r)),
            None => None,
        }
    }
}

/// The section a raw segment contributes: its address and bytes.
pub open spec fn sec_of(g: SegModel) -> SecModel {
    (g.0, g.4)
}

/// Which bucket a segment is routed to, as a tag: the read-write bucket
/// for writable segments, the executable bucket for executable
/// non-writable ones, the read-only bucket otherwise.
pub open spec fn bucket_tag(g: SegModel) -> int {
    if g.2 {
        1
    } else if g.3 {
        0
    } else {
        2
    }
}

/// The bucket of `out` that segment `g` is routed to.
pub open spec fn bucket_sel(
    out: (Seq<SecModel>, Seq<SecModel>, Seq<SecModel>),
    g: SegModel,
) -> Seq<SecModel> {
    if g.2 {
        out.1
    } else if g.3 {
        out.0
    } else {
        out.2
    }
}

/// The three buckets (executable, read-write, read-only) after classifying
/// the first `n` segments, or nothing once an overlap has struck.
pub open spec fn classify_model(gs: Seq<SegModel>, n: int) -> Option<
    (Seq<SecModel>, Seq<SecModel>, Seq<SecModel>),
>
    decreases n,
{
    if n <= 0 {
        Some((Seq::empty(), Seq::empty(), Seq::empty()))
    } else {
        match classify_model(gs, n - 1) {
            None => None,
            Some(acc) => classify_step(acc, gs[n - 1]),
        }
    }
}

/// Once classification has failed, no further segment revives it.
pub proof fn lemma_classify_none_persists(gs: Seq<SegModel>, m: int, n: int)
    requires
        0 <= m <= n,
        classify_model(gs, m) is None,
    ensures
        classify_model(gs, n) is None,
    decreases n,
{
    if n > m {
        lemma_classify_none_persists(gs, m, n - 1);
    }
}

/// A fresh copy of the bytes in `v`.
fn clone_bytes(v: &Vec<u8>) -> (r: Vec<u8>)
    ensures
        r@ == v@,
{
    let n: usize = v.len();
    let mut r: Vec<u8> = Vec::new();
    let mut i: usize = 0;
    while i < n
        invariant
            n == v@.len(),
            i <= n,
            r@ == v@.subrange(0, i as int),
        decreases n - i,
    {
        r.push(v[i]);
        i = i + 1;
        assert(r@ =~= v@.subrange(0, i as int));
    }
    assert(r@ =~= v@);
    r
}

/// Inserts `sec` at its sorted position in `v`, or reports an overlap and
/// leaves `v` unchanged.
fn insert_section(v: &mut Vec<DataSection>, sec: DataSection) -> (r: Result<(), ElfError>)
    requires
        sections_ordered(secs_view(old(v)@)),
        sec.data@.len() > 0,
    ensures
        match insert_sec(secs_view(old(v)@), sec@) {
            Some(t) => r is Ok && secs_view(final(v)@) == t,
            None => r == Err::<(), ElfError>(ElfError::Overlap) && *final(v) == *old(v),
        },
{
    let ghost s = secs_view(v@);
    proof {
        lemma_lower_bound(s, sec@.0);
    }
    let mut j: usize = 0;
    while j < v.len() && v[j].addr <= sec.addr && (v[j].data.len() as u64) <= sec.addr - v[j].addr
        invariant
            s == secs_view(v@),
            j <= v@.len(),
            forall|i: int| 0 <= i < j ==> sec_end(#[trigger] s[i]) <= sec@.0,
            sec.data@.len() > 0,
        decreases v@.len() - j,
    {
        assert(sec_end(s[j as int]) <= sec@.0);
        j = j + 1;
    }
    proof {
        if j < v@.len() {
            assert(sec_end(s[j as int]) > sec@.0);
        }
        assert(j == lower_bound(s, sec@.0)) by {
            let lb = lower_bound(s, sec@.0);
            if j < lb {
                assert(sec_end(s[j as int]) <= sec@.0);
            }
            if lb < j {
                assert(sec_end(s[lb]) > sec@.0);
            }
        }
    }
    if j < v.len() {
        let next_addr = v[j].addr;
        if !(sec.addr <= next_addr && (sec.data.len() as u64) <= next_addr - sec.addr) {
            assert(s[j as int].0 < sec_end(sec@));
            return Err(ElfError::Overlap);
        }
        assert(!(s[j as int].0 < sec_end(sec@)));
    }
    let ghost pre = v@;
    let ghost gsec = sec@;
    let ghost secd = sec;
    v.insert(j, sec);
    proof {
        pre.insert_ensures(j as int, secd);
        secs_view(pre).insert_ensures(j as int, gsec);
        assert forall|i: int| 0 <= i < v@.len() implies secs_view(v@)[i] == secs_view(pre).insert(
            j as int,
            gsec,
        )[i] by {
            if i < j {
                assert(v@[i] == pre[i]);
            } else if i > j {
                assert(v@[i] == pre[i - 1]);
            }
        }
        assert(secs_view(v@) =~= secs_view(pre).insert(j as int, gsec));
    }
    Ok(())
}

/// Partitions raw segments into the executable, read-write and read-only
/// buckets, each sorted ascending by address; fails with
/// [`ElfError::Overlap`] exactly when two segments of one bucket overlap
/// under the write-takes-precedence policy.
pub fn classify_segments(segs: Vec<RawSegment>) -> (r: Result<
    (Vec<DataSection>, Vec<DataSection>, Vec<DataSection>),
    ElfError,
>)
    ensures
        match r {
            Ok((e, w, ro)) => classify_model(crate::sections::segs_view(segs@), segs@.len() as int)
                == Some((secs_view(e@), secs_view(w@), secs_view(ro@))),
            Err(err) => err == ElfError::Overlap && classify_model(
                crate::sections::segs_view(segs@),
                segs@.len() as int,
            ) is None,
        },
{
    let ghost gs = crate::sections::segs_view(segs@);
    let mut exec: Vec<DataSection> = Vec::new();
    let mut rw: Vec<DataSection> = Vec::new();
    let mut ro: Vec<DataSection> = Vec::new();
    let n: usize = segs.len();
    let mut idx: usize = 0;
    while idx < n
        invariant
            gs == crate::sections::segs_view(segs@),
            n == segs@.len(),
            idx <= n,
            classify_model(gs, idx as int) == Some(
                (secs_view(exec@), secs_view(rw@), secs_view(ro@)),
            ),
            sections_ordered(secs_view(exec@)),
            sections_ordered(secs_view(rw@)),
            sections_ordered(secs_view(ro@)),
        decreases n - idx,
    {
        let seg = &segs[idx];
        assert(seg@ == gs[idx as int]);
        if seg.data.len() == 0 {
            assert(classify_model(gs, idx as int + 1) == Some(
                (secs_view(exec@), secs_view(rw@), secs_view(ro@)),
            ));
        } else {
            let sec = DataSection { addr: seg.addr, data: clone_bytes(&seg.data) };
            assert(sec@ == (seg@.0, seg@.4));
            if seg.writable {
                proof {
                    lemma_insert_sec(secs_view(rw@), sec@);
                }
                let res = insert_section(&mut rw, sec);
                if res.is_err() {
                    proof {
                        assert(classify_model(gs, idx as int + 1) is None);
                        lemma_classify_none_persists(gs, idx as int + 1, n as int);
                    }
                    return Err(ElfError::Overlap);
                }
            } else if seg.executable {
                proof {
                    lemma_insert_sec(secs_view(exec@), sec@);
                }
                let res = insert_section(&mut exec, sec);
                if res.is_err() {
                    proof {
                        assert(classify_model(gs, idx as int + 1) is None);
                        lemma_classify_none_persists(gs, idx as int + 1, n as int);
                    }
                    return Err(ElfError::Overlap);
                }
            } else {
                proof {
                    lemma_insert_sec(secs_view(ro@), sec@);
                }
                let res = insert_section(&mut ro, sec);
                if res.is_err() {
                    proof {
                        assert(classify_model(gs, idx as int + 1) is None);
                        lemma_classify_none_persists(gs, idx as int + 1, n as int);
                    }
                    return Err(ElfError::Overlap);
                }
            }
        }
        idx = idx + 1;
    }
    Ok((exec, rw, ro))
}

} // verus!
