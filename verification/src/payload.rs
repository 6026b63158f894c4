//! The classified, validated memory payload and the load pipeline that
//! produces it.
//!
//! [`collect_elf_payload`] is the whole pipeline as one call: parse,
//! classify, gate against the RAM window, check the entry point, and
//! aggregate.  Its behaviour is pinned by [`collect_spec`], a mathematical
//! function of the input bytes alone, so every load is all-or-nothing and
//! two loads of the same image agree exactly.

use vstd::prelude::*;

use crate::classify::{classify_model, classify_segments};
use crate::error::ElfError;
use crate::parser::{entry_of, header_ok, load_models, parse_elf, phnum_of, segments_ok};
use crate::sections::{
    sections_bounded, sections_nonempty, sections_ordered, secs_view, segs_view, DataSection,
    SecModel,
};
use crate::validate::{
    all_in_ram, entry_in_exec, entry_in_sections, first_oob, validate_ram,
};

verus! {

/// The aggregate output of a load: entry point and the three classified,
/// address-sorted section buckets.
#[derive(Debug, Clone, PartialEq, Eq)]
pub struct ElfPayload {
    pub entry_point: u64,
    pub exe: Vec<DataSection>,
    pub rw: Vec<DataSection>,
    pub ro: Vec<DataSection>,
}

/// Mathematical model of a payload: entry point and the three buckets.
pub type PayloadModel = (int, Seq<SecModel>, Seq<SecModel>, Seq<SecModel>);

impl View for ElfPayload {
    type V = PayloadModel;

    open spec fn view(&self) -> PayloadModel {
        (
            self.entry_point as int,
            secs_view(self.exe@),
            secs_view(self.rw@),
            secs_view(self.ro@),
        )
    }
}

/// What loading the image `b` yields: the payload, or the error of the
/// first stage that rejects it.  A pure function of the bytes.
pub open spec fn collect_spec(b: Seq<u8>) -> Result<PayloadModel, ElfError> {
    if !header_ok(b) {
        Err(ElfError::Format)
    } else if !segments_ok(b) {
        Err(ElfError::Truncated)
    } else {
        let gs = load_models(b, phnum_of(b));
        match classify_model(gs, gs.len() as int) {
            None => Err(ElfError::Overlap),
            Some(buckets) => {
                let (e, w, r) = buckets;
                if !all_in_ram(w) {
                    Err(
                        ElfError::OutOfBounds {
                            addr: w[first_oob(w)].0 as u64,
                            len: w[first_oob(w)].1.len() as u64,
                        },
                    )
                } else if !entry_in_sections(e, entry_of(b)) {
                    Err(ElfError::EntryPoint { entry: entry_of(b) as u64 })
                } else {
                    Ok((entry_of(b), e, w, r))
                }
            },
        }
    }
}

/// The result of a load, as a mathematical value.
pub open spec fn load_result_view(r: Result<ElfPayload, ElfError>) -> Result<
    PayloadModel,
    ElfError,
> {
    match r {
        Ok(p) => Ok(p@),
        Err(e) => Err(e),
    }
}

/// Loads the image held in `file`: validates the container, classifies the
/// loadable segments, gates the writable ones against the RAM window,
/// checks the entry point, and aggregates the payload.
///
/// The result is exactly [`collect_spec`] of the bytes: no partial payload
/// is ever observable, and loading is deterministic.
pub fn collect_elf_payload(file: &Vec<u8>) -> (r: Result<ElfPayload, ElfError>)
    ensures
        load_result_view(r) == collect_spec(file@),
        r matches Ok(p) ==> {
            &&& sections_ordered(p@.1) && sections_ordered(p@.2) && sections_ordered(p@.3)
            &&& sections_nonempty(p@.1) && sections_nonempty(p@.2) && sections_nonempty(p@.3)
            &&& sections_bounded(p@.1) && sections_bounded(p@.2) && sections_bounded(p@.3)
            &&& all_in_ram(p@.2)
            &&& entry_in_sections(p@.1, p@.0)
        },
{
    let parsed = match parse_elf(file) {
        Ok(p) => p,
        Err(e) => {
            return Err(e);
        },
    };
    let (entry, segs) = parsed;
    let ghost gs = segs_view(segs@);
    proof {
        assert(gs == load_models(file@, phnum_of(file@)));
        assert(gs.len() == load_models(file@, phnum_of(file@)).len());
    }
    let buckets = match classify_segments(segs) {
        Ok(b) => b,
        Err(e) => {
            return Err(e);
        },
    };
    let (exec, rw, ro) = buckets;
    match validate_ram(&rw) {
        Ok(()) => (),
        Err(e) => {
            return Err(e);
        },
    }
    if !entry_in_exec(&exec, entry) {
        return Err(ElfError::EntryPoint { entry });
    }
    proof {
        crate::laws::lemma_buckets_well_formed(file@);
    }
    Ok(ElfPayload { entry_point: entry, exe: exec, rw, ro })
}

} // verus!
