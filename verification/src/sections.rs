use vstd::prelude::*;
use vstd::slice::slice_subrange;

use crate::binary::{ELF_EXEC_FLAG, PE_EXEC_FLAG};
use crate::container::{ElfInfo, PeInfo, PeSectionInfo, SegmentInfo};
use crate::error::Error;

verus! {

/// The mathematical value of a bare section: where its bytes sit in the file
/// and in the loaded image, and the bytes themselves.
#[verifier::ext_equal]
pub struct SecView {
    pub file_offset: int,
    pub section_vaddr: int,
    pub program_base: int,
    pub bytes: Seq<u8>,
}

pub open spec fn sec_wf(s: SecView) -> bool {
    &&& s.program_base + s.section_vaddr + s.bytes.len() <= usize::MAX
    &&& s.program_base >= 0
    &&& s.section_vaddr >= 0
    &&& s.file_offset >= 0
}

/// An executable region without a recorded bitness; its bytes borrow the
/// file buffer.
pub struct Section<'b> {
    file_offset: usize,
    section_vaddr: usize,
    program_base: usize,
    bytes: &'b [u8],
}

impl<'b> View for Section<'b> {
    type V = SecView;

    closed spec fn view(&self) -> SecView {
        SecView {
            file_offset: self.file_offset as int,
            section_vaddr: self.section_vaddr as int,
            program_base: self.program_base as int,
            bytes: self.bytes@,
        }
    }
}

impl<'b> Section<'b> {
    #[verifier::type_invariant]
    spec fn type_wf(self) -> bool {
        sec_wf(self@)
    }

    /// Build a bare section. Returns `None` exactly when the runtime address
    /// of the byte past the section would not fit in a `usize`.
    pub fn new(
        file_offset: usize,
        section_vaddr: usize,
        program_base: usize,
        bytes: &'b [u8],
    ) -> (r: Option<Section<'b>>)
        ensures
            r is Some <==> program_base + section_vaddr + bytes@.len() <= usize::MAX,
            r matches Some(s) ==> s@ == (SecView {
                file_offset: file_offset as int,
                section_vaddr: section_vaddr as int,
                program_base: program_base as int,
                bytes: bytes@,
            }),
    {
        if section_vaddr > usize::MAX - program_base {
            return None;
        }
        if bytes.len() > usize::MAX - program_base - section_vaddr {
            return None;
        }
        Some(Section { file_offset, section_vaddr, program_base, bytes })
    }

    pub fn file_offset(&self) -> (r: usize)
        ensures
            r as int == self@.file_offset,
    {
        self.file_offset
    }

    pub fn section_vaddr(&self) -> (r: usize)
        ensures
            r as int == self@.section_vaddr,
    {
        self.section_vaddr
    }

    pub fn program_base(&self) -> (r: usize)
        ensures
            r as int == self@.program_base,
    {
        self.program_base
    }

    pub fn bytes(&self) -> (r: &'b [u8])
        ensures
            r@ == self@.bytes,
    {
        self.bytes
    }
}

pub open spec fn bare_secs_view<'b>(v: Seq<Section<'b>>) -> Seq<SecView> {
    Seq::new(v.len(), |i: int| v[i]@)
}

pub open spec fn spec_bare_elf_section(h: SegmentInfo, bytes: Seq<u8>) -> SecView {
    SecView {
        file_offset: h.p_offset as int,
        section_vaddr: h.p_vaddr as int,
        program_base: 0,
        bytes: bytes.subrange(h.p_offset as int, h.p_offset + h.p_filesz),
    }
}

/// The bare sections of an ELF: one per executable program header, in table
/// order; the first malformed executable header is a parse error.
pub open spec fn spec_bare_elf_sections(segs: Seq<SegmentInfo>, bytes: Seq<u8>) -> Result<
    Seq<SecView>,
    Error,
>
    decreases segs.len(),
{
    if segs.len() == 0 {
        Ok(Seq::empty())
    } else {
        match spec_bare_elf_sections(segs.drop_last(), bytes) {
            Err(e) => Err(e),
            Ok(l) => {
                let h = segs.last();
                if !crate::binary::spec_elf_exec(h) {
                    Ok(l)
                } else if !crate::binary::spec_elf_seg_ok(h, bytes) {
                    Err(Error::ParseErr)
                } else {
                    Ok(l.push(spec_bare_elf_section(h, bytes)))
                }
            },
        }
    }
}

pub open spec fn spec_bare_pe_section(s: PeSectionInfo, image_base: u64, bytes: Seq<u8>) -> SecView {
    SecView {
        file_offset: s.pointer_to_raw_data as int,
        section_vaddr: s.virtual_address as int,
        program_base: image_base as int,
        bytes: bytes.subrange(
            s.pointer_to_raw_data as int,
            s.pointer_to_raw_data + s.size_of_raw_data,
        ),
    }
}

/// The bare sections of a PE: one per executable section-table entry, in
/// table order; the first malformed executable entry is a parse error.
pub open spec fn spec_bare_pe_sections(
    secs: Seq<PeSectionInfo>,
    image_base: u64,
    bytes: Seq<u8>,
) -> Result<Seq<SecView>, Error>
    decreases secs.len(),
{
    if secs.len() == 0 {
        Ok(Seq::empty())
    } else {
        match spec_bare_pe_sections(secs.drop_last(), image_base, bytes) {
            Err(e) => Err(e),
            Ok(l) => {
                let s = secs.last();
                if !crate::binary::spec_pe_exec(s) {
                    Ok(l)
                } else if !crate::binary::spec_pe_sec_ok(s, image_base, bytes) {
                    Err(Error::ParseErr)
                } else {
                    Ok(l.push(spec_bare_pe_section(s, image_base, bytes)))
                }
            },
        }
    }
}

proof fn lemma_bare_elf_err_persists(segs: Seq<SegmentInfo>, bytes: Seq<u8>, k: int)
    requires
        0 <= k <= segs.len(),
        spec_bare_elf_sections(segs.take(k), bytes) is Err,
    ensures
        spec_bare_elf_sections(segs, bytes) == spec_bare_elf_sections(segs.take(k), bytes),
    decreases segs.len() - k,
{
    if k == segs.len() {
        assert(segs.take(k) =~= segs);
    } else {
        assert(segs.take(k + 1).drop_last() =~= segs.take(k));
        lemma_bare_elf_err_persists(segs, bytes, k + 1);
    }
}

proof fn lemma_bare_pe_err_persists(
    secs: Seq<PeSectionInfo>,
    image_base: u64,
    bytes: Seq<u8>,
    k: int,
)
    requires
        0 <= k <= secs.len(),
        spec_bare_pe_sections(secs.take(k), image_base, bytes) is Err,
    ensures
        spec_bare_pe_sections(secs, image_base, bytes) == spec_bare_pe_sections(
            secs.take(k),
            image_base,
            bytes,
        ),
    decreases secs.len() - k,
{
    if k == secs.len() {
        assert(secs.take(k) =~= secs);
    } else {
        assert(secs.take(k + 1).drop_last() =~= secs.take(k));
        lemma_bare_pe_err_persists(secs, image_base, bytes, k + 1);
    }
}

/// The executable sections of a parsed ELF, bare of bitness.
pub fn parse_elf<'b>(elf: &ElfInfo, bytes: &'b [u8]) -> (r: Result<Vec<Section<'b>>, Error>)
    ensures
        match r {
            Ok(v) => spec_bare_elf_sections(elf.program_headers@, bytes@) == Ok::<
                Seq<SecView>,
                Error,
            >(bare_secs_view(v@)),
            Err(er) => spec_bare_elf_sections(elf.program_headers@, bytes@) == Err::<
                Seq<SecView>,
                Error,
            >(er),
        },
{
    let ghost segs = elf.program_headers@;
    let mut out: Vec<Section<'b>> = Vec::new();
    let n = elf.program_headers.len();
    assert(segs.take(0) =~= Seq::empty());
    assert(bare_secs_view(out@) =~= Seq::empty());
    #[verifier::loop_isolation(false)]
    for i in 0..n
        invariant
            n == segs.len(),
            spec_bare_elf_sections(segs.take(i as int), bytes@) == Ok::<Seq<SecView>, Error>(
                bare_secs_view(out@),
            ),
    {
        let h = elf.program_headers[i];
        proof {
            assert(segs.take(i + 1).drop_last() =~= segs.take(i as int));
            assert(segs.take(i + 1).last() == h);
        }
        if h.p_flags & ELF_EXEC_FLAG != 0 {
            let len64 = bytes.len() as u64;
            let max64 = usize::MAX as u64;
            if h.p_offset > len64 || h.p_filesz > len64 - h.p_offset || h.p_vaddr > max64
                || h.p_filesz > max64 - h.p_vaddr {
                proof {
                    lemma_bare_elf_err_persists(segs, bytes@, i + 1);
                }
                return Err(Error::ParseErr);
            }
            let start = h.p_offset as usize;
            let size = h.p_filesz as usize;
            let vaddr = h.p_vaddr as usize;
            let sec_bytes = slice_subrange(bytes, start, start + size);
            match Section::new(start, vaddr, 0, sec_bytes) {
                Some(s) => {
                    let ghost prev = bare_secs_view(out@);
                    out.push(s);
                    proof {
                        assert(bare_secs_view(out@) =~= prev.push(s@));
                        assert(s@ =~= spec_bare_elf_section(h, bytes@));
                    }
                },
                None => {
                    proof {
                        assert(false);
                    }
                    return Err(Error::ParseErr);
                },
            }
        } else {
            proof {
                assert(spec_bare_elf_sections(segs.take(i + 1), bytes@) == Ok::<
                    Seq<SecView>,
                    Error,
                >(bare_secs_view(out@)));
            }
        }
    }
    proof {
        assert(segs.take(n as int) =~= segs);
    }
    Ok(out)
}

/// The executable sections of a parsed PE, bare of bitness.
pub fn parse_pe<'b>(pe: &PeInfo, bytes: &'b [u8]) -> (r: Result<Vec<Section<'b>>, Error>)
    ensures
        match r {
            Ok(v) => spec_bare_pe_sections(pe.sections@, pe.image_base, bytes@) == Ok::<
                Seq<SecView>,
                Error,
            >(bare_secs_view(v@)),
            Err(er) => spec_bare_pe_sections(pe.sections@, pe.image_base, bytes@) == Err::<
                Seq<SecView>,
                Error,
            >(er),
        },
{
    let ghost secs = pe.sections@;
    let mut out: Vec<Section<'b>> = Vec::new();
    let n = pe.sections.len();
    assert(secs.take(0) =~= Seq::empty());
    assert(bare_secs_view(out@) =~= Seq::empty());
    #[verifier::loop_isolation(false)]
    for i in 0..n
        invariant
            n == secs.len(),
            spec_bare_pe_sections(secs.take(i as int), pe.image_base, bytes@) == Ok::<
                Seq<SecView>,
                Error,
            >(bare_secs_view(out@)),
    {
        let s = pe.sections[i];
        proof {
            assert(secs.take(i + 1).drop_last() =~= secs.take(i as int));
            assert(secs.take(i + 1).last() == s);
        }
        if s.characteristics & PE_EXEC_FLAG != 0 {
            let len64 = bytes.len() as u64;
            let max64 = usize::MAX as u64;
            let ptr = s.pointer_to_raw_data as u64;
            let size64 = s.size_of_raw_data as u64;
            let va = s.virtual_address as u64;
            if ptr > len64 || size64 > len64 - ptr || pe.image_base > max64 || va > max64
                - pe.image_base || size64 > max64 - pe.image_base - va {
                proof {
                    lemma_bare_pe_err_persists(secs, pe.image_base, bytes@, i + 1);
                }
                return Err(Error::ParseErr);
            }
            let start = s.pointer_to_raw_data as usize;
            let size = s.size_of_raw_data as usize;
            let vaddr = s.virtual_address as usize;
            let base = pe.image_base as usize;
            let sec_bytes = slice_subrange(bytes, start, start + size);
            match Section::new(start, vaddr, base, sec_bytes) {
                Some(sec) => {
                    let ghost prev = bare_secs_view(out@);
                    out.push(sec);
                    proof {
                        assert(bare_secs_view(out@) =~= prev.push(sec@));
                        assert(sec@ =~= spec_bare_pe_section(s, pe.image_base, bytes@));
                    }
                },
                None => {
                    proof {
                        assert(false);
                    }
                    return Err(Error::ParseErr);
                },
            }
        } else {
            proof {
                assert(spec_bare_pe_sections(secs.take(i + 1), pe.image_base, bytes@) == Ok::<
                    Seq<SecView>,
                    Error,
                >(bare_secs_view(out@)));
            }
        }
    }
    proof {
        assert(secs.take(n as int) =~= secs);
    }
    Ok(out)
}

/// A raw blob: one bare section covering the whole buffer, all offsets zero.
pub fn parse_blob<'b>(bytes: &'b [u8]) -> (r: Result<Vec<Section<'b>>, Error>)
    ensures
        r matches Ok(v) && bare_secs_view(v@) =~= seq![
            (SecView { file_offset: 0, section_vaddr: 0, program_base: 0, bytes: bytes@ }),
        ],
{
    let mut out: Vec<Section<'b>> = Vec::new();
    let n = bytes.len();
    assert(bytes@.len() <= usize::MAX);
    match Section::new(0, 0, 0, bytes) {
        Some(s) => {
            out.push(s);
        },
        None => {
            proof {
                assert(false);
            }
        },
    }
    Ok(out)
}

} // verus!
