use vstd::prelude::*;
use vstd::slice::slice_subrange;

use crate::container::{container_of, parse_container, ContainerInfo, ContainerView, ElfInfo, PeInfo, PeSectionInfo, SegmentInfo};
use crate::error::Error;

verus! {

/// Executable flag bit of an ELF program header (PF_X).
pub const ELF_EXEC_FLAG: u32 = 1;

/// Executable characteristic bit of a PE section (IMAGE_SCN_MEM_EXECUTE).
pub const PE_EXEC_FLAG: u32 = 0x2000_0000;

#[derive(Clone, Copy, Debug, PartialEq, Eq, Structural)]
pub enum Bitness {
    Bits32,
    Bits64,
}

impl Bitness {
    pub open spec fn spec_bits(self) -> u32 {
        if self == Bitness::Bits64 {
            64
        } else {
            32
        }
    }

    pub fn bits(self) -> (r: u32)
        ensures
            r == self.spec_bits(),
    {
        match self {
            Bitness::Bits32 => 32,
            Bitness::Bits64 => 64,
        }
    }
}

/// The mathematical value of a section: where its bytes sit in the file,
/// where they sit in the loaded image, and the bytes themselves. The runtime
/// address of byte `i` is `program_base + section_vaddr + i`.
#[verifier::ext_equal]
pub struct SectionView {
    pub file_offset: int,
    pub section_vaddr: int,
    pub program_base: int,
    pub bits: u32,
    pub bytes: Seq<u8>,
}

/// Every section is well-formed: its last byte's runtime address fits in a
/// `usize`, and its bitness is 32 or 64.
pub open spec fn section_wf(s: SectionView) -> bool {
    &&& s.program_base + s.section_vaddr + s.bytes.len() <= usize::MAX
    &&& (s.bits == 32 || s.bits == 64)
    &&& s.program_base >= 0
    &&& s.section_vaddr >= 0
    &&& s.file_offset >= 0
}

/// An executable region of a loaded binary. Its bytes borrow the file buffer.
pub struct Section<'b> {
    file_offset: usize,
    section_vaddr: usize,
    program_base: usize,
    bitness: Bitness,
    bytes: &'b [u8],
}

impl<'b> View for Section<'b> {
    type V = SectionView;

    closed spec fn view(&self) -> SectionView {
        SectionView {
            file_offset: self.file_offset as int,
            section_vaddr: self.section_vaddr as int,
            program_base: self.program_base as int,
            bits: self.bitness.spec_bits(),
            bytes: self.bytes@,
        }
    }
}

impl<'b> Section<'b> {
    #[verifier::type_invariant]
    spec fn type_wf(self) -> bool {
        section_wf(self@)
    }

    /// Build a section. Returns `None` exactly when the runtime address of
    /// the byte past the section would not fit in a `usize`.
    pub fn new(
        file_offset: usize,
        section_vaddr: usize,
        program_base: usize,
        bitness: Bitness,
        bytes: &'b [u8],
    ) -> (r: Option<Section<'b>>)
        ensures
            r is Some <==> program_base + section_vaddr + bytes@.len() <= usize::MAX,
            r matches Some(s) ==> s@ == (SectionView {
                file_offset: file_offset as int,
                section_vaddr: section_vaddr as int,
                program_base: program_base as int,
                bits: bitness.spec_bits(),
                bytes: bytes@,
            }),
    {
        if section_vaddr > usize::MAX - program_base {
            return None;
        }
        if bytes.len() > usize::MAX - program_base - section_vaddr {
            return None;
        }
        Some(Section { file_offset, section_vaddr, program_base, bitness, bytes })
    }

    pub fn file_offset(&self) -> (r: usize)
        ensures
            r as int == self@.file_offset,
    {
        self.file_offset
    }

    pub fn section_vaddr(&self) -> (r: usize)
        ensures
            r as int == self@.section_vaddr,
    {
        self.section_vaddr
    }

    pub fn program_base(&self) -> (r: usize)
        ensures
            r as int == self@.program_base,
    {
        self.program_base
    }

    pub fn bitness(&self) -> (r: Bitness)
        ensures
            r.spec_bits() == self@.bits,
    {
        self.bitness
    }

    pub fn bytes(&self) -> (r: &'b [u8])
        ensures
            r@ == self@.bytes,
    {
        self.bytes
    }

    /// Every section value is well-formed; this hands the fact to callers.
    pub fn lemma_wf(&self) -> (r: Ghost<bool>)
        ensures
            section_wf(self@),
    {
        proof {
            use_type_invariant(self);
        }
        Ghost(true)
    }
}

pub open spec fn secs_view<'b>(v: Seq<Section<'b>>) -> Seq<SectionView> {
    Seq::new(v.len(), |i: int| v[i]@)
}

/// The single section raw mode emits: the whole buffer at offset zero.
pub open spec fn spec_raw_section(bytes: Seq<u8>, bits: u32) -> SectionView {
    SectionView { file_offset: 0, section_vaddr: 0, program_base: 0, bits, bytes }
}

pub open spec fn spec_class_bits(is_64: bool) -> u32 {
    if is_64 {
        64
    } else {
        32
    }
}

pub open spec fn spec_elf_exec(h: SegmentInfo) -> bool {
    h.p_flags & ELF_EXEC_FLAG != 0
}

/// An executable ELF segment is acceptable when its file range lies inside
/// the buffer and its last byte's runtime address fits in a `usize`.
pub open spec fn spec_elf_seg_ok(h: SegmentInfo, bytes: Seq<u8>) -> bool {
    &&& h.p_offset + h.p_filesz <= bytes.len()
    &&& h.p_vaddr + h.p_filesz <= usize::MAX
}

pub open spec fn spec_elf_section(h: SegmentInfo, bytes: Seq<u8>, bits: u32) -> SectionView {
    SectionView {
        file_offset: h.p_offset as int,
        section_vaddr: h.p_vaddr as int,
        program_base: 0,
        bits,
        bytes: bytes.subrange(h.p_offset as int, h.p_offset + h.p_filesz),
    }
}

/// The sections of an ELF: one per executable program header, in table
/// order; the first malformed executable header is a parse error.
pub open spec fn spec_elf_sections(segs: Seq<SegmentInfo>, bytes: Seq<u8>, bits: u32) -> Result<
    Seq<SectionView>,
    Error,
>
    decreases segs.len(),
{
    if segs.len() == 0 {
        Ok(Seq::empty())
    } else {
        match spec_elf_sections(segs.drop_last(), bytes, bits) {
            Err(e) => Err(e),
            Ok(l) => {
                let h = segs.last();
                if !spec_elf_exec(h) {
                    Ok(l)
                } else if !spec_elf_seg_ok(h, bytes) {
                    Err(Error::ParseErr)
                } else {
                    Ok(l.push(spec_elf_section(h, bytes, bits)))
                }
            },
        }
    }
}

pub open spec fn spec_pe_exec(s: PeSectionInfo) -> bool {
    s.characteristics & PE_EXEC_FLAG != 0
}

/// An executable PE section is acceptable when its raw-data range lies inside
/// the buffer and its last byte's runtime address fits in a `usize`.
pub open spec fn spec_pe_sec_ok(s: PeSectionInfo, image_base: u64, bytes: Seq<u8>) -> bool {
    &&& s.pointer_to_raw_data + s.size_of_raw_data <= bytes.len()
    &&& image_base + s.virtual_address + s.size_of_raw_data <= usize::MAX
}

pub open spec fn spec_pe_section(
    s: PeSectionInfo,
    image_base: u64,
    bytes: Seq<u8>,
    bits: u32,
) -> SectionView {
    SectionView {
        file_offset: s.pointer_to_raw_data as int,
        section_vaddr: s.virtual_address as int,
        program_base: image_base as int,
        bits,
        bytes: bytes.subrange(
            s.pointer_to_raw_data as int,
            s.pointer_to_raw_data + s.size_of_raw_data,
        ),
    }
}

/// The sections of a PE: one per executable section-table entry, in table
/// order; the first malformed executable entry is a parse error.
pub open spec fn spec_pe_sections(
    secs: Seq<PeSectionInfo>,
    image_base: u64,
    bytes: Seq<u8>,
    bits: u32,
) -> Result<Seq<SectionView>, Error>
    decreases secs.len(),
{
    if secs.len() == 0 {
        Ok(Seq::empty())
    } else {
        match spec_pe_sections(secs.drop_last(), image_base, bytes, bits) {
            Err(e) => Err(e),
            Ok(l) => {
                let s = secs.last();
                if !spec_pe_exec(s) {
                    Ok(l)
                } else if !spec_pe_sec_ok(s, image_base, bytes) {
                    Err(Error::ParseErr)
                } else {
                    Ok(l.push(spec_pe_section(s, image_base, bytes, bits)))
                }
            },
        }
    }
}

/// What section extraction yields for a buffer under the raw-mode choice:
/// forced raw emits the whole buffer; strict container parsing takes the
/// executable sections of an ELF or PE and refuses everything else; the
/// default does the same but falls back to raw on a recognised parse with an
/// unhandled or unknown container kind.
pub open spec fn spec_container_sections(
    c: ContainerView,
    bytes: Seq<u8>,
    raw: Option<bool>,
) -> Result<Seq<SectionView>, Error> {
    match raw {
        Some(true) => Ok(seq![spec_raw_section(bytes, 64)]),
        Some(false) => match c {
            ContainerView::Elf(e) => spec_elf_sections(
                e.program_headers,
                bytes,
                spec_class_bits(e.is_64),
            ),
            ContainerView::Pe(p) => spec_pe_sections(
                p.sections,
                p.image_base,
                bytes,
                spec_class_bits(p.is_64),
            ),
            ContainerView::UnknownBin => Err(Error::ParseErr),
            ContainerView::OtherBin => Err(Error::Unsupported),
            ContainerView::Malformed => Err(Error::GoblinErr),
        },
        None => match c {
            ContainerView::Elf(e) => spec_elf_sections(
                e.program_headers,
                bytes,
                spec_class_bits(e.is_64),
            ),
            ContainerView::Pe(p) => spec_pe_sections(
                p.sections,
                p.image_base,
                bytes,
                spec_class_bits(p.is_64),
            ),
            ContainerView::UnknownBin => Ok(seq![spec_raw_section(bytes, 64)]),
            ContainerView::OtherBin => Ok(seq![spec_raw_section(bytes, 64)]),
            ContainerView::Malformed => Err(Error::GoblinErr),
        },
    }
}

pub open spec fn spec_sections(bytes: Seq<u8>, raw: Option<bool>) -> Result<
    Seq<SectionView>,
    Error,
> {
    spec_container_sections(container_of(bytes), bytes, raw)
}

proof fn lemma_elf_sections_err_persists(segs: Seq<SegmentInfo>, bytes: Seq<u8>, bits: u32, k: int)
    requires
        0 <= k <= segs.len(),
        spec_elf_sections(segs.take(k), bytes, bits) is Err,
    ensures
        spec_elf_sections(segs, bytes, bits) == spec_elf_sections(segs.take(k), bytes, bits),
    decreases segs.len() - k,
{
    if k == segs.len() {
        assert(segs.take(k) =~= segs);
    } else {
        assert(segs.take(k + 1).drop_last() =~= segs.take(k));
        lemma_elf_sections_err_persists(segs, bytes, bits, k + 1);
    }
}

proof fn lemma_pe_sections_err_persists(
    secs: Seq<PeSectionInfo>,
    image_base: u64,
    bytes: Seq<u8>,
    bits: u32,
    k: int,
)
    requires
        0 <= k <= secs.len(),
        spec_pe_sections(secs.take(k), image_base, bytes, bits) is Err,
    ensures
        spec_pe_sections(secs, image_base, bytes, bits) == spec_pe_sections(
            secs.take(k),
            image_base,
            bytes,
            bits,
        ),
    decreases secs.len() - k,
{
    if k == secs.len() {
        assert(secs.take(k) =~= secs);
    } else {
        assert(secs.take(k + 1).drop_last() =~= secs.take(k));
        lemma_pe_sections_err_persists(secs, image_base, bytes, bits, k + 1);
    }
}

fn collect_elf<'b>(e: &ElfInfo, bytes: &'b [u8]) -> (r: Result<Vec<Section<'b>>, Error>)
    ensures
        match r {
            Ok(v) => spec_elf_sections(e.program_headers@, bytes@, spec_class_bits(e.is_64))
                == Ok::<Seq<SectionView>, Error>(secs_view(v@)),
            Err(er) => spec_elf_sections(e.program_headers@, bytes@, spec_class_bits(e.is_64))
                == Err::<Seq<SectionView>, Error>(er),
        },
{
    let ghost segs = e.program_headers@;
    let ghost bits = spec_class_bits(e.is_64);
    let bitness = if e.is_64 {
        Bitness::Bits64
    } else {
        Bitness::Bits32
    };
    let mut out: Vec<Section<'b>> = Vec::new();
    let n = e.program_headers.len();
    assert(segs.take(0) =~= Seq::empty());
    assert(secs_view(out@) =~= Seq::empty());
    for i in 0..n
        invariant
            n == segs.len(),
            segs == e.program_headers@,
            bits == spec_class_bits(e.is_64),
            bitness.spec_bits() == bits,
            spec_elf_sections(segs.take(i as int), bytes@, bits) == Ok::<
                Seq<SectionView>,
                Error,
            >(secs_view(out@)),
    {
        let h = e.program_headers[i];
        proof {
            assert(segs.take(i + 1).drop_last() =~= segs.take(i as int));
            assert(segs.take(i + 1).last() == h);
        }
        if h.p_flags & ELF_EXEC_FLAG != 0 {
            let len64 = bytes.len() as u64;
            let max64 = usize::MAX as u64;
            if h.p_offset > len64 || h.p_filesz > len64 - h.p_offset || h.p_vaddr > max64
                || h.p_filesz > max64 - h.p_vaddr {
                proof {
                    assert(!spec_elf_seg_ok(h, bytes@));
                    assert(spec_elf_sections(segs.take(i + 1), bytes@, bits) == Err::<
                        Seq<SectionView>,
                        Error,
                    >(Error::ParseErr));
                    lemma_elf_sections_err_persists(segs, bytes@, bits, i + 1);
                }
                return Err(Error::ParseErr);
            }
            let start = h.p_offset as usize;
            let size = h.p_filesz as usize;
            let vaddr = h.p_vaddr as usize;
            let sec_bytes = slice_subrange(bytes, start, start + size);
            match Section::new(start, vaddr, 0, bitness, sec_bytes) {
                Some(s) => {
                    let ghost prev = secs_view(out@);
                    out.push(s);
                    proof {
                        assert(secs_view(out@) =~= prev.push(s@));
                        assert(s@ =~= spec_elf_section(h, bytes@, bits));
                    }
                },
                None => {
                    proof {
                        assert(false);
                    }
                    return Err(Error::ParseErr);
                },
            }
        } else {
            proof {
                assert(spec_elf_sections(segs.take(i + 1), bytes@, bits) == Ok::<
                    Seq<SectionView>,
                    Error,
                >(secs_view(out@)));
            }
        }
    }
    proof {
        assert(segs.take(n as int) =~= segs);
    }
    Ok(out)
}

fn collect_pe<'b>(p: &PeInfo, bytes: &'b [u8]) -> (r: Result<Vec<Section<'b>>, Error>)
    ensures
        match r {
            Ok(v) => spec_pe_sections(p.sections@, p.image_base, bytes@, spec_class_bits(p.is_64))
                == Ok::<Seq<SectionView>, Error>(secs_view(v@)),
            Err(er) => spec_pe_sections(
                p.sections@,
                p.image_base,
                bytes@,
                spec_class_bits(p.is_64),
            ) == Err::<Seq<SectionView>, Error>(er),
        },
{
    let ghost secs = p.sections@;
    let ghost bits = spec_class_bits(p.is_64);
    let bitness = if p.is_64 {
        Bitness::Bits64
    } else {
        Bitness::Bits32
    };
    let mut out: Vec<Section<'b>> = Vec::new();
    let n = p.sections.len();
    assert(secs.take(0) =~= Seq::empty());
    assert(secs_view(out@) =~= Seq::empty());
    for i in 0..n
        invariant
            n == secs.len(),
            secs == p.sections@,
            bits == spec_class_bits(p.is_64),
            bitness.spec_bits() == bits,
            spec_pe_sections(secs.take(i as int), p.image_base, bytes@, bits) == Ok::<
                Seq<SectionView>,
                Error,
            >(secs_view(out@)),
    {
        let s = p.sections[i];
        proof {
            assert(secs.take(i + 1).drop_last() =~= secs.take(i as int));
            assert(secs.take(i + 1).last() == s);
        }
        if s.characteristics & PE_EXEC_FLAG != 0 {
            let len64 = bytes.len() as u64;
            let max64 = usize::MAX as u64;
            let ptr = s.pointer_to_raw_data as u64;
            let size64 = s.size_of_raw_data as u64;
            let va = s.virtual_address as u64;
            if ptr > len64 || size64 > len64 - ptr || p.image_base > max64 || va > max64
                - p.image_base || size64 > max64 - p.image_base - va {
                proof {
                    assert(!spec_pe_sec_ok(s, p.image_base, bytes@));
                    assert(spec_pe_sections(secs.take(i + 1), p.image_base, bytes@, bits) == Err::<
                        Seq<SectionView>,
                        Error,
                    >(Error::ParseErr));
                    lemma_pe_sections_err_persists(secs, p.image_base, bytes@, bits, i + 1);
                }
                return Err(Error::ParseErr);
            }
            let start = s.pointer_to_raw_data as usize;
            let size = s.size_of_raw_data as usize;
            let vaddr = s.virtual_address as usize;
            let base = p.image_base as usize;
            let sec_bytes = slice_subrange(bytes, start, start + size);
            match Section::new(start, vaddr, base, bitness, sec_bytes) {
                Some(sec) => {
                    let ghost prev = secs_view(out@);
                    out.push(sec);
                    proof {
                        assert(secs_view(out@) =~= prev.push(sec@));
                        assert(sec@ =~= spec_pe_section(s, p.image_base, bytes@, bits));
                    }
                },
                None => {
                    proof {
                        assert(false);
                    }
                    return Err(Error::ParseErr);
                },
            }
        } else {
            proof {
                assert(spec_pe_sections(secs.take(i + 1), p.image_base, bytes@, bits) == Ok::<
                    Seq<SectionView>,
                    Error,
                >(secs_view(out@)));
            }
        }
    }
    proof {
        assert(secs.take(n as int) =~= secs);
    }
    Ok(out)
}

fn raw_sections<'b>(bytes: &'b [u8]) -> (r: Vec<Section<'b>>)
    ensures
        secs_view(r@) =~= seq![spec_raw_section(bytes@, 64)],
{
    let mut out: Vec<Section<'b>> = Vec::new();
    let _n = bytes.len();
    assert(bytes@.len() <= usize::MAX);
    match Section::new(0, 0, 0, Bitness::Bits64, bytes) {
        Some(s) => {
            out.push(s);
        },
        None => {
            proof {
                assert(false);
            }
        },
    }
    out
}

/// A binary held in memory: its path and its bytes.
pub struct Binary {
    path: String,
    bytes: Vec<u8>,
}

#[verifier::ext_equal]
pub struct BinaryView {
    pub path: Seq<char>,
    pub bytes: Seq<u8>,
}

impl View for Binary {
    type V = BinaryView;

    closed spec fn view(&self) -> BinaryView {
        BinaryView { path: self.path@, bytes: self.bytes@ }
    }
}

impl Binary {
    pub fn new(path: String, bytes: Vec<u8>) -> (r: Binary)
        ensures
            r@.path == path@,
            r@.bytes == bytes@,
    {
        Binary { path, bytes }
    }

    pub fn path(&self) -> (r: &String)
        ensures
            r@ == self@.path,
    {
        &self.path
    }

    /// The executable sections of the binary under the raw-mode choice:
    /// exactly what `spec_sections` says of its bytes.
    pub fn sections(&self, raw: Option<bool>) -> (r: Result<Vec<Section<'_>>, Error>)
        ensures
            match r {
                Ok(v) => spec_sections(self@.bytes, raw) == Ok::<Seq<SectionView>, Error>(
                    secs_view(v@),
                ),
                Err(er) => spec_sections(self@.bytes, raw) == Err::<Seq<SectionView>, Error>(er),
            },
    {
        let bytes = self.bytes.as_slice();
        match raw {
            Some(true) => Ok(raw_sections(bytes)),
            Some(false) => match parse_container(bytes) {
                ContainerInfo::Elf(e) => collect_elf(&e, bytes),
                ContainerInfo::Pe(p) => collect_pe(&p, bytes),
                ContainerInfo::UnknownBin => Err(Error::ParseErr),
                ContainerInfo::OtherBin => Err(Error::Unsupported),
                ContainerInfo::Malformed => Err(Error::GoblinErr),
            },
            None => match parse_container(bytes) {
                ContainerInfo::Elf(e) => collect_elf(&e, bytes),
                ContainerInfo::Pe(p) => collect_pe(&p, bytes),
                ContainerInfo::UnknownBin => Ok(raw_sections(bytes)),
                ContainerInfo::OtherBin => Ok(raw_sections(bytes)),
                ContainerInfo::Malformed => Err(Error::GoblinErr),
            },
        }
    }
}

} // verus!
