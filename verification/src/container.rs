use vstd::prelude::*;

verus! {

/// One ELF program header, reduced to the fields the loader reads.
#[derive(Clone, Copy, Debug, PartialEq, Eq, Structural)]
pub struct SegmentInfo {
    pub p_flags: u32,
    pub p_offset: u64,
    pub p_vaddr: u64,
    pub p_filesz: u64,
}

/// One PE section-table entry, reduced to the fields the loader reads.
#[derive(Clone, Copy, Debug, PartialEq, Eq, Structural)]
pub struct PeSectionInfo {
    pub characteristics: u32,
    pub pointer_to_raw_data: u32,
    pub size_of_raw_data: u32,
    pub virtual_address: u32,
}

pub struct ElfInfo {
    pub is_64: bool,
    pub program_headers: Vec<SegmentInfo>,
}

pub struct PeInfo {
    pub is_64: bool,
    pub image_base: u64,
    pub sections: Vec<PeSectionInfo>,
}

/// What container sniffing finds in a byte buffer: an ELF, a PE, a buffer
/// with an unrecognised magic, a recognised container of another kind, or a
/// buffer whose headers do not parse.
pub enum ContainerInfo {
    Elf(ElfInfo),
    Pe(PeInfo),
    UnknownBin,
    OtherBin,
    Malformed,
}

#[verifier::ext_equal]
pub struct ElfView {
    pub is_64: bool,
    pub program_headers: Seq<SegmentInfo>,
}

#[verifier::ext_equal]
pub struct PeView {
    pub is_64: bool,
    pub image_base: u64,
    pub sections: Seq<PeSectionInfo>,
}

#[verifier::ext_equal]
pub enum ContainerView {
    Elf(ElfView),
    Pe(PeView),
    UnknownBin,
    OtherBin,
    Malformed,
}

impl View for ContainerInfo {
    type V = ContainerView;

    open spec fn view(&self) -> ContainerView {
        match self {
            ContainerInfo::Elf(e) => ContainerView::Elf(
                ElfView { is_64: e.is_64, program_headers: e.program_headers@ },
            ),
            ContainerInfo::Pe(p) => ContainerView::Pe(
                PeView { is_64: p.is_64, image_base: p.image_base, sections: p.sections@ },
            ),
            ContainerInfo::UnknownBin => ContainerView::UnknownBin,
            ContainerInfo::OtherBin => ContainerView::OtherBin,
            ContainerInfo::Malformed => ContainerView::Malformed,
        }
    }
}

/// Container sniffing is deterministic: what `parse_container` returns is a
/// function of the bytes alone. This name stands for that function.
pub uninterp spec fn container_of(bytes: Seq<u8>) -> ContainerView;

/// Relies on goblin's Object::parse: the container kind found in the buffer,
/// and, field for field, the program headers of an ELF (flags, file offset,
/// virtual address, file size, plus the ELF class) or the section table and
/// image base of a PE (characteristics, raw-data pointer and size, virtual
/// address, plus the optional-header magic). A parse error maps to
/// `Malformed`, an unrecognised magic to `UnknownBin`, and the other
/// recognised containers to `OtherBin`.
#[verifier::external_body]
pub fn parse_container(bytes: &[u8]) -> (r: ContainerInfo)
    ensures
        r@ == container_of(bytes@),
{
    match goblin::Object::parse(bytes) {
        Ok(goblin::Object::Elf(e)) => ContainerInfo::Elf(ElfInfo { is_64: e.is_64, program_headers: e.program_headers.iter().map(|h| SegmentInfo { p_flags: h.p_flags, p_offset: h.p_offset, p_vaddr: h.p_vaddr, p_filesz: h.p_filesz }).collect() }),
        Ok(goblin::Object::PE(p)) => ContainerInfo::Pe(PeInfo { is_64: p.is_64, image_base: p.image_base, sections: p.sections.iter().map(|s| PeSectionInfo { characteristics: s.characteristics, pointer_to_raw_data: s.pointer_to_raw_data, size_of_raw_data: s.size_of_raw_data, virtual_address: s.virtual_address }).collect() }),
        Ok(goblin::Object::Unknown(_)) => ContainerInfo::UnknownBin,
        Ok(_) => ContainerInfo::OtherBin,
        Err(_) => ContainerInfo::Malformed,
    }
}

} // verus!
