use ropr::binary::{Binary, Bitness};
use ropr::container::{parse_container, ContainerInfo, ElfInfo, SegmentInfo};
use ropr::error::Error;
use ropr::formatting::format_gadget;
use ropr::pipeline::find_gadgets;
use ropr::ranges::parse_range;
use ropr::sections::parse_blob;
use ropr::settings::Settings;

fn le16(v: u16) -> [u8; 2] {
    v.to_le_bytes()
}

fn le32(v: u32) -> [u8; 4] {
    v.to_le_bytes()
}

fn le64(v: u64) -> [u8; 8] {
    v.to_le_bytes()
}

/// A minimal 64-bit little-endian ELF with one executable PT_LOAD segment
/// holding `code` at file offset 120, virtual address 0x1000.
fn tiny_elf(code: &[u8]) -> Vec<u8> {
    let mut b: Vec<u8> = Vec::new();
    // e_ident
    b.extend_from_slice(&[0x7F, 0x45, 0x4C, 0x46, 2, 1, 1, 0, 0, 0, 0, 0, 0, 0, 0, 0]);
    b.extend_from_slice(&le16(2)); // e_type: EXEC
    b.extend_from_slice(&le16(0x3E)); // e_machine: x86-64
    b.extend_from_slice(&le32(1)); // e_version
    b.extend_from_slice(&le64(0x1000)); // e_entry
    b.extend_from_slice(&le64(64)); // e_phoff
    b.extend_from_slice(&le64(0)); // e_shoff
    b.extend_from_slice(&le32(0)); // e_flags
    b.extend_from_slice(&le16(64)); // e_ehsize
    b.extend_from_slice(&le16(56)); // e_phentsize
    b.extend_from_slice(&le16(1)); // e_phnum
    b.extend_from_slice(&le16(64)); // e_shentsize
    b.extend_from_slice(&le16(0)); // e_shnum
    b.extend_from_slice(&le16(0)); // e_shstrndx
    assert_eq!(b.len(), 64);
    // one program header
    b.extend_from_slice(&le32(1)); // p_type: PT_LOAD
    b.extend_from_slice(&le32(5)); // p_flags: R+X
    b.extend_from_slice(&le64(120)); // p_offset
    b.extend_from_slice(&le64(0x1000)); // p_vaddr
    b.extend_from_slice(&le64(0x1000)); // p_paddr
    b.extend_from_slice(&le64(code.len() as u64)); // p_filesz
    b.extend_from_slice(&le64(code.len() as u64)); // p_memsz
    b.extend_from_slice(&le64(0x1000)); // p_align
    assert_eq!(b.len(), 120);
    b.extend_from_slice(code);
    b
}

#[test]
fn elf_sections_and_search_end_to_end() {
    let file = tiny_elf(&[0x58, 0xC3]);
    let binary = Binary::new("tiny".to_string(), file);
    assert_eq!(binary.path().as_str(), "tiny");
    let sections = binary.sections(None).unwrap();
    assert_eq!(sections.len(), 1);
    let s = &sections[0];
    assert_eq!(s.file_offset(), 120);
    assert_eq!(s.section_vaddr(), 0x1000);
    assert_eq!(s.program_base(), 0);
    assert!(matches!(s.bitness(), Bitness::Bits64));
    assert_eq!(s.bytes(), &[0x58, 0xC3]);
    let found = find_gadgets(&sections, &Settings::default(), &vec![], &vec![], &vec![]).unwrap();
    let lines: Vec<String> = found.iter().map(|(g, a)| format_gadget(g, *a)).collect();
    assert_eq!(
        lines,
        vec![
            "0x00001000: pop rax; ret;".to_string(),
            "0x00001001: ret;".to_string(),
        ]
    );
}

#[test]
fn elf_with_no_executable_segment_yields_nothing() {
    let mut file = tiny_elf(&[0xC3]);
    file[68] = 4; // p_flags: read only
    let binary = Binary::new("tiny".to_string(), file);
    let sections = binary.sections(None).unwrap();
    assert_eq!(sections.len(), 0);
}

#[test]
fn elf_with_segment_beyond_the_file_is_a_parse_error() {
    let mut file = tiny_elf(&[0xC3]);
    // p_filesz at offset 96: pretend the segment is much larger than the file
    file[96..104].copy_from_slice(&le64(0x10000));
    let binary = Binary::new("tiny".to_string(), file);
    let err = match binary.sections(None) {
        Err(e) => e,
        Ok(_) => panic!("expected a parse error"),
    };
    assert_eq!(err, Error::ParseErr);
}

#[test]
fn forced_raw_covers_the_whole_buffer() {
    let bytes = vec![0xC3, 0x00, 0x00, 0x00, 0x00, 0x00, 0x00, 0x00, 0x00, 0x00, 0x00, 0x00, 0x00,
        0x00, 0x00, 0x00];
    let binary = Binary::new("blob".to_string(), bytes.clone());
    let sections = binary.sections(Some(true)).unwrap();
    assert_eq!(sections.len(), 1);
    assert_eq!(sections[0].bytes(), bytes.as_slice());
    assert_eq!(sections[0].section_vaddr(), 0);
    assert!(matches!(sections[0].bitness(), Bitness::Bits64));
}

#[test]
fn unknown_container_falls_back_to_raw_by_default() {
    let bytes = vec![0x90; 16];
    let binary = Binary::new("blob".to_string(), bytes);
    let sections = binary.sections(None).unwrap();
    assert_eq!(sections.len(), 1);
    assert_eq!(sections[0].bytes().len(), 16);
}

#[test]
fn unknown_container_is_fatal_under_strict_parsing() {
    let bytes = vec![0x90; 16];
    let binary = Binary::new("blob".to_string(), bytes);
    let err = match binary.sections(Some(false)) {
        Err(e) => e,
        Ok(_) => panic!("expected a parse error"),
    };
    assert_eq!(err, Error::ParseErr);
}

#[test]
fn short_buffer_is_a_header_error() {
    let bytes = vec![0x90; 4];
    let binary = Binary::new("blob".to_string(), bytes);
    let err = match binary.sections(None) {
        Err(e) => e,
        Ok(_) => panic!("expected a header error"),
    };
    assert_eq!(err, Error::GoblinErr);
}

#[test]
fn container_sniffing_reports_unknown_magic() {
    let bytes = vec![0x11; 16];
    assert!(matches!(parse_container(&bytes), ContainerInfo::UnknownBin));
}

#[test]
fn bare_elf_parse_selects_executable_segments() {
    let code = [0xC3u8, 0x58, 0xC3];
    let info = ElfInfo {
        is_64: true,
        program_headers: vec![
            SegmentInfo { p_flags: 4, p_offset: 0, p_vaddr: 0x400, p_filesz: 1 },
            SegmentInfo { p_flags: 5, p_offset: 1, p_vaddr: 0x500, p_filesz: 2 },
        ],
    };
    let secs = ropr::sections::parse_elf(&info, &code).unwrap();
    assert_eq!(secs.len(), 1);
    assert_eq!(secs[0].file_offset(), 1);
    assert_eq!(secs[0].section_vaddr(), 0x500);
    assert_eq!(secs[0].program_base(), 0);
    assert_eq!(secs[0].bytes(), &[0x58, 0xC3]);
}

#[test]
fn blob_parse_is_the_whole_buffer() {
    let code = [0x58u8, 0xC3];
    let secs = parse_blob(&code).unwrap();
    assert_eq!(secs.len(), 1);
    assert_eq!(secs[0].file_offset(), 0);
    assert_eq!(secs[0].section_vaddr(), 0);
    assert_eq!(secs[0].program_base(), 0);
    assert_eq!(secs[0].bytes(), &code);
}

#[test]
fn range_arguments_parse_as_hex_pairs() {
    assert_eq!(parse_range(b"0x1000-0x2000"), Some((0x1000, 0x2000)));
    assert_eq!(parse_range(b"1000-2000"), Some((0x1000, 0x2000)));
    assert_eq!(parse_range(b"aB-Ff"), Some((0xAB, 0xFF)));
    assert_eq!(parse_range(b"0x10-20"), Some((0x10, 0x20)));
}

#[test]
fn bad_range_arguments_are_dropped() {
    assert_eq!(parse_range(b"1000"), None);
    assert_eq!(parse_range(b"zz-10"), None);
    assert_eq!(parse_range(b"-10"), None);
    assert_eq!(parse_range(b"0x-10"), None);
    assert_eq!(parse_range(b"10-"), None);
    assert_eq!(parse_range(b"ffffffffffffffffff-1"), None);
}

#[test]
fn error_messages_name_their_cause() {
    assert_eq!(Error::IoErr.message(), "unable to read file");
    assert_eq!(Error::GoblinErr.message(), "unable to parse binary headers");
    assert_eq!(Error::ParseErr.message(), "unable to parse binary");
    assert_eq!(
        Error::Unsupported.message(),
        "unsupported format or architecture"
    );
    assert_eq!(Error::RegexErr.message(), "unable to compile regex");
}

/// A minimal PE32+ with one executable section holding `code` at file offset
/// 512, virtual address 0x1000, image base 0x140000000.
fn tiny_pe(code: &[u8]) -> Vec<u8> {
    let mut b: Vec<u8> = Vec::new();
    // DOS header: "MZ", then the PE-header pointer at offset 0x3C
    b.extend_from_slice(&[0x4D, 0x5A]);
    b.resize(0x3C, 0);
    b.extend_from_slice(&le32(64));
    // PE signature
    b.extend_from_slice(&[0x50, 0x45, 0, 0]);
    // COFF header
    b.extend_from_slice(&le16(0x8664)); // machine: x86-64
    b.extend_from_slice(&le16(1)); // number of sections
    b.extend_from_slice(&le32(0)); // timestamp
    b.extend_from_slice(&le32(0)); // symbol table pointer
    b.extend_from_slice(&le32(0)); // number of symbols
    b.extend_from_slice(&le16(240)); // size of optional header
    b.extend_from_slice(&le16(0x0022)); // characteristics
    // optional header, PE32+
    b.extend_from_slice(&le16(0x20B)); // magic
    b.extend_from_slice(&[0, 0]); // linker versions
    b.extend_from_slice(&le32(0x200)); // size of code
    b.extend_from_slice(&le32(0)); // size of initialized data
    b.extend_from_slice(&le32(0)); // size of uninitialized data
    b.extend_from_slice(&le32(0x1000)); // entry point
    b.extend_from_slice(&le32(0x1000)); // base of code
    b.extend_from_slice(&le64(0x1_4000_0000)); // image base
    b.extend_from_slice(&le32(0x1000)); // section alignment
    b.extend_from_slice(&le32(0x200)); // file alignment
    b.extend_from_slice(&le16(6)); // major os version
    b.extend_from_slice(&le16(0)); // minor os version
    b.extend_from_slice(&le16(0)); // major image version
    b.extend_from_slice(&le16(0)); // minor image version
    b.extend_from_slice(&le16(6)); // major subsystem version
    b.extend_from_slice(&le16(0)); // minor subsystem version
    b.extend_from_slice(&le32(0)); // win32 version
    b.extend_from_slice(&le32(0x2000)); // size of image
    b.extend_from_slice(&le32(0x200)); // size of headers
    b.extend_from_slice(&le32(0)); // checksum
    b.extend_from_slice(&le16(3)); // subsystem: console
    b.extend_from_slice(&le16(0)); // dll characteristics
    b.extend_from_slice(&le64(0x100000)); // stack reserve
    b.extend_from_slice(&le64(0x1000)); // stack commit
    b.extend_from_slice(&le64(0x100000)); // heap reserve
    b.extend_from_slice(&le64(0x1000)); // heap commit
    b.extend_from_slice(&le32(0)); // loader flags
    b.extend_from_slice(&le32(16)); // number of data directories
    b.resize(b.len() + 16 * 8, 0); // empty data directories
    // section table: .text
    b.extend_from_slice(&[0x2E, 0x74, 0x65, 0x78, 0x74, 0, 0, 0]);
    b.extend_from_slice(&le32(code.len() as u32)); // virtual size
    b.extend_from_slice(&le32(0x1000)); // virtual address
    b.extend_from_slice(&le32(code.len() as u32)); // size of raw data
    b.extend_from_slice(&le32(512)); // pointer to raw data
    b.extend_from_slice(&le32(0)); // relocations pointer
    b.extend_from_slice(&le32(0)); // line numbers pointer
    b.extend_from_slice(&le16(0)); // relocation count
    b.extend_from_slice(&le16(0)); // line number count
    b.extend_from_slice(&le32(0x6000_0020)); // characteristics: code, exec, read
    b.resize(512, 0);
    b.extend_from_slice(code);
    b
}

#[test]
fn pe_sections_and_search_end_to_end() {
    let file = tiny_pe(&[0x58, 0xC3]);
    let binary = Binary::new("tiny.exe".to_string(), file);
    let sections = binary.sections(None).unwrap();
    assert_eq!(sections.len(), 1);
    let s = &sections[0];
    assert_eq!(s.file_offset(), 512);
    assert_eq!(s.section_vaddr(), 0x1000);
    assert_eq!(s.program_base(), 0x1_4000_0000);
    assert!(matches!(s.bitness(), Bitness::Bits64));
    assert_eq!(s.bytes(), &[0x58, 0xC3]);
    let found = find_gadgets(&sections, &Settings::default(), &vec![], &vec![], &vec![]).unwrap();
    let lines: Vec<String> = found.iter().map(|(g, a)| format_gadget(g, *a)).collect();
    assert_eq!(
        lines,
        vec![
            "0x140001000: pop rax; ret;".to_string(),
            "0x140001001: ret;".to_string(),
        ]
    );
}

/// A minimal 32-bit little-endian ELF with one executable PT_LOAD segment
/// holding `code` at file offset 84, virtual address 0x1000.
fn tiny_elf32(code: &[u8]) -> Vec<u8> {
    let mut b: Vec<u8> = Vec::new();
    b.extend_from_slice(&[0x7F, 0x45, 0x4C, 0x46, 1, 1, 1, 0, 0, 0, 0, 0, 0, 0, 0, 0]);
    b.extend_from_slice(&le16(2)); // e_type: EXEC
    b.extend_from_slice(&le16(3)); // e_machine: x86
    b.extend_from_slice(&le32(1)); // e_version
    b.extend_from_slice(&le32(0x1000)); // e_entry
    b.extend_from_slice(&le32(52)); // e_phoff
    b.extend_from_slice(&le32(0)); // e_shoff
    b.extend_from_slice(&le32(0)); // e_flags
    b.extend_from_slice(&le16(52)); // e_ehsize
    b.extend_from_slice(&le16(32)); // e_phentsize
    b.extend_from_slice(&le16(1)); // e_phnum
    b.extend_from_slice(&le16(40)); // e_shentsize
    b.extend_from_slice(&le16(0)); // e_shnum
    b.extend_from_slice(&le16(0)); // e_shstrndx
    assert_eq!(b.len(), 52);
    b.extend_from_slice(&le32(1)); // p_type: PT_LOAD
    b.extend_from_slice(&le32(84)); // p_offset
    b.extend_from_slice(&le32(0x1000)); // p_vaddr
    b.extend_from_slice(&le32(0x1000)); // p_paddr
    b.extend_from_slice(&le32(code.len() as u32)); // p_filesz
    b.extend_from_slice(&le32(code.len() as u32)); // p_memsz
    b.extend_from_slice(&le32(5)); // p_flags: R+X
    b.extend_from_slice(&le32(0x1000)); // p_align
    assert_eq!(b.len(), 84);
    b.extend_from_slice(code);
    b
}

#[test]
fn elf32_sections_decode_as_32_bit() {
    // popad; ret is a gadget only under a 32-bit decode
    let file = tiny_elf32(&[0x61, 0xC3]);
    let binary = Binary::new("tiny32".to_string(), file);
    let sections = binary.sections(None).unwrap();
    assert_eq!(sections.len(), 1);
    assert!(matches!(sections[0].bitness(), Bitness::Bits32));
    let found = find_gadgets(&sections, &Settings::default(), &vec![], &vec![], &vec![]).unwrap();
    let lines: Vec<String> = found.iter().map(|(g, a)| format_gadget(g, *a)).collect();
    assert_eq!(
        lines,
        vec![
            "0x00001000: popad; ret;".to_string(),
            "0x00001001: ret;".to_string(),
        ]
    );
}

#[test]
fn raw_mode_gadget_at_address_zero() {
    let mut bytes = vec![0x90; 16];
    bytes[0] = 0xC3;
    let binary = Binary::new("blob".to_string(), bytes);
    let sections = binary.sections(Some(true)).unwrap();
    let found = find_gadgets(&sections, &Settings::default(), &vec![], &vec![], &vec![]).unwrap();
    let lines: Vec<String> = found.iter().map(|(g, a)| format_gadget(g, *a)).collect();
    assert_eq!(lines, vec!["0x00000000: ret;".to_string()]);
}
