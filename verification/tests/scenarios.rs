use ropr::binary::{Bitness, Section};
use ropr::formatting::format_gadget;
use ropr::gadgets::Gadget;
use ropr::pipeline::find_gadgets;
use ropr::settings::Settings;

fn run(
    bytes: &[u8],
    settings: &Settings,
    pos: &Vec<String>,
    neg: &Vec<String>,
    ranges: &Vec<(usize, usize)>,
) -> Vec<String> {
    let section = Section::new(0, 0x1000, 0, Bitness::Bits64, bytes).unwrap();
    let sections = vec![section];
    let found: Vec<(Gadget, usize)> =
        find_gadgets(&sections, settings, pos, neg, ranges).expect("patterns must compile");
    found
        .iter()
        .map(|(g, a)| format_gadget(g, *a))
        .collect()
}

fn run_default(bytes: &[u8], settings: &Settings) -> Vec<String> {
    run(bytes, settings, &vec![], &vec![], &vec![])
}

#[test]
fn singleton_ret() {
    let lines = run_default(&[0xC3], &Settings::default());
    assert_eq!(lines, vec!["0x00001000: ret;".to_string()]);
}

#[test]
fn pop_rax_ret() {
    let lines = run_default(&[0x58, 0xC3], &Settings::default());
    assert_eq!(
        lines,
        vec![
            "0x00001000: pop rax; ret;".to_string(),
            "0x00001001: ret;".to_string(),
        ]
    );
}

#[test]
fn syscall_with_and_without_nosys() {
    let bytes = [0x0F, 0x05];
    let mut nosys = Settings::default();
    nosys.sys = false;
    assert_eq!(run_default(&bytes, &nosys), Vec::<String>::new());
    let lines = run_default(&bytes, &Settings::default());
    assert_eq!(lines, vec!["0x00001000: syscall;".to_string()]);
}

#[test]
fn jop_tail_is_no_head() {
    // jmp rax at offset 0 diverts control flow, so no multi-instruction
    // gadget may cross it to reach the ret at offset 2.
    let lines = run_default(&[0xFF, 0xE0, 0xC3], &Settings::default());
    assert_eq!(
        lines,
        vec![
            "0x00001000: jmp rax;".to_string(),
            "0x00001002: ret;".to_string(),
        ]
    );
}

#[test]
fn base_pivot_finds_pop_rbp() {
    let bytes = [0x5D, 0xC3];
    let mut base = Settings::default();
    base.base_pivot = true;
    assert_eq!(
        run_default(&bytes, &base),
        vec!["0x00001000: pop rbp; ret;".to_string()]
    );
    // a lone ret is itself a stack pivot under the pivot rule table
    let mut stack = Settings::default();
    stack.stack_pivot = true;
    assert_eq!(
        run_default(&bytes, &stack),
        vec!["0x00001001: ret;".to_string()]
    );
}

#[test]
fn stack_pivot_finds_add_esp() {
    let bytes = [0x83, 0xC4, 0x08, 0xC3];
    let mut stack = Settings::default();
    stack.stack_pivot = true;
    // the trailing lone ret also counts: its tail pivots the stack
    assert_eq!(
        run_default(&bytes, &stack),
        vec![
            "0x00001000: add esp, 8; ret;".to_string(),
            "0x00001003: ret;".to_string(),
        ]
    );
}

#[test]
fn positive_regex_keeps_matching_lines_only() {
    let bytes = [0x58, 0xC3];
    let lines = run(
        &bytes,
        &Settings::default(),
        &vec!["pop".to_string()],
        &vec![],
        &vec![],
    );
    assert_eq!(lines, vec!["0x00001000: pop rax; ret;".to_string()]);
}

#[test]
fn negative_regex_drops_matching_lines() {
    let bytes = [0x58, 0xC3];
    let lines = run(
        &bytes,
        &Settings::default(),
        &vec![],
        &vec!["pop".to_string()],
        &vec![],
    );
    assert_eq!(lines, vec!["0x00001001: ret;".to_string()]);
}

#[test]
fn address_range_filter_is_inclusive() {
    let bytes = [0x58, 0xC3];
    let lines = run(
        &bytes,
        &Settings::default(),
        &vec![],
        &vec![],
        &vec![(0x1001, 0x1001)],
    );
    assert_eq!(lines, vec!["0x00001001: ret;".to_string()]);
}

#[test]
fn bitness_changes_decoding() {
    // 0x61 is popad in 32-bit mode and an invalid opcode in 64-bit mode.
    let bytes = [0x61, 0xC3];
    let section32 = Section::new(0, 0x1000, 0, Bitness::Bits32, &bytes).unwrap();
    let sections32 = vec![section32];
    let r32 = find_gadgets(&sections32, &Settings::default(), &vec![], &vec![], &vec![]).unwrap();
    let lines32: Vec<String> = r32.iter().map(|(g, a)| format_gadget(g, *a)).collect();
    assert_eq!(
        lines32,
        vec![
            "0x00001000: popad; ret;".to_string(),
            "0x00001001: ret;".to_string(),
        ]
    );
    let lines64 = run_default(&bytes, &Settings::default());
    assert_eq!(lines64, vec!["0x00001001: ret;".to_string()]);
}

#[test]
fn max_instructions_bounds_gadget_length() {
    // three pops then ret; with the bound at 2 only one pop fits
    let bytes = [0x58, 0x58, 0x58, 0xC3];
    let mut st = Settings::default();
    st.max_instructions = 2;
    let lines = run_default(&bytes, &st);
    assert_eq!(
        lines,
        vec![
            "0x00001002: pop rax; ret;".to_string(),
            "0x00001003: ret;".to_string(),
        ]
    );
}

#[test]
fn wide_address_is_not_truncated() {
    let bytes = [0xC3];
    let section = Section::new(0, 0x1_0000_0000, 0, Bitness::Bits64, &bytes).unwrap();
    let sections = vec![section];
    let r = find_gadgets(&sections, &Settings::default(), &vec![], &vec![], &vec![]).unwrap();
    let lines: Vec<String> = r.iter().map(|(g, a)| format_gadget(g, *a)).collect();
    assert_eq!(lines, vec!["0x100000000: ret;".to_string()]);
}

#[test]
fn interrupt_tail_needs_the_0x80_immediate() {
    // int 0x80 is a syscall tail; any other interrupt number is not
    let lines = run_default(&[0xCD, 0x80], &Settings::default());
    assert_eq!(lines, vec!["0x00001000: int 0x80;".to_string()]);
    let other = run_default(&[0xCD, 0x10], &Settings::default());
    assert_eq!(other, Vec::<String>::new());
}

#[test]
fn rip_relative_jump_is_a_tail_only_in_noisy_mode() {
    // jmp [rip+0]: the branch target is fixed, so quiet mode refuses it
    let bytes = [0xFF, 0x25, 0x00, 0x00, 0x00, 0x00];
    assert_eq!(run_default(&bytes, &Settings::default()).len(), 0);
    let mut noisy = Settings::default();
    noisy.noisy = true;
    assert_eq!(run_default(&bytes, &noisy).len(), 1);
    // jmp [rax] has an attacker-controllable target and qualifies quietly
    assert_eq!(run_default(&[0xFF, 0x20], &Settings::default()).len(), 1);
    // call rax likewise
    assert_eq!(run_default(&[0xFF, 0xD0], &Settings::default()).len(), 1);
}
