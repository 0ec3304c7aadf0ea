use ropr::binary::{Bitness, Section};
use ropr::formatting::format_gadget;
use ropr::gadgets::Gadget;
use ropr::instr::{FlowControl, TailMnemonic};
use ropr::pipeline::find_gadgets;
use ropr::rules::{is_gadget_head, is_gadget_tail};
use ropr::settings::Settings;

fn gadgets_of(bytes: &[u8], settings: &Settings) -> Vec<(Gadget, usize)> {
    let section = Section::new(0, 0x1000, 0, Bitness::Bits64, bytes).unwrap();
    let sections = vec![section];
    find_gadgets(&sections, settings, &vec![], &vec![], &vec![]).unwrap()
}

fn lines_of(bytes: &[u8], settings: &Settings) -> Vec<String> {
    gadgets_of(bytes, settings)
        .iter()
        .map(|(g, a)| format_gadget(g, *a))
        .collect()
}

#[test]
fn emitted_heads_and_tail_satisfy_rules() {
    let st = Settings::default();
    let found = gadgets_of(&[0x58, 0x5D, 0x0F, 0x05, 0xC3, 0xFF, 0xE0], &st);
    assert!(!found.is_empty());
    for (g, _) in &found {
        let instrs = g.instructions();
        assert!(!instrs.is_empty());
        let last = &instrs[instrs.len() - 1];
        assert!(is_gadget_tail(last, st.rop, st.sys, st.jop, st.noisy));
        for head in &instrs[..instrs.len() - 1] {
            assert!(is_gadget_head(head, st.noisy));
        }
    }
}

#[test]
fn emitted_gadgets_respect_instruction_bound() {
    let st = Settings::default();
    let found = gadgets_of(&[0x58, 0x58, 0x58, 0x58, 0x58, 0x58, 0x58, 0x58, 0xC3], &st);
    assert!(!found.is_empty());
    for (g, _) in &found {
        let n = g.instructions().len();
        assert!(1 <= n && n <= st.max_instructions);
    }
}

#[test]
fn emitted_addresses_lie_inside_the_section() {
    let bytes = [0x58, 0x58, 0xC3, 0x0F, 0x05];
    let found = gadgets_of(&bytes, &Settings::default());
    assert!(!found.is_empty());
    for (g, a) in &found {
        assert!(0x1000 <= *a);
        let byte_len: usize = g.instructions().iter().map(|i| i.len).sum();
        assert!(*a + byte_len <= 0x1000 + bytes.len());
    }
}

#[test]
fn emitted_list_is_ascending_by_address() {
    let mut st = Settings::default();
    st.uniq = false;
    let found = gadgets_of(&[0xC3, 0x58, 0xC3, 0x5D, 0xC3], &st);
    assert!(found.len() >= 3);
    for w in found.windows(2) {
        assert!(w[0].1 <= w[1].1);
    }
}

#[test]
fn quiet_mode_is_a_subset_of_noisy_mode() {
    // je +0; ret — the conditional branch is a head only in noisy mode
    let bytes = [0x74, 0x00, 0xC3, 0xF0, 0x58, 0xC3];
    let quiet = lines_of(&bytes, &Settings::default());
    let mut noisy_settings = Settings::default();
    noisy_settings.noisy = true;
    let noisy = lines_of(&bytes, &noisy_settings);
    assert!(noisy.len() > quiet.len());
    for line in &quiet {
        let body = line.split(": ").nth(1).unwrap();
        assert!(
            noisy.iter().any(|l| l.split(": ").nth(1).unwrap() == body),
            "quiet gadget missing from noisy run: {line}"
        );
    }
}

#[test]
fn disabling_categories_narrows_the_run() {
    let bytes = [0x0F, 0x05, 0xC3, 0xFF, 0xE0];
    let all = lines_of(&bytes, &Settings::default());
    for (norop, nosys, nojop) in [(true, false, false), (false, true, false), (false, false, true)]
    {
        let mut st = Settings::default();
        st.rop = !norop;
        st.sys = !nosys;
        st.jop = !nojop;
        let narrowed = lines_of(&bytes, &st);
        assert!(narrowed.len() < all.len());
        for line in &narrowed {
            let body = line.split(": ").nth(1).unwrap();
            assert!(all.iter().any(|l| l.split(": ").nth(1).unwrap() == body));
        }
    }
}

#[test]
fn pivot_filters_narrow_the_run() {
    let bytes = [0x5D, 0x83, 0xC4, 0x08, 0xC3];
    let all = lines_of(&bytes, &Settings::default());
    for (stack, base) in [(true, false), (false, true)] {
        let mut st = Settings::default();
        st.stack_pivot = stack;
        st.base_pivot = base;
        let narrowed = lines_of(&bytes, &st);
        for line in &narrowed {
            assert!(all.contains(line));
        }
        assert!(narrowed.len() <= all.len());
    }
}

#[test]
fn unique_mode_folds_duplicate_bodies() {
    let bytes = [0xC3, 0xC3];
    let uniq = lines_of(&bytes, &Settings::default());
    assert_eq!(uniq.len(), 1);
    let mut st = Settings::default();
    st.uniq = false;
    let dup = lines_of(&bytes, &st);
    assert_eq!(
        dup,
        vec![
            "0x00001000: ret;".to_string(),
            "0x00001001: ret;".to_string(),
        ]
    );
}

#[test]
fn no_two_emitted_gadgets_share_a_body_under_uniq() {
    let bytes = [0x58, 0xC3, 0x58, 0xC3, 0xC3];
    let found = gadgets_of(&bytes, &Settings::default());
    for i in 0..found.len() {
        for j in 0..found.len() {
            if i != j {
                assert!(!found[i].0.same_as(&found[j].0));
            }
        }
    }
}

#[test]
fn two_runs_emit_identical_lines() {
    let bytes = [0x58, 0x5D, 0xC3, 0x0F, 0x05, 0xFF, 0xE0, 0xC3];
    let st = Settings::default();
    let first = lines_of(&bytes, &st);
    let second = lines_of(&bytes, &st);
    assert_eq!(first, second);
    assert_eq!(first.len(), second.len());
}

#[test]
fn default_settings_match_the_documented_defaults() {
    let st = Settings::default();
    assert!(!st.noisy);
    assert!(st.rop && st.sys && st.jop);
    assert!(!st.stack_pivot && !st.base_pivot);
    assert_eq!(st.max_instructions, 6);
    assert!(st.uniq);
}

#[test]
fn decoded_instructions_expose_their_classification() {
    let bytes = [0xC3];
    let section = Section::new(0, 0x1000, 0, Bitness::Bits64, &bytes).unwrap();
    let dis = ropr::disassembler::Disassembly::new(&section).unwrap();
    let i = dis.instruction(0).unwrap();
    assert!(i.valid);
    assert_eq!(i.len, 1);
    assert_eq!(i.mnemonic, TailMnemonic::Ret);
    assert_eq!(i.flow, FlowControl::Return);
    assert!(dis.instruction(1).is_none());
    assert!(dis.is_tail_at(0, true, true, true, false));
    assert!(!dis.is_tail_at(0, false, true, true, false));
}

#[test]
fn bad_regex_is_reported() {
    let bytes = [0xC3];
    let section = Section::new(0, 0x1000, 0, Bitness::Bits64, &bytes).unwrap();
    let sections = vec![section];
    let r = find_gadgets(
        &sections,
        &Settings::default(),
        &vec!["(".to_string()],
        &vec![],
        &vec![],
    );
    let err = match r {
        Err(e) => e,
        Ok(_) => panic!("expected a regex error"),
    };
    assert_eq!(err, ropr::error::Error::RegexErr);
}

#[test]
fn prefixed_instructions_head_gadgets_only_in_noisy_mode() {
    // repne scasb carries a legacy prefix: a head in noisy mode alone
    let bytes = [0xF2, 0xAE, 0xC3];
    let section = Section::new(0, 0x1000, 0, Bitness::Bits64, &bytes).unwrap();
    let dis = ropr::disassembler::Disassembly::new(&section).unwrap();
    let scas = dis.instruction(0).unwrap();
    assert!(scas.valid);
    assert!(scas.prefixes.repne);
    assert!(!is_gadget_head(scas, false));
    assert!(is_gadget_head(scas, true));
    // quiet finds the bare scasb at offset 1 and the lone ret; noisy adds
    // the prefixed form at offset 0
    let quiet = lines_of(&bytes, &Settings::default());
    assert_eq!(quiet.len(), 2);
    let mut st = Settings::default();
    st.noisy = true;
    let noisy = lines_of(&bytes, &st);
    assert_eq!(noisy.len(), 3);
}
