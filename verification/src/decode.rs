use vstd::prelude::*;

use iced_x86::Mnemonic as M;
use iced_x86::OpKind as K;
use iced_x86::Register as R;

use crate::instr::{
    FlowControl, Instr, InstrView, OperandKind, PivotFamily, PrefixFlags, RegFamily, TailMnemonic,
};

verus! {

// The x86 decoder is deterministic: every field of the instruction decoded at
// byte offset `at` of `code` is a function of the bitness and the bytes alone,
// and the rendered text additionally depends on the instruction pointer. The
// names below stand for those functions; the wrappers in this file are the
// only items that apply them.

pub uninterp spec fn decoded_valid(bits: u32, code: Seq<u8>, at: int) -> bool;

pub uninterp spec fn decoded_len(bits: u32, code: Seq<u8>, at: int) -> usize;

pub uninterp spec fn decoded_flow(bits: u32, code: Seq<u8>, at: int) -> FlowControl;

pub uninterp spec fn decoded_mnemonic(bits: u32, code: Seq<u8>, at: int) -> TailMnemonic;

pub uninterp spec fn decoded_pivot(bits: u32, code: Seq<u8>, at: int) -> PivotFamily;

pub uninterp spec fn decoded_op0_kind(bits: u32, code: Seq<u8>, at: int) -> OperandKind;

pub uninterp spec fn decoded_op1_kind(bits: u32, code: Seq<u8>, at: int) -> OperandKind;

pub uninterp spec fn decoded_op0_reg(bits: u32, code: Seq<u8>, at: int) -> RegFamily;

pub uninterp spec fn decoded_op1_reg(bits: u32, code: Seq<u8>, at: int) -> RegFamily;

pub uninterp spec fn decoded_mem_base(bits: u32, code: Seq<u8>, at: int) -> RegFamily;

pub uninterp spec fn decoded_imm0(bits: u32, code: Seq<u8>, at: int) -> u64;

pub uninterp spec fn decoded_prefixes(bits: u32, code: Seq<u8>, at: int) -> PrefixFlags;

pub uninterp spec fn decoded_text(bits: u32, code: Seq<u8>, at: int, ip: u64) -> Seq<char>;

/// The instruction decoded at byte offset `at` of `code`, with the runtime
/// instruction pointer `ip`, as one mathematical value.
pub open spec fn spec_decoded(bits: u32, code: Seq<u8>, at: int, ip: u64) -> InstrView {
    InstrView {
        valid: decoded_valid(bits, code, at),
        len: decoded_len(bits, code, at),
        flow: decoded_flow(bits, code, at),
        mnemonic: decoded_mnemonic(bits, code, at),
        pivot: decoded_pivot(bits, code, at),
        op0_kind: decoded_op0_kind(bits, code, at),
        op1_kind: decoded_op1_kind(bits, code, at),
        op0_reg: decoded_op0_reg(bits, code, at),
        op1_reg: decoded_op1_reg(bits, code, at),
        mem_base: decoded_mem_base(bits, code, at),
        imm0: decoded_imm0(bits, code, at),
        prefixes: decoded_prefixes(bits, code, at),
        text: decoded_text(bits, code, at, ip),
    }
}

/// Relies on iced_x86's Decoder::decode with AMD extensions enabled, and on
/// Instruction::{is_invalid, len, try_immediate, has_lock_prefix,
/// has_rep_prefix, has_repe_prefix, has_repne_prefix, has_xacquire_prefix,
/// has_xrelease_prefix}. A decoded instruction is at most 15 bytes, a valid
/// one at least 1 byte, and the decoder never consumes bytes beyond the
/// buffer. The immediate is 0 when operand 0 carries none.
#[verifier::external_body]
fn decode_core(bits: u32, bytes: &[u8], at: usize) -> (r: (bool, usize, u64, PrefixFlags))
    requires
        bits == 32 || bits == 64,
        at < bytes@.len(),
    ensures
        r.0 == decoded_valid(bits, bytes@, at as int),
        r.1 == decoded_len(bits, bytes@, at as int),
        r.2 == decoded_imm0(bits, bytes@, at as int),
        r.3 == decoded_prefixes(bits, bytes@, at as int),
        r.0 ==> 1 <= r.1 <= 15 && at + r.1 <= bytes@.len(),
{
    let mut decoder = iced_x86::Decoder::new(bits, bytes, iced_x86::DecoderOptions::AMD);
    decoder.try_set_position(at).unwrap();
    let i = decoder.decode();
    let p = PrefixFlags {
        lock: i.has_lock_prefix(),
        rep: i.has_rep_prefix(),
        repe: i.has_repe_prefix(),
        repne: i.has_repne_prefix(),
        xacquire: i.has_xacquire_prefix(),
        xrelease: i.has_xrelease_prefix(),
    };
    (!i.is_invalid(), i.len(), i.try_immediate(0).unwrap_or(0), p)
}

/// Relies on iced_x86's Decoder::decode and Instruction::flow_control,
/// mirroring its category one variant each.
#[verifier::external_body]
fn decode_flow(bits: u32, bytes: &[u8], at: usize) -> (r: FlowControl)
    requires
        bits == 32 || bits == 64,
        at < bytes@.len(),
    ensures
        r == decoded_flow(bits, bytes@, at as int),
{
    let mut decoder = iced_x86::Decoder::new(bits, bytes, iced_x86::DecoderOptions::AMD);
    decoder.try_set_position(at).unwrap();
    match decoder.decode().flow_control() {
        iced_x86::FlowControl::Next => FlowControl::Next,
        iced_x86::FlowControl::UnconditionalBranch => FlowControl::UnconditionalBranch,
        iced_x86::FlowControl::IndirectBranch => FlowControl::IndirectBranch,
        iced_x86::FlowControl::ConditionalBranch => FlowControl::ConditionalBranch,
        iced_x86::FlowControl::Return => FlowControl::Return,
        iced_x86::FlowControl::Call => FlowControl::Call,
        iced_x86::FlowControl::IndirectCall => FlowControl::IndirectCall,
        iced_x86::FlowControl::Interrupt => FlowControl::Interrupt,
        iced_x86::FlowControl::XbeginXabortXend => FlowControl::XbeginXabortXend,
        iced_x86::FlowControl::Exception => FlowControl::Exception,
    }
}

/// Relies on iced_x86's Decoder::decode and Instruction::mnemonic: the five
/// mnemonics that can terminate a gadget, one variant each; every other
/// mnemonic maps to `Other`.
#[verifier::external_body]
fn decode_mnemonic(bits: u32, bytes: &[u8], at: usize) -> (r: TailMnemonic)
    requires
        bits == 32 || bits == 64,
        at < bytes@.len(),
    ensures
        r == decoded_mnemonic(bits, bytes@, at as int),
{
    let mut decoder = iced_x86::Decoder::new(bits, bytes, iced_x86::DecoderOptions::AMD);
    decoder.try_set_position(at).unwrap();
    match decoder.decode().mnemonic() {
        iced_x86::Mnemonic::Ret => TailMnemonic::Ret,
        iced_x86::Mnemonic::Syscall => TailMnemonic::Syscall,
        iced_x86::Mnemonic::Int => TailMnemonic::Int,
        iced_x86::Mnemonic::Jmp => TailMnemonic::Jmp,
        iced_x86::Mnemonic::Call => TailMnemonic::Call,
        _ => TailMnemonic::Other,
    }
}

/// Relies on iced_x86's Decoder::decode and Instruction::mnemonic: the three
/// mnemonic groups of the pivot rules (the arithmetic, conditional-move,
/// compare-exchange and pop group; the mov group; the exchange group); every
/// other mnemonic maps to `Other`.
#[verifier::external_body]
fn decode_pivot(bits: u32, bytes: &[u8], at: usize) -> (r: PivotFamily)
    requires
        bits == 32 || bits == 64,
        at < bytes@.len(),
    ensures
        r == decoded_pivot(bits, bytes@, at as int),
{
    let mut decoder = iced_x86::Decoder::new(bits, bytes, iced_x86::DecoderOptions::AMD);
    decoder.try_set_position(at).unwrap();
    match decoder.decode().mnemonic() {
        M::Adc | M::Adcx | M::Add | M::Sbb | M::Sub | M::Bndmov | M::Cmova | M::Cmovae | M::Cmovb | M::Cmovbe | M::Cmove | M::Cmovg | M::Cmovge | M::Cmovl | M::Cmovle | M::Cmovne | M::Cmovno | M::Cmovnp | M::Cmovns | M::Cmovo | M::Cmovp | M::Cmovs | M::Cmpxchg | M::Cmpxchg16b | M::Cmpxchg8b | M::Pop | M::Popa | M::Popad => PivotFamily::Arith,
        M::Mov | M::Movbe | M::Movd => PivotFamily::MovLike,
        M::Xadd | M::Xchg => PivotFamily::Exchange,
        _ => PivotFamily::Other,
    }
}

/// Relies on iced_x86's Decoder::decode and Instruction::op0_kind: register
/// and plain memory operands one variant each, the immediate variants grouped,
/// the near-branch variants grouped, everything else `Other`.
#[verifier::external_body]
fn decode_op0_kind(bits: u32, bytes: &[u8], at: usize) -> (r: OperandKind)
    requires
        bits == 32 || bits == 64,
        at < bytes@.len(),
    ensures
        r == decoded_op0_kind(bits, bytes@, at as int),
{
    let mut decoder = iced_x86::Decoder::new(bits, bytes, iced_x86::DecoderOptions::AMD);
    decoder.try_set_position(at).unwrap();
    match decoder.decode().op0_kind() {
        K::Register => OperandKind::Register,
        K::Memory => OperandKind::Memory,
        K::Immediate8 | K::Immediate8_2nd | K::Immediate16 | K::Immediate32 | K::Immediate64 | K::Immediate8to16 | K::Immediate8to32 | K::Immediate8to64 | K::Immediate32to64 => OperandKind::Immediate,
        K::NearBranch16 | K::NearBranch32 | K::NearBranch64 => OperandKind::NearBranch,
        _ => OperandKind::Other,
    }
}

/// Relies on iced_x86's Decoder::decode and Instruction::op1_kind, grouped as
/// in `decode_op0_kind`.
#[verifier::external_body]
fn decode_op1_kind(bits: u32, bytes: &[u8], at: usize) -> (r: OperandKind)
    requires
        bits == 32 || bits == 64,
        at < bytes@.len(),
    ensures
        r == decoded_op1_kind(bits, bytes@, at as int),
{
    let mut decoder = iced_x86::Decoder::new(bits, bytes, iced_x86::DecoderOptions::AMD);
    decoder.try_set_position(at).unwrap();
    match decoder.decode().op1_kind() {
        K::Register => OperandKind::Register,
        K::Memory => OperandKind::Memory,
        K::Immediate8 | K::Immediate8_2nd | K::Immediate16 | K::Immediate32 | K::Immediate64 | K::Immediate8to16 | K::Immediate8to32 | K::Immediate8to64 | K::Immediate32to64 => OperandKind::Immediate,
        K::NearBranch16 | K::NearBranch32 | K::NearBranch64 => OperandKind::NearBranch,
        _ => OperandKind::Other,
    }
}

/// Relies on iced_x86's Decoder::decode and Instruction::op0_register: the
/// stack-pointer, base-pointer and instruction-pointer families grouped, the
/// absent register its own variant, everything else `Other`.
#[verifier::external_body]
fn decode_op0_reg(bits: u32, bytes: &[u8], at: usize) -> (r: RegFamily)
    requires
        bits == 32 || bits == 64,
        at < bytes@.len(),
    ensures
        r == decoded_op0_reg(bits, bytes@, at as int),
{
    let mut decoder = iced_x86::Decoder::new(bits, bytes, iced_x86::DecoderOptions::AMD);
    decoder.try_set_position(at).unwrap();
    match decoder.decode().op0_register() {
        R::SP | R::ESP | R::RSP => RegFamily::StackPtr,
        R::BP | R::EBP | R::RBP => RegFamily::BasePtr,
        R::EIP | R::RIP => RegFamily::InstrPtr,
        R::None => RegFamily::NoneReg,
        _ => RegFamily::Other,
    }
}

/// Relies on iced_x86's Decoder::decode and Instruction::op1_register, grouped
/// as in `decode_op0_reg`.
#[verifier::external_body]
fn decode_op1_reg(bits: u32, bytes: &[u8], at: usize) -> (r: RegFamily)
    requires
        bits == 32 || bits == 64,
        at < bytes@.len(),
    ensures
        r == decoded_op1_reg(bits, bytes@, at as int),
{
    let mut decoder = iced_x86::Decoder::new(bits, bytes, iced_x86::DecoderOptions::AMD);
    decoder.try_set_position(at).unwrap();
    match decoder.decode().op1_register() {
        R::SP | R::ESP | R::RSP => RegFamily::StackPtr,
        R::BP | R::EBP | R::RBP => RegFamily::BasePtr,
        R::EIP | R::RIP => RegFamily::InstrPtr,
        R::None => RegFamily::NoneReg,
        _ => RegFamily::Other,
    }
}

/// Relies on iced_x86's Decoder::decode and Instruction::memory_base, grouped
/// as in `decode_op0_reg`.
#[verifier::external_body]
fn decode_mem_base(bits: u32, bytes: &[u8], at: usize) -> (r: RegFamily)
    requires
        bits == 32 || bits == 64,
        at < bytes@.len(),
    ensures
        r == decoded_mem_base(bits, bytes@, at as int),
{
    let mut decoder = iced_x86::Decoder::new(bits, bytes, iced_x86::DecoderOptions::AMD);
    decoder.try_set_position(at).unwrap();
    match decoder.decode().memory_base() {
        R::SP | R::ESP | R::RSP => RegFamily::StackPtr,
        R::BP | R::EBP | R::RBP => RegFamily::BasePtr,
        R::EIP | R::RIP => RegFamily::InstrPtr,
        R::None => RegFamily::NoneReg,
        _ => RegFamily::Other,
    }
}

/// Relies on iced_x86's IntelFormatter: the instruction rendered in Intel
/// syntax with a `0x` hex prefix, no suffix, a space after operand separators,
/// no branch leading zeroes, lowercase hex, and RIP-relative addresses kept.
#[verifier::external_body]
fn decode_text(bits: u32, bytes: &[u8], at: usize, ip: u64) -> (r: String)
    requires
        bits == 32 || bits == 64,
        at < bytes@.len(),
    ensures
        r@ == decoded_text(bits, bytes@, at as int, ip),
{
    let mut decoder = iced_x86::Decoder::new(bits, bytes, iced_x86::DecoderOptions::AMD);
    decoder.try_set_position(at).unwrap();
    decoder.set_ip(ip);
    let instruction = decoder.decode();
    let mut formatter = iced_x86::IntelFormatter::new();
    let options = iced_x86::Formatter::options_mut(&mut formatter);
    options.set_hex_prefix("0x");
    options.set_hex_suffix("");
    options.set_space_after_operand_separator(true);
    options.set_branch_leading_zeros(false);
    options.set_uppercase_hex(false);
    options.set_rip_relative_addresses(true);
    let mut out = String::new();
    iced_x86::Formatter::format(&mut formatter, &instruction, &mut out);
    out
}

/// Decode the instruction starting at byte `at` of `bytes`, assuming the
/// runtime instruction pointer `ip`.
pub fn decode_instr(bits: u32, bytes: &[u8], at: usize, ip: u64) -> (r: Instr)
    requires
        bits == 32 || bits == 64,
        at < bytes@.len(),
    ensures
        r@ == spec_decoded(bits, bytes@, at as int, ip),
        r.valid ==> 1 <= r.len <= 15 && at + r.len <= bytes@.len(),
{
    let (valid, len, imm0, prefixes) = decode_core(bits, bytes, at);
    Instr {
        valid,
        len,
        flow: decode_flow(bits, bytes, at),
        mnemonic: decode_mnemonic(bits, bytes, at),
        pivot: decode_pivot(bits, bytes, at),
        op0_kind: decode_op0_kind(bits, bytes, at),
        op1_kind: decode_op1_kind(bits, bytes, at),
        op0_reg: decode_op0_reg(bits, bytes, at),
        op1_reg: decode_op1_reg(bits, bytes, at),
        mem_base: decode_mem_base(bits, bytes, at),
        imm0,
        prefixes,
        text: decode_text(bits, bytes, at, ip),
    }
}

} // verus!
