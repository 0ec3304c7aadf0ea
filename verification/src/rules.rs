use vstd::prelude::*;

use crate::instr::{
    has_blacklisted_prefix, FlowControl, Instr, InstrView, OperandKind, PivotFamily, RegFamily,
    TailMnemonic,
};

verus! {

pub open spec fn spec_is_ret(i: InstrView) -> bool {
    i.mnemonic == TailMnemonic::Ret
}

pub open spec fn spec_is_sys(i: InstrView) -> bool {
    i.mnemonic == TailMnemonic::Syscall || (i.mnemonic == TailMnemonic::Int && i.imm0 == 0x80)
}

/// An indirect jump or call. In quiet mode the branch target must be a
/// register, or memory whose base is not the instruction pointer; in noisy
/// mode anything but a direct near branch qualifies.
pub open spec fn spec_is_jop(i: InstrView, noisy: bool) -> bool {
    (i.mnemonic == TailMnemonic::Jmp || i.mnemonic == TailMnemonic::Call) && (if noisy {
        i.op0_kind != OperandKind::NearBranch
    } else {
        i.op0_kind == OperandKind::Register || (i.op0_kind == OperandKind::Memory
            && i.mem_base != RegFamily::InstrPtr)
    })
}

/// A valid control-transfer instruction of one of the enabled categories can
/// terminate a gadget.
pub open spec fn spec_is_gadget_tail(
    i: InstrView,
    rop: bool,
    sys: bool,
    jop: bool,
    noisy: bool,
) -> bool {
    i.valid && i.flow != FlowControl::Next && ((rop && spec_is_ret(i)) || (sys && spec_is_sys(i))
        || (jop && spec_is_jop(i, noisy)))
}

/// A valid instruction that does not divert control flow can precede the tail
/// of a gadget. Noisy mode also admits conditional branches and instructions
/// carrying legacy prefixes.
pub open spec fn spec_is_gadget_head(i: InstrView, noisy: bool) -> bool {
    i.valid && (noisy || !has_blacklisted_prefix(i.prefixes)) && (i.flow == FlowControl::Next || (
    i.flow == FlowControl::ConditionalBranch && noisy))
}

/// An instruction that overwrites a register of the given family, following
/// the pivot rule table: the arithmetic/conditional-move/exchange-compare/pop
/// group with an immediate or register source, the mov group with a register
/// source or a based memory source, or an exchange naming the family on
/// either side.
pub open spec fn spec_is_pivot_head(i: InstrView, fam: RegFamily) -> bool {
    match i.pivot {
        PivotFamily::Arith => i.op0_reg == fam && (i.op1_kind == OperandKind::Immediate
            || i.op1_kind == OperandKind::Register),
        PivotFamily::MovLike => i.op0_reg == fam && (i.op1_kind == OperandKind::Register
            || i.mem_base != RegFamily::NoneReg),
        PivotFamily::Exchange => i.op0_reg == fam || i.op1_reg == fam,
        PivotFamily::Other => false,
    }
}

pub open spec fn spec_is_stack_pivot_head(i: InstrView) -> bool {
    spec_is_pivot_head(i, RegFamily::StackPtr)
}

pub open spec fn spec_is_stack_pivot_tail(i: InstrView) -> bool {
    spec_is_ret(i)
}

pub open spec fn spec_is_base_pivot_head(i: InstrView) -> bool {
    spec_is_pivot_head(i, RegFamily::BasePtr)
}

pub fn is_gadget_tail(instr: &Instr, rop: bool, sys: bool, jop: bool, noisy: bool) -> (r: bool)
    ensures
        r == spec_is_gadget_tail(instr@, rop, sys, jop, noisy),
{
    if !instr.valid {
        return false;
    }
    if instr.flow == FlowControl::Next {
        return false;
    }
    if rop && instr.mnemonic == TailMnemonic::Ret {
        return true;
    }
    if sys && (instr.mnemonic == TailMnemonic::Syscall || (instr.mnemonic == TailMnemonic::Int
        && instr.imm0 == 0x80)) {
        return true;
    }
    if jop && (instr.mnemonic == TailMnemonic::Jmp || instr.mnemonic == TailMnemonic::Call) {
        if noisy {
            return instr.op0_kind != OperandKind::NearBranch;
        } else {
            return instr.op0_kind == OperandKind::Register || (instr.op0_kind
                == OperandKind::Memory && instr.mem_base != RegFamily::InstrPtr);
        }
    }
    false
}

pub fn is_gadget_head(instr: &Instr, noisy: bool) -> (r: bool)
    ensures
        r == spec_is_gadget_head(instr@, noisy),
{
    if !instr.valid {
        return false;
    }
    if !noisy && (instr.prefixes.lock || instr.prefixes.rep || instr.prefixes.repe
        || instr.prefixes.repne || instr.prefixes.xacquire || instr.prefixes.xrelease) {
        return false;
    }
    match instr.flow {
        FlowControl::Next => true,
        FlowControl::ConditionalBranch => noisy,
        _ => false,
    }
}

fn is_pivot_head(instr: &Instr, fam: RegFamily) -> (r: bool)
    ensures
        r == spec_is_pivot_head(instr@, fam),
{
    match instr.pivot {
        PivotFamily::Arith => instr.op0_reg == fam && (instr.op1_kind == OperandKind::Immediate
            || instr.op1_kind == OperandKind::Register),
        PivotFamily::MovLike => instr.op0_reg == fam && (instr.op1_kind == OperandKind::Register
            || instr.mem_base != RegFamily::NoneReg),
        PivotFamily::Exchange => instr.op0_reg == fam || instr.op1_reg == fam,
        PivotFamily::Other => false,
    }
}

pub fn is_stack_pivot_head(instr: &Instr) -> (r: bool)
    ensures
        r == spec_is_stack_pivot_head(instr@),
{
    is_pivot_head(instr, RegFamily::StackPtr)
}

pub fn is_stack_pivot_tail(instr: &Instr) -> (r: bool)
    ensures
        r == spec_is_stack_pivot_tail(instr@),
{
    instr.mnemonic == TailMnemonic::Ret
}

pub fn is_base_pivot_head(instr: &Instr) -> (r: bool)
    ensures
        r == spec_is_base_pivot_head(instr@),
{
    is_pivot_head(instr, RegFamily::BasePtr)
}

/// Widening the admissibility flags can only admit more tails: if a tail
/// qualifies under `(rop1, sys1, jop1)` and each enabled category stays
/// enabled, it qualifies under `(rop2, sys2, jop2)`.
pub proof fn lemma_tail_flags_monotonic(
    i: InstrView,
    rop1: bool,
    sys1: bool,
    jop1: bool,
    rop2: bool,
    sys2: bool,
    jop2: bool,
    noisy: bool,
)
    requires
        rop1 ==> rop2,
        sys1 ==> sys2,
        jop1 ==> jop2,
        spec_is_gadget_tail(i, rop1, sys1, jop1, noisy),
    ensures
        spec_is_gadget_tail(i, rop2, sys2, jop2, noisy),
{
}

/// Quiet mode admits no tail that noisy mode refuses.
pub proof fn lemma_tail_noisy_monotonic(i: InstrView, rop: bool, sys: bool, jop: bool)
    requires
        spec_is_gadget_tail(i, rop, sys, jop, false),
    ensures
        spec_is_gadget_tail(i, rop, sys, jop, true),
{
}

/// Quiet mode admits no head that noisy mode refuses.
pub proof fn lemma_head_noisy_monotonic(i: InstrView)
    requires
        spec_is_gadget_head(i, false),
    ensures
        spec_is_gadget_head(i, true),
{
}

} // verus!
