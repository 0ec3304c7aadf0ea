use vstd::prelude::*;

verus! {

/// Flow-control category of a decoded instruction, as the decoder reports it.
#[derive(Clone, Copy, Debug, PartialEq, Eq, Structural)]
pub enum FlowControl {
    Next,
    UnconditionalBranch,
    IndirectBranch,
    ConditionalBranch,
    Return,
    Call,
    IndirectCall,
    Interrupt,
    XbeginXabortXend,
    Exception,
}

/// The mnemonics that decide whether an instruction can terminate a gadget.
/// Every other mnemonic is `Other`.
#[derive(Clone, Copy, Debug, PartialEq, Eq, Structural)]
pub enum TailMnemonic {
    Ret,
    Syscall,
    Int,
    Jmp,
    Call,
    Other,
}

/// The mnemonic groups of the pivot rules. `Arith` covers the
/// add/adc/adcx/sbb/sub/bndmov/cmovcc/cmpxchg/pop/popa/popad group,
/// `MovLike` covers mov/movbe/movd, and `Exchange` covers xadd/xchg.
/// Every other mnemonic is `Other`.
#[derive(Clone, Copy, Debug, PartialEq, Eq, Structural)]
pub enum PivotFamily {
    Arith,
    MovLike,
    Exchange,
    Other,
}

/// The operand kinds the rules distinguish: a register operand, a plain
/// memory operand, any immediate variant, a near branch target, and the rest.
#[derive(Clone, Copy, Debug, PartialEq, Eq, Structural)]
pub enum OperandKind {
    Register,
    Memory,
    Immediate,
    NearBranch,
    Other,
}

/// The register families the rules distinguish: the stack-pointer family
/// {sp, esp, rsp}, the base-pointer family {bp, ebp, rbp}, the instruction
/// pointer {eip, rip}, the absent register, and the rest.
#[derive(Clone, Copy, Debug, PartialEq, Eq, Structural)]
pub enum RegFamily {
    StackPtr,
    BasePtr,
    InstrPtr,
    NoneReg,
    Other,
}

/// The legacy prefixes that disqualify an instruction as a gadget head in
/// quiet mode.
#[derive(Clone, Copy, Debug, PartialEq, Eq, Structural)]
pub struct PrefixFlags {
    pub lock: bool,
    pub rep: bool,
    pub repe: bool,
    pub repne: bool,
    pub xacquire: bool,
    pub xrelease: bool,
}

pub open spec fn has_blacklisted_prefix(p: PrefixFlags) -> bool {
    p.lock || p.rep || p.repe || p.repne || p.xacquire || p.xrelease
}

/// One decoded instruction, reduced to the facts the gadget rules read,
/// plus its rendered text.
pub struct Instr {
    pub valid: bool,
    pub len: usize,
    pub flow: FlowControl,
    pub mnemonic: TailMnemonic,
    pub pivot: PivotFamily,
    pub op0_kind: OperandKind,
    pub op1_kind: OperandKind,
    pub op0_reg: RegFamily,
    pub op1_reg: RegFamily,
    pub mem_base: RegFamily,
    pub imm0: u64,
    pub prefixes: PrefixFlags,
    pub text: String,
}

/// The mathematical value of an `Instr`.
#[verifier::ext_equal]
pub struct InstrView {
    pub valid: bool,
    pub len: usize,
    pub flow: FlowControl,
    pub mnemonic: TailMnemonic,
    pub pivot: PivotFamily,
    pub op0_kind: OperandKind,
    pub op1_kind: OperandKind,
    pub op0_reg: RegFamily,
    pub op1_reg: RegFamily,
    pub mem_base: RegFamily,
    pub imm0: u64,
    pub prefixes: PrefixFlags,
    pub text: Seq<char>,
}

impl View for Instr {
    type V = InstrView;

    open spec fn view(&self) -> InstrView {
        InstrView {
            valid: self.valid,
            len: self.len,
            flow: self.flow,
            mnemonic: self.mnemonic,
            pivot: self.pivot,
            op0_kind: self.op0_kind,
            op1_kind: self.op1_kind,
            op0_reg: self.op0_reg,
            op1_reg: self.op1_reg,
            mem_base: self.mem_base,
            imm0: self.imm0,
            prefixes: self.prefixes,
            text: self.text@,
        }
    }
}

impl DeepView for Instr {
    type V = InstrView;

    open spec fn deep_view(&self) -> InstrView {
        self.view()
    }
}

impl Instr {
    /// An explicit copy; the instruction text is cloned.
    pub fn duplicate(&self) -> (r: Instr)
        ensures
            r@ == self@,
    {
        Instr {
            valid: self.valid,
            len: self.len,
            flow: self.flow,
            mnemonic: self.mnemonic,
            pivot: self.pivot,
            op0_kind: self.op0_kind,
            op1_kind: self.op1_kind,
            op0_reg: self.op0_reg,
            op1_reg: self.op1_reg,
            mem_base: self.mem_base,
            imm0: self.imm0,
            prefixes: self.prefixes,
            text: self.text.clone(),
        }
    }

    /// Equality of the mathematical values of two instructions.
    pub fn same_as(&self, other: &Instr) -> (r: bool)
        ensures
            r == (self@ =~= other@),
    {
        self.valid == other.valid && self.len == other.len && self.flow == other.flow
            && self.mnemonic == other.mnemonic && self.pivot == other.pivot
            && self.op0_kind == other.op0_kind && self.op1_kind == other.op1_kind
            && self.op0_reg == other.op0_reg && self.op1_reg == other.op1_reg
            && self.mem_base == other.mem_base && self.imm0 == other.imm0
            && self.prefixes == other.prefixes && self.text == other.text
    }
}

} // verus!
