use vstd::prelude::*;

use crate::binary::{Bitness, Section};
use crate::decode::{decode_instr, spec_decoded};
use crate::gadgets::{
    compose_chain, glist, spec_gadget_at, spec_heads_chain, spec_tail_gadgets, Gadget,
};
use crate::instr::{Instr, InstrView};
use crate::rules::{is_gadget_head, is_gadget_tail, spec_is_gadget_tail};

verus! {

/// An x86 instruction is at most this many bytes long.
pub const MAX_INSTRUCTION_LENGTH: usize = 15;

/// The instruction decoded at every byte offset of a section: entry `k` is
/// the instruction starting at byte `k`, decoded with instruction pointer
/// `base + k`.
pub open spec fn spec_cache(bits: u32, code: Seq<u8>, base: int) -> Seq<InstrView> {
    Seq::new(code.len(), |k: int| spec_decoded(bits, code, k, (base + k) as u64))
}

/// Every valid cached instruction is 1 to 15 bytes long and lies inside the
/// section.
pub open spec fn cache_lens_ok(cache: Seq<InstrView>) -> bool {
    forall|k: int|
        0 <= k < cache.len() && (#[trigger] cache[k]).valid ==> 1 <= cache[k].len <= 15 && k
            + cache[k].len <= cache.len()
}

/// The lowest start offset worth trying for a gadget ending at `t`: each of
/// the at most `max - 1` head instructions covers at most 15 bytes.
pub open spec fn spec_lo(t: int, max: int) -> int {
    if t - (max - 1) * MAX_INSTRUCTION_LENGTH < 0 {
        0
    } else {
        t - (max - 1) * MAX_INSTRUCTION_LENGTH
    }
}

#[verifier::ext_equal]
pub struct DisassemblyView {
    pub bits: u32,
    pub bytes: Seq<u8>,
    pub base: int,
    pub cache: Seq<InstrView>,
}

pub open spec fn disassembly_wf(d: DisassemblyView) -> bool {
    &&& d.bits == 32 || d.bits == 64
    &&& d.bytes.len() > 0
    &&& 0 <= d.base
    &&& d.base + d.bytes.len() <= usize::MAX
    &&& d.cache == spec_cache(d.bits, d.bytes, d.base)
    &&& d.cache.len() == d.bytes.len()
    &&& cache_lens_ok(d.cache)
}

/// The linear decoder over one section's bytes: decode the instruction that
/// starts at a given byte offset, assuming a given instruction pointer.
pub struct Disassembler<'b> {
    bits: u32,
    bytes: &'b [u8],
}

impl<'b> Disassembler<'b> {
    #[verifier::type_invariant]
    spec fn type_wf(self) -> bool {
        self.bits == 32 || self.bits == 64
    }

    pub fn new(bitness: Bitness, bytes: &'b [u8]) -> (r: Disassembler<'b>)
        ensures
            r.bits() == bitness.spec_bits(),
            r.code() == bytes@,
    {
        Disassembler { bits: bitness.bits(), bytes }
    }

    pub closed spec fn bits(&self) -> u32 {
        self.bits
    }

    pub closed spec fn code(&self) -> Seq<u8> {
        self.bytes@
    }

    /// Decode the instruction starting at byte `offset`, assuming the runtime
    /// instruction pointer `ip`.
    pub fn decode_at_offset(&self, ip: u64, offset: usize) -> (r: Instr)
        requires
            offset < self.code().len(),
        ensures
            r@ == spec_decoded(self.bits(), self.code(), offset as int, ip),
            r.valid ==> 1 <= r.len <= 15 && offset + r.len <= self.code().len(),
    {
        proof {
            use_type_invariant(self);
        }
        decode_instr(self.bits, self.bytes, offset, ip)
    }
}

/// A section's bytes together with the instruction decoded at every byte
/// offset, cached once and then read by the gadget search.
pub struct Disassembly<'b> {
    bytes: &'b [u8],
    instructions: Vec<Instr>,
    file_offset: usize,
    bits: u32,
}

impl<'b> View for Disassembly<'b> {
    type V = DisassemblyView;

    closed spec fn view(&self) -> DisassemblyView {
        DisassemblyView {
            bits: self.bits,
            bytes: self.bytes@,
            base: self.file_offset as int,
            cache: self.instructions.deep_view(),
        }
    }
}

impl<'b> Disassembly<'b> {
    #[verifier::type_invariant]
    spec fn type_wf(self) -> bool {
        disassembly_wf(self@)
    }

    /// Every disassembly value is well-formed; this hands the fact to callers.
    pub fn lemma_wf(&self) -> (r: Ghost<bool>)
        ensures
            disassembly_wf(self@),
    {
        proof {
            use_type_invariant(self);
        }
        Ghost(true)
    }

    /// Decode the whole section, one instruction per byte offset. Empty
    /// sections yield nothing.
    pub fn new(section: &Section<'b>) -> (r: Option<Disassembly<'b>>)
        ensures
            r is Some <==> section@.bytes.len() > 0,
            r matches Some(d) ==> d@ == (DisassemblyView {
                bits: section@.bits,
                bytes: section@.bytes,
                base: section@.program_base + section@.section_vaddr,
                cache: spec_cache(
                    section@.bits,
                    section@.bytes,
                    section@.program_base + section@.section_vaddr,
                ),
            }),
    {
        let _ = section.lemma_wf();
        let bytes = section.bytes();
        if bytes.len() == 0 {
            return None;
        }
        let bits = section.bitness().bits();
        let base = section.program_base() + section.section_vaddr();
        let n = bytes.len();
        let decoder = Disassembler::new(section.bitness(), bytes);
        let mut instructions: Vec<Instr> = Vec::new();
        #[verifier::loop_isolation(false)]
        for k in 0..n
            invariant
                decoder.bits() == bits,
                decoder.code() == bytes@,
                instructions@.len() == k,
                forall|j: int|
                    0 <= j < k ==> (#[trigger] instructions@[j])@ == spec_decoded(
                        bits,
                        bytes@,
                        j,
                        (base + j) as u64,
                    ),
                forall|j: int|
                    0 <= j < k ==> ((#[trigger] instructions@[j]).valid ==> 1
                        <= instructions@[j].len <= 15 && j + instructions@[j].len <= n),
        {
            let ins = decoder.decode_at_offset((base + k) as u64, k);
            instructions.push(ins);
        }
        proof {
            assert(instructions.deep_view() =~= spec_cache(bits, bytes@, base as int));
            assert(cache_lens_ok(instructions.deep_view()));
        }
        let d = Disassembly { bytes, instructions, file_offset: base, bits };
        Some(d)
    }

    pub fn bytes(&self) -> (r: &'b [u8])
        ensures
            r@ == self@.bytes,
    {
        self.bytes
    }

    /// The runtime address of the section's first byte
    /// (`program_base + section_vaddr`).
    pub fn file_offset(&self) -> (r: usize)
        ensures
            r as int == self@.base,
    {
        self.file_offset
    }

    pub fn instruction(&self, index: usize) -> (r: Option<&Instr>)
        ensures
            index < self@.cache.len() ==> (r matches Some(i) && i@ == self@.cache[index as int]),
            index >= self@.cache.len() ==> r is None,
    {
        proof {
            use_type_invariant(self);
        }
        if index < self.instructions.len() {
            let i = &self.instructions[index];
            assert(i@ == self@.cache[index as int]);
            Some(i)
        } else {
            None
        }
    }

    /// Whether the instruction at this byte offset can terminate a gadget
    /// under the given flags.
    pub fn is_tail_at(&self, index: usize, rop: bool, sys: bool, jop: bool, noisy: bool) -> (r:
        bool)
        requires
            index < self@.cache.len(),
        ensures
            r == spec_is_gadget_tail(self@.cache[index as int], rop, sys, jop, noisy),
    {
        proof {
            use_type_invariant(self);
        }
        let i = &self.instructions[index];
        assert(i@ == self@.cache[index as int]);
        is_gadget_tail(i, rop, sys, jop, noisy)
    }

    /// Every gadget of at most `max_instructions` instructions that ends
    /// exactly on the tail at `tail_index`, each with the runtime address of
    /// its first byte, ascending by address.
    #[verifier::loop_isolation(false)]
    pub fn gadgets_from_tail(
        &self,
        tail_index: usize,
        max_instructions: usize,
        noisy: bool,
    ) -> (r: Vec<(Gadget, usize)>)
        requires
            tail_index < self@.cache.len(),
            max_instructions >= 1,
        ensures
            glist(r@) == spec_tail_gadgets(
                self@.cache,
                self@.base,
                tail_index as int,
                max_instructions as int,
                noisy,
                spec_lo(tail_index as int, max_instructions as int),
                tail_index + 1,
            ),
    {
        proof {
            use_type_invariant(self);
        }
        let ghost cache = self@.cache;
        let ghost base = self@.base;
        let t = tail_index;
        let max = max_instructions;

        let lo: usize;
        if t / 15 < max - 1 {
            lo = 0;
            proof {
                assert(t < (max - 1) * 15) by (nonlinear_arith)
                    requires
                        t / 15 < max - 1,
                        t >= 0,
                        t / 15 == t as int / 15,
                ;
                assert(spec_lo(t as int, max as int) == 0);
            }
        } else {
            let m1 = max - 1;
            proof {
                assert(m1 * 15 <= t) by (nonlinear_arith)
                    requires
                        m1 <= t / 15,
                        t >= 0,
                        t / 15 == t as int / 15,
                ;
            }
            lo = t - m1 * 15;
            proof {
                assert(lo as int == spec_lo(t as int, max as int));
            }
        }

        let mut out: Vec<(Gadget, usize)> = Vec::new();
        proof {
            assert(glist(out@) =~= spec_tail_gadgets(
                cache,
                base,
                t as int,
                max as int,
                noisy,
                lo as int,
                lo as int,
            ));
        }
        let mut s = lo;
        while s <= t
            invariant
                lo <= s <= t + 1,
                glist(out@) == spec_tail_gadgets(
                    cache,
                    base,
                    t as int,
                    max as int,
                    noisy,
                    lo as int,
                    s as int,
                ),
            decreases t + 1 - s,
        {
            // try to build the gadget that starts at s
            let mut instrs: Vec<Instr> = Vec::new();
            let mut cursor = s;
            let mut ok = true;
            while cursor < t && ok
                invariant
                    s <= cursor,
                    cursor <= t + 15,
                    instrs@.len() <= max - 1,
                    ok ==> spec_heads_chain(cache, s as int, t as int, max - 1, noisy)
                        == compose_chain(
                        instrs.deep_view(),
                        spec_heads_chain(
                            cache,
                            cursor as int,
                            t as int,
                            max - 1 - instrs@.len(),
                            noisy,
                        ),
                    ),
                    !ok ==> spec_heads_chain(cache, s as int, t as int, max - 1, noisy) is None,
                decreases t + 16 - cursor + (if ok {
                    1int
                } else {
                    0int
                }),
            {
                if instrs.len() == max - 1 {
                    proof {
                        assert(spec_heads_chain(cache, cursor as int, t as int, 0, noisy)
                            is None);
                    }
                    ok = false;
                } else {
                    let ins = &self.instructions[cursor];
                    assert(ins@ == cache[cursor as int]);
                    if !is_gadget_head(ins, noisy) {
                        proof {
                            assert(spec_heads_chain(
                                cache,
                                cursor as int,
                                t as int,
                                max - 1 - instrs@.len(),
                                noisy,
                            ) is None);
                        }
                        ok = false;
                    } else {
                        let l = ins.len;
                        let ghost old_instrs = instrs.deep_view();
                        let ghost old_cursor = cursor as int;
                        let ghost budget = max - 1 - instrs@.len();
                        instrs.push(ins.duplicate());
                        cursor = cursor + l;
                        proof {
                            assert(instrs.deep_view() =~= old_instrs.push(cache[old_cursor]));
                            if cursor as int > t as int {
                                assert(spec_heads_chain(
                                    cache,
                                    old_cursor,
                                    t as int,
                                    budget,
                                    noisy,
                                ) is None);
                                assert(spec_heads_chain(
                                    cache,
                                    cursor as int,
                                    t as int,
                                    budget - 1,
                                    noisy,
                                ) is None);
                            } else {
                                assert(spec_heads_chain(cache, old_cursor, t as int, budget, noisy)
                                    == compose_chain(
                                    seq![cache[old_cursor]],
                                    spec_heads_chain(
                                        cache,
                                        cursor as int,
                                        t as int,
                                        budget - 1,
                                        noisy,
                                    ),
                                ));
                            }
                            assert forall|o: Option<Seq<InstrView>>|
                                compose_chain(
                                    old_instrs,
                                    compose_chain(seq![cache[old_cursor]], o),
                                ) == compose_chain(
                                    old_instrs.push(cache[old_cursor]),
                                    o,
                                ) by {
                                match o {
                                    Some(rest) => {
                                        assert(old_instrs + (seq![cache[old_cursor]] + rest)
                                            =~= old_instrs.push(cache[old_cursor]) + rest);
                                    },
                                    None => {},
                                }
                            }
                        }
                    }
                }
            }
            // the walk landed exactly on the tail: emit the gadget
            if ok && cursor == t {
                proof {
                    assert(spec_heads_chain(cache, cursor as int, t as int, max - 1 - instrs@.len(), noisy)
                        == Some(Seq::<InstrView>::empty()));
                    assert(instrs.deep_view() + Seq::<InstrView>::empty() =~= instrs.deep_view());
                    assert(spec_heads_chain(cache, s as int, t as int, max - 1, noisy) == Some(
                        instrs.deep_view(),
                    ));
                }
                let tail = &self.instructions[t];
                assert(tail@ == cache[t as int]);
                let mut ginstrs = instrs;
                ginstrs.push(tail.duplicate());
                proof {
                    assert(ginstrs.deep_view() =~= spec_heads_chain(
                        cache,
                        s as int,
                        t as int,
                        max - 1,
                        noisy,
                    )->Some_0.push(cache[t as int]));
                }
                let g = Gadget::new(ginstrs);
                let addr = self.file_offset + s;
                let ghost old_out = glist(out@);
                out.push((g, addr));
                proof {
                    assert(spec_gadget_at(cache, s as int, t as int, max as int, noisy) == Some(
                        g@,
                    ));
                    assert(glist(out@) =~= old_out + seq![(g@, base + s)]);
                    assert(glist(out@) == spec_tail_gadgets(
                        cache,
                        base,
                        t as int,
                        max as int,
                        noisy,
                        lo as int,
                        s + 1,
                    ));
                }
            } else {
                proof {
                    if ok {
                        assert(cursor as int != t as int);
                        assert(spec_heads_chain(
                            cache,
                            cursor as int,
                            t as int,
                            max - 1 - instrs@.len(),
                            noisy,
                        ) is None);
                    }
                    assert(spec_heads_chain(cache, s as int, t as int, max - 1, noisy) is None);
                    assert(spec_gadget_at(cache, s as int, t as int, max as int, noisy) is None);
                    assert(glist(out@) == spec_tail_gadgets(
                        cache,
                        base,
                        t as int,
                        max as int,
                        noisy,
                        lo as int,
                        s + 1,
                    ));
                }
            }
            s = s + 1;
        }
        out
    }
}

} // verus!
