use vstd::prelude::*;
use vstd::string::StringExecFns;

use crate::instr::{Instr, InstrView};
use crate::rules::{
    spec_is_base_pivot_head, spec_is_gadget_head, spec_is_stack_pivot_head,
    spec_is_stack_pivot_tail,
};
use crate::rules::{is_base_pivot_head, is_stack_pivot_head, is_stack_pivot_tail};

verus! {

/// An ordered, non-empty instruction sequence whose terminal instruction is a
/// gadget tail and whose prior instructions are gadget heads. Its mathematical
/// value is the sequence of instruction values; the address where it was found
/// travels beside it, so that the same pattern found at several offsets is one
/// value.
pub struct Gadget {
    instructions: Vec<Instr>,
}

impl View for Gadget {
    type V = Seq<InstrView>;

    closed spec fn view(&self) -> Seq<InstrView> {
        self.instructions.deep_view()
    }
}

/// Whether a gadget moves the stack pointer: a lone `ret` tail, or any
/// instruction before the tail that the stack-pivot rule recognises.
pub open spec fn spec_gadget_is_stack_pivot(g: Seq<InstrView>) -> bool {
    if g.len() == 0 {
        false
    } else if g.len() == 1 {
        spec_is_stack_pivot_tail(g[0])
    } else {
        exists|k: int| 0 <= k < g.len() - 1 && spec_is_stack_pivot_head(#[trigger] g[k])
    }
}

/// Whether a gadget moves the base pointer: some instruction before the tail
/// that the base-pivot rule recognises. A singleton gadget never qualifies.
pub open spec fn spec_gadget_is_base_pivot(g: Seq<InstrView>) -> bool {
    g.len() >= 2 && exists|k: int|
        0 <= k < g.len() - 1 && spec_is_base_pivot_head(#[trigger] g[k])
}

impl Gadget {
    pub(crate) fn new(instructions: Vec<Instr>) -> (r: Gadget)
        ensures
            r@ == instructions.deep_view(),
    {
        Gadget { instructions }
    }

    pub fn instructions(&self) -> (r: &Vec<Instr>)
        ensures
            r.deep_view() == self@,
    {
        &self.instructions
    }

    /// An explicit copy of the gadget, value for value.
    pub fn duplicate(&self) -> (r: Gadget)
        ensures
            r@ == self@,
    {
        let mut v: Vec<Instr> = Vec::new();
        let n = self.instructions.len();
        for i in 0..n
            invariant
                n == self.instructions.len(),
                v@.len() == i,
                forall|j: int| 0 <= j < i ==> (#[trigger] v@[j])@ == self.instructions@[j]@,
        {
            v.push(self.instructions[i].duplicate());
        }
        assert(v.deep_view() =~= self.instructions.deep_view());
        Gadget { instructions: v }
    }

    /// Value equality of two gadgets: same instruction sequence, address aside.
    pub fn same_as(&self, other: &Gadget) -> (r: bool)
        ensures
            r == (self@ =~= other@),
    {
        if self.instructions.len() != other.instructions.len() {
            assert(self@.len() != other@.len());
            return false;
        }
        let n = self.instructions.len();
        for i in 0..n
            invariant
                n == self.instructions.len() == other.instructions.len(),
                forall|j: int| 0 <= j < i ==> self@[j] =~= other@[j],
        {
            if !self.instructions[i].same_as(&other.instructions[i]) {
                assert(self@[i as int] != other@[i as int]);
                return false;
            }
        }
        assert(self@ =~= other@);
        true
    }

    pub fn is_stack_pivot(&self) -> (r: bool)
        ensures
            r == spec_gadget_is_stack_pivot(self@),
    {
        let n = self.instructions.len();
        if n == 0 {
            return false;
        }
        if n == 1 {
            return is_stack_pivot_tail(&self.instructions[0]);
        }
        for k in 0..n - 1
            invariant
                n == self.instructions.len(),
                n >= 2,
                forall|j: int| 0 <= j < k ==> !spec_is_stack_pivot_head(#[trigger] self@[j]),
        {
            if is_stack_pivot_head(&self.instructions[k]) {
                assert(self@[k as int] == self.instructions@[k as int]@);
                assert(spec_is_stack_pivot_head(self@[k as int]));
                return true;
            }
        }
        false
    }

    pub fn is_base_pivot(&self) -> (r: bool)
        ensures
            r == spec_gadget_is_base_pivot(self@),
    {
        let n = self.instructions.len();
        if n <= 1 {
            return false;
        }
        for k in 0..n - 1
            invariant
                n == self.instructions.len(),
                n >= 2,
                forall|j: int| 0 <= j < k ==> !spec_is_base_pivot_head(#[trigger] self@[j]),
        {
            if is_base_pivot_head(&self.instructions[k]) {
                assert(self@[k as int] == self.instructions@[k as int]@);
                assert(spec_is_base_pivot_head(self@[k as int]));
                return true;
            }
        }
        false
    }
}

/// The rendered text of a gadget's instructions, address aside: each
/// instruction's text terminated by `;`, with a single space between
/// instructions.
pub open spec fn spec_gadget_text(g: Seq<InstrView>) -> Seq<char>
    decreases g.len(),
{
    if g.len() == 0 {
        Seq::empty()
    } else if g.len() == 1 {
        g[0].text + seq![';']
    } else {
        g[0].text + seq![';', ' '] + spec_gadget_text(g.drop_first())
    }
}

impl Gadget {
    /// Render the gadget's instruction text, without its address.
    pub fn format_instruction(&self) -> (r: String)
        ensures
            r@ == spec_gadget_text(self@),
    {
        let mut out = String::new();
        let n = self.instructions.len();
        proof {
            assert(self@.skip(0) =~= self@);
        }
        for i in 0..n
            invariant
                n == self.instructions.len(),
                spec_gadget_text(self@) =~= out@ + spec_gadget_text(self@.skip(i as int)),
        {
            let ghost pre = out@;
            out.append(self.instructions[i].text.as_str());
            proof {
                assert(self@[i as int] == self.instructions@[i as int]@);
                assert(self@.skip(i as int)[0] == self@[i as int]);
                assert(self@.skip(i as int).drop_first() =~= self@.skip(i + 1));
            }
            if i + 1 < n {
                out.append("; ");
                proof {
                    reveal_strlit("; ");
                    assert("; "@ =~= seq![';', ' ']);
                    assert(out@ =~= pre + self@[i as int].text + seq![';', ' ']);
                }
            } else {
                out.append(";");
                proof {
                    reveal_strlit(";");
                    assert(";"@ =~= seq![';']);
                    assert(out@ =~= pre + self@[i as int].text + seq![';']);
                    assert(self@.skip(i as int).len() == 1);
                }
            }
        }
        proof {
            assert(spec_gadget_text(self@.skip(n as int)) =~= Seq::<char>::empty());
            assert(out@ + Seq::<char>::empty() =~= out@);
        }
        out
    }
}

/// The mathematical value of a found-gadget list: each gadget's instruction
/// sequence beside the address of its first byte.
pub open spec fn glist(v: Seq<(Gadget, usize)>) -> Seq<(Seq<InstrView>, int)> {
    Seq::new(v.len(), |i: int| (v[i].0@, v[i].1 as int))
}

/// Prefix a known head sequence onto the outcome of a further walk.
pub open spec fn compose_chain(a: Seq<InstrView>, o: Option<Seq<InstrView>>) -> Option<
    Seq<InstrView>,
> {
    match o {
        Some(rest) => Some(a + rest),
        None => None,
    }
}

/// The head chain built backward from start `s` toward the tail at `t`:
/// `Some` exactly when successive gadget heads starting at `s` land on `t`
/// using at most `budget` instructions.
pub open spec fn spec_heads_chain(
    cache: Seq<InstrView>,
    s: int,
    t: int,
    budget: int,
    noisy: bool,
) -> Option<Seq<InstrView>>
    decreases t - s,
{
    if s == t {
        Some(Seq::empty())
    } else if !(0 <= s < t) || budget <= 0 {
        None
    } else {
        let i = cache[s];
        if spec_is_gadget_head(i, noisy) && 1 <= i.len && s + i.len <= t {
            match spec_heads_chain(cache, s + i.len, t, budget - 1, noisy) {
                Some(rest) => Some(seq![i] + rest),
                None => None,
            }
        } else {
            None
        }
    }
}

/// The gadget starting at `s` and ending on the tail at `t`, if the head
/// chain exists within `max` instructions in all.
pub open spec fn spec_gadget_at(
    cache: Seq<InstrView>,
    s: int,
    t: int,
    max: int,
    noisy: bool,
) -> Option<Seq<InstrView>> {
    match spec_heads_chain(cache, s, t, max - 1, noisy) {
        Some(h) => Some(h.push(cache[t])),
        None => None,
    }
}

/// All gadgets ending on the tail at `t` whose start lies in `[lo, hi)`,
/// ascending by start, each paired with its address `base + start`.
pub open spec fn spec_tail_gadgets(
    cache: Seq<InstrView>,
    base: int,
    t: int,
    max: int,
    noisy: bool,
    lo: int,
    hi: int,
) -> Seq<(Seq<InstrView>, int)>
    decreases hi - lo,
{
    if lo >= hi {
        Seq::empty()
    } else {
        spec_tail_gadgets(cache, base, t, max, noisy, lo, hi - 1) + (match spec_gadget_at(
            cache,
            hi - 1,
            t,
            max,
            noisy,
        ) {
            Some(g) => seq![(g, base + hi - 1)],
            None => Seq::empty(),
        })
    }
}

/// The total byte length of an instruction sequence.
pub open spec fn spec_byte_len(g: Seq<InstrView>) -> int
    decreases g.len(),
{
    if g.len() == 0 {
        0
    } else {
        g[0].len + spec_byte_len(g.drop_first())
    }
}

/// Every instruction of a head chain is a gadget head, the chain is no longer
/// than its budget, and its bytes cover `[s, t)` exactly.
pub proof fn lemma_heads_chain_props(
    cache: Seq<InstrView>,
    s: int,
    t: int,
    budget: int,
    noisy: bool,
)
    requires
        spec_heads_chain(cache, s, t, budget, noisy) is Some,
    ensures
        ({
            let h = spec_heads_chain(cache, s, t, budget, noisy)->Some_0;
            &&& forall|j: int| 0 <= j < h.len() ==> spec_is_gadget_head(#[trigger] h[j], noisy)
            &&& h.len() <= (if budget >= 0 { budget } else { 0 })
            &&& spec_byte_len(h) == t - s
            &&& s <= t
        }),
    decreases t - s,
{
    let h = spec_heads_chain(cache, s, t, budget, noisy)->Some_0;
    if s == t {
        assert(spec_byte_len(h) == 0);
    } else {
        let i = cache[s];
        let rest = spec_heads_chain(cache, s + i.len, t, budget - 1, noisy)->Some_0;
        lemma_heads_chain_props(cache, s + i.len, t, budget - 1, noisy);
        assert(h == seq![i] + rest);
        assert(h.drop_first() =~= rest);
        assert(forall|j: int|
            0 <= j < h.len() ==> #[trigger] h[j] == if j == 0 {
                i
            } else {
                rest[j - 1]
            });
    }
}

/// A gadget found in `[lo, hi)` is non-empty, at most `max` instructions
/// long, ends in the tail instruction, all its prior instructions are heads,
/// and its bytes stay between its start and the end of the tail.
pub proof fn lemma_gadget_at_props(cache: Seq<InstrView>, s: int, t: int, max: int, noisy: bool)
    requires
        spec_gadget_at(cache, s, t, max, noisy) is Some,
        max >= 1,
    ensures
        ({
            let g = spec_gadget_at(cache, s, t, max, noisy)->Some_0;
            &&& 1 <= g.len() <= max
            &&& g.last() == cache[t]
            &&& forall|j: int| 0 <= j < g.len() - 1 ==> spec_is_gadget_head(#[trigger] g[j], noisy)
            &&& spec_byte_len(g) == t - s + cache[t].len
            &&& s <= t
        }),
{
    let h = spec_heads_chain(cache, s, t, max - 1, noisy)->Some_0;
    let g = spec_gadget_at(cache, s, t, max, noisy)->Some_0;
    lemma_heads_chain_props(cache, s, t, max - 1, noisy);
    assert(g == h.push(cache[t]));
    assert(forall|j: int| 0 <= j < g.len() - 1 ==> g[j] == h[j]);
    lemma_byte_len_push(h, cache[t]);
}

proof fn lemma_byte_len_push(h: Seq<InstrView>, x: InstrView)
    ensures
        spec_byte_len(h.push(x)) == spec_byte_len(h) + x.len,
    decreases h.len(),
{
    if h.len() == 0 {
        assert(h.push(x).drop_first() =~= Seq::<InstrView>::empty());
        assert(spec_byte_len(h.push(x)) == x.len + spec_byte_len(h.push(x).drop_first()));
    } else {
        assert(h.push(x).drop_first() =~= h.drop_first().push(x));
        lemma_byte_len_push(h.drop_first(), x);
    }
}

/// Relaxing quiet mode to noisy mode keeps every head chain, unchanged.
pub proof fn lemma_heads_chain_noisy_monotonic(
    cache: Seq<InstrView>,
    s: int,
    t: int,
    budget: int,
)
    requires
        spec_heads_chain(cache, s, t, budget, false) is Some,
    ensures
        spec_heads_chain(cache, s, t, budget, true) == spec_heads_chain(
            cache,
            s,
            t,
            budget,
            false,
        ),
    decreases t - s,
{
    if s == t {
    } else {
        let i = cache[s];
        crate::rules::lemma_head_noisy_monotonic(i);
        lemma_heads_chain_noisy_monotonic(cache, s + i.len, t, budget - 1);
    }
}

/// Relaxing quiet mode to noisy mode keeps every gadget, unchanged.
pub proof fn lemma_gadget_at_noisy_monotonic(cache: Seq<InstrView>, s: int, t: int, max: int)
    requires
        spec_gadget_at(cache, s, t, max, false) is Some,
    ensures
        spec_gadget_at(cache, s, t, max, true) == spec_gadget_at(cache, s, t, max, false),
{
    lemma_heads_chain_noisy_monotonic(cache, s, t, max - 1);
}

/// Membership in the per-tail list: exactly the pairs whose start lies in
/// `[lo, hi)` and whose gadget exists.
pub proof fn lemma_tail_gadgets_membership(
    cache: Seq<InstrView>,
    base: int,
    t: int,
    max: int,
    noisy: bool,
    lo: int,
    hi: int,
    p: (Seq<InstrView>, int),
)
    ensures
        spec_tail_gadgets(cache, base, t, max, noisy, lo, hi).contains(p) <==> exists|s: int|
            lo <= s < hi && spec_gadget_at(cache, s, t, max, noisy) == Some(p.0) && p.1 == base
                + s,
    decreases hi - lo,
{
    let l = spec_tail_gadgets(cache, base, t, max, noisy, lo, hi);
    if lo >= hi {
        assert(l.len() == 0);
        assert(!l.contains(p));
    } else {
        let prev = spec_tail_gadgets(cache, base, t, max, noisy, lo, hi - 1);
        lemma_tail_gadgets_membership(cache, base, t, max, noisy, lo, hi - 1, p);
        match spec_gadget_at(cache, hi - 1, t, max, noisy) {
            Some(g) => {
                assert(l == prev + seq![(g, base + hi - 1)]);
                if l.contains(p) {
                    let j = choose|j: int| 0 <= j < l.len() && l[j] == p;
                    if j < prev.len() {
                        assert(prev.contains(p));
                    } else {
                        assert(p == (g, base + hi - 1));
                        assert(spec_gadget_at(cache, hi - 1, t, max, noisy) == Some(p.0) && p.1
                            == base + hi - 1);
                    }
                }
                if exists|s: int|
                    lo <= s < hi && spec_gadget_at(cache, s, t, max, noisy) == Some(p.0) && p.1
                        == base + s {
                    let s = choose|s: int|
                        lo <= s < hi && spec_gadget_at(cache, s, t, max, noisy) == Some(p.0)
                            && p.1 == base + s;
                    if s < hi - 1 {
                        assert(prev.contains(p));
                        let j = choose|j: int| 0 <= j < prev.len() && prev[j] == p;
                        assert(l[j] == p);
                    } else {
                        assert(l[l.len() - 1] == p);
                    }
                }
            },
            None => {
                assert(l =~= prev);
                if exists|s: int|
                    lo <= s < hi && spec_gadget_at(cache, s, t, max, noisy) == Some(p.0) && p.1
                        == base + s {
                    let s = choose|s: int|
                        lo <= s < hi && spec_gadget_at(cache, s, t, max, noisy) == Some(p.0)
                            && p.1 == base + s;
                    assert(s < hi - 1 || s == hi - 1);
                    assert(s < hi - 1);
                }
            },
        }
    }
}

} // verus!
