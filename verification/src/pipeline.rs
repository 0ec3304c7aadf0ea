use vstd::prelude::*;

use crate::binary::{secs_view, Section, SectionView};
use crate::disassembler::{spec_cache, spec_lo, Disassembly};
use crate::error::Error;
use crate::gadgets::{
    glist, spec_gadget_is_base_pivot, spec_gadget_is_stack_pivot, spec_gadget_text,
    spec_tail_gadgets, Gadget,
};
use crate::instr::InstrView;
use crate::rules::spec_is_gadget_tail;
use crate::settings::Settings;

verus! {

// ---------------------------------------------------------------------------
// regular expressions, behind trusted wrappers
// ---------------------------------------------------------------------------

/// Whether a pattern is a valid regular expression: a function of the
/// pattern alone.
pub uninterp spec fn re_ok(pattern: Seq<char>) -> bool;

/// Whether a valid pattern matches a text: a function of the pattern and the
/// text alone.
pub uninterp spec fn re_match(pattern: Seq<char>, text: Seq<char>) -> bool;

/// Relies on regex::Regex::new: whether a pattern compiles depends on the
/// pattern alone.
#[verifier::external_body]
fn regex_compiles(pattern: &str) -> (r: bool)
    ensures
        r == re_ok(pattern@),
{
    regex::Regex::new(pattern).is_ok()
}

/// Relies on regex::Regex::new and regex::Regex::is_match: whether a valid
/// pattern matches a text depends on the pattern and the text alone.
#[verifier::external_body]
fn regex_is_match(pattern: &str, text: &str) -> (r: bool)
    requires
        re_ok(pattern@),
    ensures
        r == re_match(pattern@, text@),
{
    regex::Regex::new(pattern).unwrap().is_match(text)
}

pub open spec fn spec_all_re_ok(patterns: Seq<Seq<char>>) -> bool {
    forall|i: int| 0 <= i < patterns.len() ==> re_ok(#[trigger] patterns[i])
}

// ---------------------------------------------------------------------------
// the stages of the pipeline, as mathematical functions
// ---------------------------------------------------------------------------

/// Stage one: every gadget of every tail of every section, in section order,
/// then tail order, then start order.
pub open spec fn spec_section_found(
    cache: Seq<InstrView>,
    base: int,
    st: Settings,
    hi: int,
) -> Seq<(Seq<InstrView>, int)>
    decreases hi,
{
    if hi <= 0 {
        Seq::empty()
    } else {
        spec_section_found(cache, base, st, hi - 1) + (if spec_is_gadget_tail(
            cache[hi - 1],
            st.rop,
            st.sys,
            st.jop,
            st.noisy,
        ) {
            spec_tail_gadgets(
                cache,
                base,
                hi - 1,
                st.max_instructions as int,
                st.noisy,
                spec_lo(hi - 1, st.max_instructions as int),
                hi,
            )
        } else {
            Seq::empty()
        })
    }
}

/// What one section contributes: nothing when it is empty, else every gadget
/// of its disassembly cache.
pub open spec fn spec_section_found_of(s: SectionView, st: Settings) -> Seq<(Seq<InstrView>, int)> {
    if s.bytes.len() == 0 {
        Seq::empty()
    } else {
        spec_section_found(
            spec_cache(s.bits, s.bytes, s.program_base + s.section_vaddr),
            s.program_base + s.section_vaddr,
            st,
            s.bytes.len() as int,
        )
    }
}

pub open spec fn spec_found(secs: Seq<SectionView>, st: Settings, k: int) -> Seq<
    (Seq<InstrView>, int),
>
    decreases k,
{
    if k <= 0 {
        Seq::empty()
    } else {
        spec_found(secs, st, k - 1) + spec_section_found_of(secs[k - 1], st)
    }
}

/// Stage two: the address-range filter. An empty range list keeps everything;
/// otherwise a gadget's address must fall in some inclusive range.
pub open spec fn spec_in_ranges(ranges: Seq<(usize, usize)>, addr: int) -> bool {
    ranges.len() == 0 || exists|i: int|
        0 <= i < ranges.len() && (#[trigger] ranges[i]).0 <= addr && addr <= ranges[i].1
}

pub open spec fn spec_range_filter(
    l: Seq<(Seq<InstrView>, int)>,
    ranges: Seq<(usize, usize)>,
) -> Seq<(Seq<InstrView>, int)>
    decreases l.len(),
{
    if l.len() == 0 {
        Seq::empty()
    } else {
        spec_range_filter(l.drop_last(), ranges) + (if spec_in_ranges(ranges, l.last().1) {
            seq![l.last()]
        } else {
            Seq::empty()
        })
    }
}

/// Stage three: deduplication by instruction sequence; the first occurrence
/// keeps its address.
pub open spec fn spec_has_gadget(l: Seq<(Seq<InstrView>, int)>, g: Seq<InstrView>) -> bool {
    exists|i: int| 0 <= i < l.len() && (#[trigger] l[i]).0 == g
}

pub open spec fn spec_dedup(l: Seq<(Seq<InstrView>, int)>) -> Seq<(Seq<InstrView>, int)>
    decreases l.len(),
{
    if l.len() == 0 {
        Seq::empty()
    } else {
        let prev = spec_dedup(l.drop_last());
        if spec_has_gadget(l.drop_last(), l.last().0) {
            prev
        } else {
            prev.push(l.last())
        }
    }
}

pub open spec fn spec_dedup_if(l: Seq<(Seq<InstrView>, int)>, uniq: bool) -> Seq<
    (Seq<InstrView>, int),
> {
    if uniq {
        spec_dedup(l)
    } else {
        l
    }
}

/// Stage four: the regex filter over the rendered instruction text. Every
/// positive pattern must match and no negative pattern may match.
pub open spec fn spec_regex_keep(
    g: Seq<InstrView>,
    pos: Seq<Seq<char>>,
    neg: Seq<Seq<char>>,
) -> bool {
    &&& forall|i: int| 0 <= i < pos.len() ==> re_match(#[trigger] pos[i], spec_gadget_text(g))
    &&& forall|i: int| 0 <= i < neg.len() ==> !re_match(#[trigger] neg[i], spec_gadget_text(g))
}

pub open spec fn spec_regex_filter(
    l: Seq<(Seq<InstrView>, int)>,
    pos: Seq<Seq<char>>,
    neg: Seq<Seq<char>>,
) -> Seq<(Seq<InstrView>, int)>
    decreases l.len(),
{
    if l.len() == 0 {
        Seq::empty()
    } else {
        spec_regex_filter(l.drop_last(), pos, neg) + (if spec_regex_keep(l.last().0, pos, neg) {
            seq![l.last()]
        } else {
            Seq::empty()
        })
    }
}

/// Stage five: the pivot property filters.
pub open spec fn spec_pivot_keep(g: Seq<InstrView>, st: Settings) -> bool {
    (!st.stack_pivot || spec_gadget_is_stack_pivot(g)) && (!st.base_pivot
        || spec_gadget_is_base_pivot(g))
}

pub open spec fn spec_pivot_filter(l: Seq<(Seq<InstrView>, int)>, st: Settings) -> Seq<
    (Seq<InstrView>, int),
>
    decreases l.len(),
{
    if l.len() == 0 {
        Seq::empty()
    } else {
        spec_pivot_filter(l.drop_last(), st) + (if spec_pivot_keep(l.last().0, st) {
            seq![l.last()]
        } else {
            Seq::empty()
        })
    }
}

/// Stage six: the stable sort by ascending address.
pub open spec fn spec_insert_by_addr(
    x: (Seq<InstrView>, int),
    l: Seq<(Seq<InstrView>, int)>,
) -> Seq<(Seq<InstrView>, int)>
    decreases l.len(),
{
    if l.len() == 0 {
        seq![x]
    } else if x.1 < l[0].1 {
        seq![x] + l
    } else {
        seq![l[0]] + spec_insert_by_addr(x, l.drop_first())
    }
}

pub open spec fn spec_sort_by_addr(l: Seq<(Seq<InstrView>, int)>) -> Seq<(Seq<InstrView>, int)>
    decreases l.len(),
{
    if l.len() == 0 {
        Seq::empty()
    } else {
        spec_insert_by_addr(l.last(), spec_sort_by_addr(l.drop_last()))
    }
}

/// The whole pipeline: enumerate, filter by address range, fold duplicates,
/// filter by regex and pivot properties, and sort by address.
pub open spec fn spec_pipeline(
    secs: Seq<SectionView>,
    st: Settings,
    pos: Seq<Seq<char>>,
    neg: Seq<Seq<char>>,
    ranges: Seq<(usize, usize)>,
) -> Seq<(Seq<InstrView>, int)> {
    spec_sort_by_addr(
        spec_pivot_filter(
            spec_regex_filter(
                spec_dedup_if(
                    spec_range_filter(spec_found(secs, st, secs.len() as int), ranges),
                    st.uniq,
                ),
                pos,
                neg,
            ),
            st,
        ),
    )
}

// ---------------------------------------------------------------------------
// the executable pipeline
// ---------------------------------------------------------------------------

fn in_ranges(ranges: &Vec<(usize, usize)>, addr: usize) -> (r: bool)
    ensures
        r == spec_in_ranges(ranges@, addr as int),
{
    let n = ranges.len();
    if n == 0 {
        return true;
    }
    for i in 0..n
        invariant
            n == ranges@.len(),
            n > 0,
            forall|j: int|
                0 <= j < i ==> !((#[trigger] ranges@[j]).0 <= addr && addr <= ranges@[j].1),
    {
        let (from, to) = ranges[i];
        if from <= addr && addr <= to {
            return true;
        }
    }
    false
}

fn collect_found<'b>(sections: &Vec<Section<'b>>, st: &Settings) -> (r: Vec<(Gadget, usize)>)
    requires
        st.max_instructions >= 1,
    ensures
        glist(r@) == spec_found(secs_view(sections@), *st, sections@.len() as int),
{
    let ghost secs = secs_view(sections@);
    let mut acc: Vec<(Gadget, usize)> = Vec::new();
    let nsec = sections.len();
    proof {
        assert(glist(acc@) =~= spec_found(secs, *st, 0));
    }
    #[verifier::loop_isolation(false)]
    for k in 0..nsec
        invariant
            glist(acc@) == spec_found(secs, *st, k as int),
    {
        let sec = &sections[k];
        proof {
            assert(secs[k as int] == sec@);
        }
        match Disassembly::new(sec) {
            None => {
                proof {
                    assert(spec_section_found_of(secs[k as int], *st) =~= Seq::empty());
                    assert(glist(acc@) =~= spec_found(secs, *st, k + 1));
                }
            },
            Some(dis) => {
                let ghost cache = dis@.cache;
                let ghost base = dis@.base;
                let n = dis.bytes().len();
                proof {
                    assert(cache.len() == sec@.bytes.len());
                    assert(spec_section_found_of(secs[k as int], *st) == spec_section_found(
                        cache,
                        base,
                        *st,
                        n as int,
                    ));
                }
                let ghost acc0 = glist(acc@);
                #[verifier::loop_isolation(false)]
                for t in 0..n
                    invariant
                        glist(acc@) == acc0 + spec_section_found(cache, base, *st, t as int),
                {
                    if dis.is_tail_at(t, st.rop, st.sys, st.jop, st.noisy) {
                        let mut gs = dis.gadgets_from_tail(t, st.max_instructions, st.noisy);
                        let ghost gl = glist(gs@);
                        let ghost pre = glist(acc@);
                        while gs.len() > 0
                            invariant
                                glist(acc@) == pre + gl.take(gl.len() - glist(gs@).len()),
                                glist(gs@) == gl.skip(gl.len() - glist(gs@).len()),
                                glist(gs@).len() <= gl.len(),
                            decreases gs@.len(),
                        {
                            let ghost done = gl.len() - glist(gs@).len();
                            let ghost pre_gs = gs@;
                            let ghost pre_acc = acc@;
                            let x = gs.remove(0);
                            acc.push(x);
                            proof {
                                assert(gs@ =~= pre_gs.skip(1));
                                assert(glist(gs@) =~= glist(pre_gs).skip(1));
                                assert(glist(gs@) =~= gl.skip(done + 1));
                                assert((x.0@, x.1 as int) == glist(pre_gs)[0]);
                                assert(glist(pre_gs)[0] == gl[done]);
                                assert(glist(acc@) =~= glist(pre_acc).push(gl[done]));
                                assert(glist(acc@) =~= pre + gl.take(done + 1));
                            }
                        }
                        proof {
                            assert(gl.take(gl.len() - 0) =~= gl);
                            assert(glist(acc@) == pre + gl);
                            assert(glist(acc@) =~= acc0 + spec_section_found(
                                cache,
                                base,
                                *st,
                                t + 1,
                            ));
                        }
                    } else {
                        proof {
                            assert(glist(acc@) =~= acc0 + spec_section_found(
                                cache,
                                base,
                                *st,
                                t + 1,
                            ));
                        }
                    }
                }
                proof {
                    assert(glist(acc@) =~= spec_found(secs, *st, k + 1));
                }
            },
        }
    }
    proof {
        assert(secs.len() == sections@.len());
    }
    acc
}

fn range_filter(v: Vec<(Gadget, usize)>, ranges: &Vec<(usize, usize)>) -> (r: Vec<(Gadget, usize)>)
    ensures
        glist(r@) == spec_range_filter(glist(v@), ranges@),
{
    let ghost orig = glist(v@);
    let mut input = v;
    let mut out: Vec<(Gadget, usize)> = Vec::new();
    proof {
        assert(orig.take(0) =~= Seq::empty());
        assert(glist(out@) =~= spec_range_filter(orig.take(0), ranges@));
        assert(glist(input@) =~= orig.skip(0));
    }
    #[verifier::loop_isolation(false)]
    while input.len() > 0
        invariant
            glist(input@).len() <= orig.len(),
            glist(input@) == orig.skip(orig.len() - glist(input@).len()),
            glist(out@) == spec_range_filter(
                orig.take(orig.len() - glist(input@).len()),
                ranges@,
            ),
        decreases input@.len(),
    {
        let ghost done = orig.len() - glist(input@).len();
        let ghost pre_in = input@;
        let x = input.remove(0);
        proof {
            assert(input@ =~= pre_in.skip(1));
            assert(glist(input@) =~= glist(pre_in).skip(1));
            assert(glist(pre_in)[0] == orig[done]);
            assert((x.0@, x.1 as int) == orig[done]);
            assert(glist(input@) =~= orig.skip(done + 1));
            assert(orig.take(done + 1).drop_last() =~= orig.take(done));
            assert(orig.take(done + 1).last() == orig[done]);
        }
        if in_ranges(ranges, x.1) {
            let ghost pre = glist(out@);
            out.push(x);
            proof {
                assert(glist(out@) =~= pre.push(orig[done]));
                assert(spec_range_filter(orig.take(done + 1), ranges@) =~= pre.push(orig[done]));
            }
        } else {
            proof {
                assert(spec_range_filter(orig.take(done + 1), ranges@) =~= glist(out@));
            }
        }
    }
    proof {
        assert(orig.take(orig.len() - 0) =~= orig);
    }
    out
}

fn has_gadget(v: &Vec<(Gadget, usize)>, g: &Gadget) -> (r: bool)
    ensures
        r == spec_has_gadget(glist(v@), g@),
{
    let n = v.len();
    for i in 0..n
        invariant
            n == v@.len(),
            forall|j: int| 0 <= j < i ==> (#[trigger] glist(v@)[j]).0 != g@,
    {
        if v[i].0.same_as(g) {
            assert(glist(v@)[i as int].0 == g@);
            return true;
        }
        assert(glist(v@)[i as int].0 != g@);
    }
    false
}

proof fn lemma_has_gadget_push(
    l: Seq<(Seq<InstrView>, int)>,
    p: (Seq<InstrView>, int),
    g: Seq<InstrView>,
)
    ensures
        spec_has_gadget(l.push(p), g) <==> (spec_has_gadget(l, g) || p.0 == g),
{
    if spec_has_gadget(l.push(p), g) {
        let i = choose|i: int| 0 <= i < l.push(p).len() && (#[trigger] l.push(p)[i]).0 == g;
        if i < l.len() {
            assert(l[i].0 == g);
        } else {
            assert(p.0 == g);
        }
    }
    if spec_has_gadget(l, g) {
        let i = choose|i: int| 0 <= i < l.len() && (#[trigger] l[i]).0 == g;
        assert(l.push(p)[i].0 == g);
    }
    if p.0 == g {
        assert(l.push(p)[l.len() as int].0 == g);
    }
}

/// Folding duplicates keeps exactly the instruction sequences of the input.
pub proof fn lemma_dedup_has(l: Seq<(Seq<InstrView>, int)>, g: Seq<InstrView>)
    ensures
        spec_has_gadget(spec_dedup(l), g) <==> spec_has_gadget(l, g),
    decreases l.len(),
{
    if l.len() == 0 {
    } else {
        let prev = spec_dedup(l.drop_last());
        lemma_dedup_has(l.drop_last(), g);
        lemma_has_gadget_push(l.drop_last(), l.last(), g);
        assert(l.drop_last().push(l.last()) =~= l);
        if spec_has_gadget(l.drop_last(), l.last().0) {
        } else {
            lemma_has_gadget_push(prev, l.last(), g);
        }
    }
}

fn dedup(v: Vec<(Gadget, usize)>) -> (r: Vec<(Gadget, usize)>)
    ensures
        glist(r@) == spec_dedup(glist(v@)),
{
    let ghost orig = glist(v@);
    let mut input = v;
    let mut out: Vec<(Gadget, usize)> = Vec::new();
    proof {
        assert(orig.take(0) =~= Seq::empty());
        assert(glist(out@) =~= spec_dedup(orig.take(0)));
        assert(glist(input@) =~= orig.skip(0));
    }
    #[verifier::loop_isolation(false)]
    while input.len() > 0
        invariant
            glist(input@).len() <= orig.len(),
            glist(input@) == orig.skip(orig.len() - glist(input@).len()),
            glist(out@) == spec_dedup(orig.take(orig.len() - glist(input@).len())),
        decreases input@.len(),
    {
        let ghost done = orig.len() - glist(input@).len();
        let ghost pre_in = input@;
        let x = input.remove(0);
        proof {
            assert(input@ =~= pre_in.skip(1));
            assert(glist(input@) =~= glist(pre_in).skip(1));
            assert(glist(pre_in)[0] == orig[done]);
            assert((x.0@, x.1 as int) == orig[done]);
            assert(glist(input@) =~= orig.skip(done + 1));
            assert(orig.take(done + 1).drop_last() =~= orig.take(done));
            assert(orig.take(done + 1).last() == orig[done]);
        }
        let dup = has_gadget(&out, &x.0);
        proof {
            lemma_dedup_has(orig.take(done), orig[done].0);
        }
        if !dup {
            let ghost pre = glist(out@);
            out.push(x);
            proof {
                assert(glist(out@) =~= pre.push(orig[done]));
            }
        }
    }
    proof {
        assert(orig.take(orig.len() - 0) =~= orig);
    }
    out
}

fn regex_keep(g: &Gadget, pos: &Vec<String>, neg: &Vec<String>) -> (r: bool)
    requires
        spec_all_re_ok(pos.deep_view()),
        spec_all_re_ok(neg.deep_view()),
    ensures
        r == spec_regex_keep(g@, pos.deep_view(), neg.deep_view()),
{
    let text = g.format_instruction();
    let np = pos.len();
    for i in 0..np
        invariant
            np == pos@.len(),
            spec_all_re_ok(pos.deep_view()),
            text@ == spec_gadget_text(g@),
            forall|j: int|
                0 <= j < i ==> re_match(#[trigger] pos.deep_view()[j], spec_gadget_text(g@)),
    {
        let p = &pos[i];
        assert(p@ == pos.deep_view()[i as int]);
        if !regex_is_match(p.as_str(), text.as_str()) {
            return false;
        }
    }
    let nn = neg.len();
    for i in 0..nn
        invariant
            nn == neg@.len(),
            spec_all_re_ok(neg.deep_view()),
            text@ == spec_gadget_text(g@),
            forall|j: int|
                0 <= j < i ==> !re_match(#[trigger] neg.deep_view()[j], spec_gadget_text(g@)),
    {
        let p = &neg[i];
        assert(p@ == neg.deep_view()[i as int]);
        if regex_is_match(p.as_str(), text.as_str()) {
            return false;
        }
    }
    true
}

fn regex_filter(v: Vec<(Gadget, usize)>, pos: &Vec<String>, neg: &Vec<String>) -> (r: Vec<
    (Gadget, usize),
>)
    requires
        spec_all_re_ok(pos.deep_view()),
        spec_all_re_ok(neg.deep_view()),
    ensures
        glist(r@) == spec_regex_filter(glist(v@), pos.deep_view(), neg.deep_view()),
{
    let ghost orig = glist(v@);
    let mut input = v;
    let mut out: Vec<(Gadget, usize)> = Vec::new();
    proof {
        assert(orig.take(0) =~= Seq::empty());
        assert(glist(out@) =~= spec_regex_filter(orig.take(0), pos.deep_view(), neg.deep_view()));
        assert(glist(input@) =~= orig.skip(0));
    }
    #[verifier::loop_isolation(false)]
    while input.len() > 0
        invariant
            glist(input@).len() <= orig.len(),
            glist(input@) == orig.skip(orig.len() - glist(input@).len()),
            glist(out@) == spec_regex_filter(
                orig.take(orig.len() - glist(input@).len()),
                pos.deep_view(),
                neg.deep_view(),
            ),
        decreases input@.len(),
    {
        let ghost done = orig.len() - glist(input@).len();
        let ghost pre_in = input@;
        let x = input.remove(0);
        proof {
            assert(input@ =~= pre_in.skip(1));
            assert(glist(input@) =~= glist(pre_in).skip(1));
            assert(glist(pre_in)[0] == orig[done]);
            assert((x.0@, x.1 as int) == orig[done]);
            assert(glist(input@) =~= orig.skip(done + 1));
            assert(orig.take(done + 1).drop_last() =~= orig.take(done));
            assert(orig.take(done + 1).last() == orig[done]);
        }
        if regex_keep(&x.0, pos, neg) {
            let ghost pre = glist(out@);
            out.push(x);
            proof {
                assert(glist(out@) =~= pre.push(orig[done]));
                assert(spec_regex_filter(orig.take(done + 1), pos.deep_view(), neg.deep_view())
                    =~= pre.push(orig[done]));
            }
        } else {
            proof {
                assert(spec_regex_filter(orig.take(done + 1), pos.deep_view(), neg.deep_view())
                    =~= glist(out@));
            }
        }
    }
    proof {
        assert(orig.take(orig.len() - 0) =~= orig);
    }
    out
}

fn pivot_filter(v: Vec<(Gadget, usize)>, st: &Settings) -> (r: Vec<(Gadget, usize)>)
    ensures
        glist(r@) == spec_pivot_filter(glist(v@), *st),
{
    let ghost orig = glist(v@);
    let mut input = v;
    let mut out: Vec<(Gadget, usize)> = Vec::new();
    proof {
        assert(orig.take(0) =~= Seq::empty());
        assert(glist(out@) =~= spec_pivot_filter(orig.take(0), *st));
        assert(glist(input@) =~= orig.skip(0));
    }
    #[verifier::loop_isolation(false)]
    while input.len() > 0
        invariant
            glist(input@).len() <= orig.len(),
            glist(input@) == orig.skip(orig.len() - glist(input@).len()),
            glist(out@) == spec_pivot_filter(orig.take(orig.len() - glist(input@).len()), *st),
        decreases input@.len(),
    {
        let ghost done = orig.len() - glist(input@).len();
        let ghost pre_in = input@;
        let x = input.remove(0);
        proof {
            assert(input@ =~= pre_in.skip(1));
            assert(glist(input@) =~= glist(pre_in).skip(1));
            assert(glist(pre_in)[0] == orig[done]);
            assert((x.0@, x.1 as int) == orig[done]);
            assert(glist(input@) =~= orig.skip(done + 1));
            assert(orig.take(done + 1).drop_last() =~= orig.take(done));
            assert(orig.take(done + 1).last() == orig[done]);
        }
        let keep = (!st.stack_pivot || x.0.is_stack_pivot()) && (!st.base_pivot
            || x.0.is_base_pivot());
        if keep {
            let ghost pre = glist(out@);
            out.push(x);
            proof {
                assert(glist(out@) =~= pre.push(orig[done]));
                assert(spec_pivot_filter(orig.take(done + 1), *st) =~= pre.push(orig[done]));
            }
        } else {
            proof {
                assert(spec_pivot_filter(orig.take(done + 1), *st) =~= glist(out@));
            }
        }
    }
    proof {
        assert(orig.take(orig.len() - 0) =~= orig);
    }
    out
}

proof fn lemma_insert_at(x: (Seq<InstrView>, int), l: Seq<(Seq<InstrView>, int)>, j: int)
    requires
        0 <= j <= l.len(),
        forall|k: int| 0 <= k < j ==> (#[trigger] l[k]).1 <= x.1,
        j < l.len() ==> x.1 < l[j].1,
    ensures
        spec_insert_by_addr(x, l) == l.take(j) + seq![x] + l.skip(j),
    decreases j,
{
    if j == 0 {
        if l.len() == 0 {
            assert(spec_insert_by_addr(x, l) =~= l.take(0) + seq![x] + l.skip(0));
        } else {
            assert(x.1 < l[0].1);
            assert(seq![x] + l =~= l.take(0) + seq![x] + l.skip(0));
        }
    } else {
        assert(l[0].1 <= x.1);
        let tail = l.drop_first();
        assert(forall|k: int| 0 <= k < j - 1 ==> (#[trigger] tail[k]).1 <= x.1);
        lemma_insert_at(x, tail, j - 1);
        assert(seq![l[0]] + (tail.take(j - 1) + seq![x] + tail.skip(j - 1)) =~= l.take(j)
            + seq![x] + l.skip(j));
    }
}

fn sort_by_addr(v: Vec<(Gadget, usize)>) -> (r: Vec<(Gadget, usize)>)
    ensures
        glist(r@) == spec_sort_by_addr(glist(v@)),
{
    let ghost orig = glist(v@);
    let mut input = v;
    let mut out: Vec<(Gadget, usize)> = Vec::new();
    proof {
        assert(orig.take(0) =~= Seq::empty());
        assert(glist(out@) =~= spec_sort_by_addr(orig.take(0)));
        assert(glist(input@) =~= orig.skip(0));
    }
    #[verifier::loop_isolation(false)]
    while input.len() > 0
        invariant
            glist(input@).len() <= orig.len(),
            glist(input@) == orig.skip(orig.len() - glist(input@).len()),
            glist(out@) == spec_sort_by_addr(orig.take(orig.len() - glist(input@).len())),
        decreases input@.len(),
    {
        let ghost done = orig.len() - glist(input@).len();
        let ghost pre_in = input@;
        let x = input.remove(0);
        proof {
            assert(input@ =~= pre_in.skip(1));
            assert(glist(input@) =~= glist(pre_in).skip(1));
            assert(glist(pre_in)[0] == orig[done]);
            assert((x.0@, x.1 as int) == orig[done]);
            assert(glist(input@) =~= orig.skip(done + 1));
            assert(orig.take(done + 1).drop_last() =~= orig.take(done));
            assert(orig.take(done + 1).last() == orig[done]);
        }
        let mut j: usize = 0;
        while j < out.len() && out[j].1 <= x.1
            invariant
                j <= out@.len(),
                forall|k: int| 0 <= k < j ==> (#[trigger] glist(out@)[k]).1 <= x.1 as int,
            decreases out@.len() - j,
        {
            assert(glist(out@)[j as int].1 == out@[j as int].1 as int);
            j = j + 1;
        }
        let ghost pre_out = glist(out@);
        proof {
            if (j as int) < pre_out.len() {
                assert(pre_out[j as int].1 == out@[j as int].1 as int);
            }
        }
        out.insert(j, x);
        proof {
            lemma_insert_at((x.0@, x.1 as int), pre_out, j as int);
            assert(glist(out@) =~= pre_out.take(j as int) + seq![(x.0@, x.1 as int)]
                + pre_out.skip(j as int));
            assert(glist(out@) == spec_insert_by_addr(orig[done], pre_out));
            assert(glist(out@) == spec_sort_by_addr(orig.take(done + 1)));
        }
    }
    proof {
        assert(orig.take(orig.len() - 0) =~= orig);
    }
    out
}

/// Run the whole search over a binary's executable sections: enumerate every
/// gadget, filter by address range, fold duplicate bodies when `uniq` is on,
/// apply the regex and pivot filters, and sort by ascending address. Fails
/// exactly when some search pattern is not a valid regular expression.
pub fn find_gadgets<'b>(
    sections: &Vec<Section<'b>>,
    settings: &Settings,
    regices: &Vec<String>,
    regices_inverse: &Vec<String>,
    ranges: &Vec<(usize, usize)>,
) -> (r: Result<Vec<(Gadget, usize)>, Error>)
    requires
        settings.max_instructions >= 1,
    ensures
        r is Ok <==> spec_all_re_ok(regices.deep_view()) && spec_all_re_ok(
            regices_inverse.deep_view(),
        ),
        r matches Ok(v) ==> glist(v@) == spec_pipeline(
            secs_view(sections@),
            *settings,
            regices.deep_view(),
            regices_inverse.deep_view(),
            ranges@,
        ),
        r matches Err(e) ==> e == Error::RegexErr,
{
    let np = regices.len();
    for i in 0..np
        invariant
            np == regices@.len(),
            forall|j: int| 0 <= j < i ==> re_ok(#[trigger] regices.deep_view()[j]),
    {
        let p = &regices[i];
        assert(p@ == regices.deep_view()[i as int]);
        if !regex_compiles(p.as_str()) {
            return Err(Error::RegexErr);
        }
    }
    let nn = regices_inverse.len();
    for i in 0..nn
        invariant
            nn == regices_inverse@.len(),
            spec_all_re_ok(regices.deep_view()),
            forall|j: int| 0 <= j < i ==> re_ok(#[trigger] regices_inverse.deep_view()[j]),
    {
        let p = &regices_inverse[i];
        assert(p@ == regices_inverse.deep_view()[i as int]);
        if !regex_compiles(p.as_str()) {
            return Err(Error::RegexErr);
        }
    }
    let found = collect_found(sections, settings);
    let ranged = range_filter(found, ranges);
    let deduped = if settings.uniq {
        dedup(ranged)
    } else {
        ranged
    };
    let refiltered = regex_filter(deduped, regices, regices_inverse);
    let pivoted = pivot_filter(refiltered, settings);
    let sorted = sort_by_addr(pivoted);
    Ok(sorted)
}

} // verus!
