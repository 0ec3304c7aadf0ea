use vstd::prelude::*;

use crate::binary::SectionView;
use crate::disassembler::{cache_lens_ok, spec_cache, spec_lo};
use crate::gadgets::{
    lemma_gadget_at_noisy_monotonic, lemma_gadget_at_props, lemma_tail_gadgets_membership,
    spec_gadget_at, spec_byte_len, spec_tail_gadgets,
};
use crate::instr::InstrView;
use crate::pipeline::{
    spec_dedup, spec_dedup_if, spec_found, spec_has_gadget, spec_in_ranges, spec_insert_by_addr,
    spec_pipeline, spec_pivot_filter, spec_pivot_keep, spec_range_filter, spec_regex_filter,
    spec_regex_keep, spec_section_found, spec_section_found_of, spec_sort_by_addr,
};
use crate::rules::{
    lemma_tail_flags_monotonic, lemma_tail_noisy_monotonic, spec_is_gadget_head,
    spec_is_gadget_tail,
};
use crate::settings::Settings;

verus! {

// ---------------------------------------------------------------------------
// membership through each pipeline stage
// ---------------------------------------------------------------------------

proof fn lemma_concat_contains(
    a: Seq<(Seq<InstrView>, int)>,
    b: Seq<(Seq<InstrView>, int)>,
    p: (Seq<InstrView>, int),
)
    ensures
        (a + b).contains(p) <==> a.contains(p) || b.contains(p),
{
    if (a + b).contains(p) {
        let i = choose|i: int| 0 <= i < (a + b).len() && (a + b)[i] == p;
        if i < a.len() {
            assert(a[i] == p);
        } else {
            assert(b[i - a.len()] == p);
        }
    }
    if a.contains(p) {
        let i = choose|i: int| 0 <= i < a.len() && a[i] == p;
        assert((a + b)[i] == p);
    }
    if b.contains(p) {
        let i = choose|i: int| 0 <= i < b.len() && b[i] == p;
        assert((a + b)[a.len() + i] == p);
    }
}

/// A pair is found in a section exactly when some enabled tail yields it.
proof fn lemma_section_found_membership(
    cache: Seq<InstrView>,
    base: int,
    st: Settings,
    hi: int,
    p: (Seq<InstrView>, int),
)
    ensures
        spec_section_found(cache, base, st, hi).contains(p) <==> exists|t: int|
            0 <= t < hi && spec_is_gadget_tail(
                #[trigger] cache[t],
                st.rop,
                st.sys,
                st.jop,
                st.noisy,
            ) && spec_tail_gadgets(
                cache,
                base,
                t,
                st.max_instructions as int,
                st.noisy,
                spec_lo(t, st.max_instructions as int),
                t + 1,
            ).contains(p),
    decreases hi,
{
    if hi <= 0 {
    } else {
        lemma_section_found_membership(cache, base, st, hi - 1, p);
        let prev = spec_section_found(cache, base, st, hi - 1);
        let last = if spec_is_gadget_tail(cache[hi - 1], st.rop, st.sys, st.jop, st.noisy) {
            spec_tail_gadgets(
                cache,
                base,
                hi - 1,
                st.max_instructions as int,
                st.noisy,
                spec_lo(hi - 1, st.max_instructions as int),
                hi,
            )
        } else {
            Seq::empty()
        };
        lemma_concat_contains(prev, last, p);
    }
}

/// A pair is found in a binary exactly when some section finds it.
proof fn lemma_found_membership(
    secs: Seq<SectionView>,
    st: Settings,
    k: int,
    p: (Seq<InstrView>, int),
)
    ensures
        spec_found(secs, st, k).contains(p) <==> exists|j: int|
            0 <= j < k && spec_section_found_of(#[trigger] secs[j], st).contains(p),
    decreases k,
{
    if k <= 0 {
    } else {
        lemma_found_membership(secs, st, k - 1, p);
        lemma_concat_contains(
            spec_found(secs, st, k - 1),
            spec_section_found_of(secs[k - 1], st),
            p,
        );
        if spec_section_found_of(secs[k - 1], st).contains(p) {
            assert(exists|j: int|
                0 <= j < k && spec_section_found_of(#[trigger] secs[j], st).contains(p));
        }
    }
}

proof fn lemma_range_filter_membership(
    l: Seq<(Seq<InstrView>, int)>,
    ranges: Seq<(usize, usize)>,
    p: (Seq<InstrView>, int),
)
    ensures
        spec_range_filter(l, ranges).contains(p) <==> l.contains(p) && spec_in_ranges(
            ranges,
            p.1,
        ),
    decreases l.len(),
{
    if l.len() == 0 {
    } else {
        lemma_range_filter_membership(l.drop_last(), ranges, p);
        let last = if spec_in_ranges(ranges, l.last().1) {
            seq![l.last()]
        } else {
            Seq::<(Seq<InstrView>, int)>::empty()
        };
        lemma_concat_contains(spec_range_filter(l.drop_last(), ranges), last, p);
        assert(l.drop_last().push(l.last()) =~= l);
        lemma_concat_contains(l.drop_last(), seq![l.last()], p);
        assert(l.drop_last() + seq![l.last()] =~= l);
    }
}

proof fn lemma_regex_filter_membership(
    l: Seq<(Seq<InstrView>, int)>,
    pos: Seq<Seq<char>>,
    neg: Seq<Seq<char>>,
    p: (Seq<InstrView>, int),
)
    ensures
        spec_regex_filter(l, pos, neg).contains(p) <==> l.contains(p) && spec_regex_keep(
            p.0,
            pos,
            neg,
        ),
    decreases l.len(),
{
    if l.len() == 0 {
    } else {
        lemma_regex_filter_membership(l.drop_last(), pos, neg, p);
        let last = if spec_regex_keep(l.last().0, pos, neg) {
            seq![l.last()]
        } else {
            Seq::<(Seq<InstrView>, int)>::empty()
        };
        lemma_concat_contains(spec_regex_filter(l.drop_last(), pos, neg), last, p);
        lemma_concat_contains(l.drop_last(), seq![l.last()], p);
        assert(l.drop_last() + seq![l.last()] =~= l);
    }
}

proof fn lemma_pivot_filter_membership(
    l: Seq<(Seq<InstrView>, int)>,
    st: Settings,
    p: (Seq<InstrView>, int),
)
    ensures
        spec_pivot_filter(l, st).contains(p) <==> l.contains(p) && spec_pivot_keep(p.0, st),
    decreases l.len(),
{
    if l.len() == 0 {
    } else {
        lemma_pivot_filter_membership(l.drop_last(), st, p);
        let last = if spec_pivot_keep(l.last().0, st) {
            seq![l.last()]
        } else {
            Seq::<(Seq<InstrView>, int)>::empty()
        };
        lemma_concat_contains(spec_pivot_filter(l.drop_last(), st), last, p);
        lemma_concat_contains(l.drop_last(), seq![l.last()], p);
        assert(l.drop_last() + seq![l.last()] =~= l);
    }
}

proof fn lemma_dedup_pairs_subset(l: Seq<(Seq<InstrView>, int)>, p: (Seq<InstrView>, int))
    ensures
        spec_dedup(l).contains(p) ==> l.contains(p),
    decreases l.len(),
{
    if l.len() == 0 {
    } else {
        lemma_dedup_pairs_subset(l.drop_last(), p);
        let prev = spec_dedup(l.drop_last());
        if !spec_has_gadget(l.drop_last(), l.last().0) {
            lemma_concat_contains(prev, seq![l.last()], p);
            assert(prev.push(l.last()) =~= prev + seq![l.last()]);
        }
        if l.drop_last().contains(p) {
            let i = choose|i: int| 0 <= i < l.drop_last().len() && l.drop_last()[i] == p;
            assert(l[i] == p);
        }
        if p == l.last() {
            assert(l[l.len() - 1] == p);
        }
    }
}

proof fn lemma_insert_membership(
    x: (Seq<InstrView>, int),
    l: Seq<(Seq<InstrView>, int)>,
    p: (Seq<InstrView>, int),
)
    ensures
        spec_insert_by_addr(x, l).contains(p) <==> (p == x || l.contains(p)),
    decreases l.len(),
{
    if l.len() == 0 {
        assert(spec_insert_by_addr(x, l) == seq![x]);
        assert(seq![x][0] == x);
    } else if x.1 < l[0].1 {
        lemma_concat_contains(seq![x], l, p);
        assert(seq![x][0] == x);
    } else {
        lemma_insert_membership(x, l.drop_first(), p);
        lemma_concat_contains(seq![l[0]], spec_insert_by_addr(x, l.drop_first()), p);
        assert(seq![l[0]][0] == l[0]);
        lemma_concat_contains(seq![l[0]], l.drop_first(), p);
        assert(seq![l[0]] + l.drop_first() =~= l);
    }
}

proof fn lemma_sort_membership(l: Seq<(Seq<InstrView>, int)>, p: (Seq<InstrView>, int))
    ensures
        spec_sort_by_addr(l).contains(p) <==> l.contains(p),
    decreases l.len(),
{
    if l.len() == 0 {
    } else {
        lemma_sort_membership(l.drop_last(), p);
        lemma_insert_membership(l.last(), spec_sort_by_addr(l.drop_last()), p);
        lemma_concat_contains(l.drop_last(), seq![l.last()], p);
        assert(l.drop_last() + seq![l.last()] =~= l);
    }
}

/// Every emitted pair was found: the filters and the sort add nothing.
proof fn lemma_pipeline_pair_found(
    secs: Seq<SectionView>,
    st: Settings,
    pos: Seq<Seq<char>>,
    neg: Seq<Seq<char>>,
    ranges: Seq<(usize, usize)>,
    p: (Seq<InstrView>, int),
)
    requires
        spec_pipeline(secs, st, pos, neg, ranges).contains(p),
    ensures
        spec_found(secs, st, secs.len() as int).contains(p),
        spec_in_ranges(ranges, p.1),
        spec_regex_keep(p.0, pos, neg),
        spec_pivot_keep(p.0, st),
{
    let found = spec_found(secs, st, secs.len() as int);
    let ranged = spec_range_filter(found, ranges);
    let deduped = spec_dedup_if(ranged, st.uniq);
    let refiltered = spec_regex_filter(deduped, pos, neg);
    let pivoted = spec_pivot_filter(refiltered, st);
    lemma_sort_membership(pivoted, p);
    lemma_pivot_filter_membership(refiltered, st, p);
    lemma_regex_filter_membership(deduped, pos, neg, p);
    if st.uniq {
        lemma_dedup_pairs_subset(ranged, p);
    }
    lemma_range_filter_membership(found, ranges, p);
}

/// The exact shape of a found pair: it comes from a section, a tail inside
/// that section satisfying the tail rule, and a start offset whose head walk
/// reaches the tail.
proof fn lemma_found_pair_shape(
    secs: Seq<SectionView>,
    st: Settings,
    p: (Seq<InstrView>, int),
) -> (w: (int, int, int))
    requires
        spec_found(secs, st, secs.len() as int).contains(p),
    ensures
        ({
            let (j, t, s) = w;
            let sec = secs[j];
            let base = sec.program_base + sec.section_vaddr;
            let cache = spec_cache(sec.bits, sec.bytes, base);
            &&& 0 <= j < secs.len()
            &&& sec.bytes.len() > 0
            &&& 0 <= s <= t < sec.bytes.len()
            &&& spec_lo(t, st.max_instructions as int) <= s
            &&& spec_is_gadget_tail(cache[t], st.rop, st.sys, st.jop, st.noisy)
            &&& spec_gadget_at(cache, s, t, st.max_instructions as int, st.noisy) == Some(p.0)
            &&& p.1 == base + s
        }),
{
    lemma_found_membership(secs, st, secs.len() as int, p);
    let j = choose|j: int|
        0 <= j < secs.len() && spec_section_found_of(#[trigger] secs[j], st).contains(p);
    let sec = secs[j];
    let base = sec.program_base + sec.section_vaddr;
    let cache = spec_cache(sec.bits, sec.bytes, base);
    lemma_section_found_membership(cache, base, st, sec.bytes.len() as int, p);
    let t = choose|t: int|
        0 <= t < sec.bytes.len() && spec_is_gadget_tail(
            #[trigger] cache[t],
            st.rop,
            st.sys,
            st.jop,
            st.noisy,
        ) && spec_tail_gadgets(
            cache,
            base,
            t,
            st.max_instructions as int,
            st.noisy,
            spec_lo(t, st.max_instructions as int),
            t + 1,
        ).contains(p);
    lemma_tail_gadgets_membership(
        cache,
        base,
        t,
        st.max_instructions as int,
        st.noisy,
        spec_lo(t, st.max_instructions as int),
        t + 1,
        p,
    );
    let s = choose|s: int|
        spec_lo(t, st.max_instructions as int) <= s < t + 1 && spec_gadget_at(
            cache,
            s,
            t,
            st.max_instructions as int,
            st.noisy,
        ) == Some(p.0) && p.1 == base + s;
    assert(spec_lo(t, st.max_instructions as int) >= 0);
    (j, t, s)
}

// ---------------------------------------------------------------------------
// the laws of the search
// ---------------------------------------------------------------------------

/// Every emitted gadget's last instruction satisfies the tail rule under the
/// current flags, and every instruction before it satisfies the head rule;
/// and the gadget holds between 1 and `max_instructions` instructions.
pub proof fn lemma_emitted_heads_and_tail(
    secs: Seq<SectionView>,
    st: Settings,
    pos: Seq<Seq<char>>,
    neg: Seq<Seq<char>>,
    ranges: Seq<(usize, usize)>,
    p: (Seq<InstrView>, int),
)
    requires
        st.max_instructions >= 1,
        spec_pipeline(secs, st, pos, neg, ranges).contains(p),
    ensures
        1 <= p.0.len() <= st.max_instructions,
        spec_is_gadget_tail(p.0.last(), st.rop, st.sys, st.jop, st.noisy),
        forall|i: int| 0 <= i < p.0.len() - 1 ==> spec_is_gadget_head(#[trigger] p.0[i], st.noisy),
{
    lemma_pipeline_pair_found(secs, st, pos, neg, ranges, p);
    let (j, t, s) = lemma_found_pair_shape(secs, st, p);
    let sec = secs[j];
    let base = sec.program_base + sec.section_vaddr;
    let cache = spec_cache(sec.bits, sec.bytes, base);
    lemma_gadget_at_props(cache, s, t, st.max_instructions as int, st.noisy);
}

/// Every emitted gadget lies inside one executable section: its address is at
/// or past the section start, and its bytes end at or before the section end.
pub proof fn lemma_emitted_in_section(
    secs: Seq<SectionView>,
    st: Settings,
    pos: Seq<Seq<char>>,
    neg: Seq<Seq<char>>,
    ranges: Seq<(usize, usize)>,
    p: (Seq<InstrView>, int),
)
    requires
        st.max_instructions >= 1,
        spec_pipeline(secs, st, pos, neg, ranges).contains(p),
        forall|j: int|
            0 <= j < secs.len() ==> cache_lens_ok(
                spec_cache(
                    (#[trigger] secs[j]).bits,
                    secs[j].bytes,
                    secs[j].program_base + secs[j].section_vaddr,
                ),
            ),
    ensures
        exists|j: int|
            0 <= j < secs.len() && ({
                let base = (#[trigger] secs[j]).program_base + secs[j].section_vaddr;
                &&& base <= p.1
                &&& p.1 + spec_byte_len(p.0) <= base + secs[j].bytes.len()
                &&& spec_byte_len(p.0) >= 1
            }),
{
    lemma_pipeline_pair_found(secs, st, pos, neg, ranges, p);
    let (j, t, s) = lemma_found_pair_shape(secs, st, p);
    let sec = secs[j];
    let base = sec.program_base + sec.section_vaddr;
    let cache = spec_cache(sec.bits, sec.bytes, base);
    lemma_gadget_at_props(cache, s, t, st.max_instructions as int, st.noisy);
    assert(cache[t].valid);
    assert(1 <= cache[t].len && t + cache[t].len <= cache.len());
    assert(spec_byte_len(p.0) == t - s + cache[t].len);
    assert(p.1 + spec_byte_len(p.0) <= base + sec.bytes.len());
    assert(0 <= j < secs.len() && ({
        let b = (secs[j]).program_base + secs[j].section_vaddr;
        &&& b <= p.1
        &&& p.1 + spec_byte_len(p.0) <= b + secs[j].bytes.len()
        &&& spec_byte_len(p.0) >= 1
    }));
}

pub open spec fn spec_sorted_by_addr(l: Seq<(Seq<InstrView>, int)>) -> bool {
    forall|i: int, j: int| 0 <= i < j < l.len() ==> (#[trigger] l[i]).1 <= (#[trigger] l[j]).1
}

proof fn lemma_insert_keeps_sorted(x: (Seq<InstrView>, int), l: Seq<(Seq<InstrView>, int)>)
    requires
        spec_sorted_by_addr(l),
    ensures
        spec_sorted_by_addr(spec_insert_by_addr(x, l)),
    decreases l.len(),
{
    let r = spec_insert_by_addr(x, l);
    if l.len() == 0 {
    } else if x.1 < l[0].1 {
        assert(forall|k: int| 0 <= k < l.len() ==> l[0].1 <= (#[trigger] l[k]).1 || k == 0);
        assert forall|i: int, j: int| 0 <= i < j < r.len() implies (#[trigger] r[i]).1 <= (
        #[trigger] r[j]).1 by {
            assert(r[j] == l[j - 1]);
            if i > 0 {
                assert(r[i] == l[i - 1]);
            }
        }
    } else {
        let tail = l.drop_first();
        assert(forall|i: int, j: int|
            0 <= i < j < tail.len() ==> (#[trigger] tail[i]).1 <= (#[trigger] tail[j]).1);
        lemma_insert_keeps_sorted(x, tail);
        let m = spec_insert_by_addr(x, tail);
        assert forall|i: int, j: int| 0 <= i < j < r.len() implies (#[trigger] r[i]).1 <= (
        #[trigger] r[j]).1 by {
            if i == 0 {
                assert(r[j] == m[j - 1]);
                lemma_insert_membership(x, tail, m[j - 1]);
                if m[j - 1] == x {
                    assert(l[0].1 <= x.1);
                } else {
                    assert(m.contains(m[j - 1]));
                    assert(tail.contains(m[j - 1]));
                    let k = choose|k: int| 0 <= k < tail.len() && tail[k] == m[j - 1];
                    assert(l[0].1 <= l[k + 1].1);
                }
            } else {
                assert(r[i] == m[i - 1] && r[j] == m[j - 1]);
            }
        }
    }
}

proof fn lemma_sort_sorted(l: Seq<(Seq<InstrView>, int)>)
    ensures
        spec_sorted_by_addr(spec_sort_by_addr(l)),
    decreases l.len(),
{
    if l.len() == 0 {
    } else {
        lemma_sort_sorted(l.drop_last());
        lemma_insert_keeps_sorted(l.last(), spec_sort_by_addr(l.drop_last()));
    }
}

/// The emitted list is ascending by address.
pub proof fn lemma_emitted_sorted(
    secs: Seq<SectionView>,
    st: Settings,
    pos: Seq<Seq<char>>,
    neg: Seq<Seq<char>>,
    ranges: Seq<(usize, usize)>,
)
    ensures
        spec_sorted_by_addr(spec_pipeline(secs, st, pos, neg, ranges)),
{
    lemma_sort_sorted(
        spec_pivot_filter(
            spec_regex_filter(
                spec_dedup_if(
                    spec_range_filter(spec_found(secs, st, secs.len() as int), ranges),
                    st.uniq,
                ),
                pos,
                neg,
            ),
            st,
        ),
    );
}

/// Each positive pattern matches every emitted gadget's instruction text, and
/// no negative pattern matches any.
pub proof fn lemma_emitted_matches_patterns(
    secs: Seq<SectionView>,
    st: Settings,
    pos: Seq<Seq<char>>,
    neg: Seq<Seq<char>>,
    ranges: Seq<(usize, usize)>,
    p: (Seq<InstrView>, int),
)
    requires
        spec_pipeline(secs, st, pos, neg, ranges).contains(p),
    ensures
        spec_regex_keep(p.0, pos, neg),
        spec_pivot_keep(p.0, st),
        spec_in_ranges(ranges, p.1),
{
    lemma_pipeline_pair_found(secs, st, pos, neg, ranges, p);
}

// ---------------------------------------------------------------------------
// subset laws: relaxing the settings only adds gadgets
// ---------------------------------------------------------------------------

proof fn lemma_found_subset(
    secs: Seq<SectionView>,
    st1: Settings,
    st2: Settings,
    p: (Seq<InstrView>, int),
)
    requires
        st1.rop ==> st2.rop,
        st1.sys ==> st2.sys,
        st1.jop ==> st2.jop,
        st1.noisy ==> st2.noisy,
        st1.max_instructions == st2.max_instructions,
        spec_found(secs, st1, secs.len() as int).contains(p),
    ensures
        spec_found(secs, st2, secs.len() as int).contains(p),
{
    let (j, t, s) = lemma_found_pair_shape(secs, st1, p);
    let sec = secs[j];
    let base = sec.program_base + sec.section_vaddr;
    let cache = spec_cache(sec.bits, sec.bytes, base);
    let max = st1.max_instructions as int;
    lemma_tail_flags_monotonic(cache[t], st1.rop, st1.sys, st1.jop, st2.rop, st2.sys, st2.jop, st1.noisy);
    if st1.noisy != st2.noisy {
        lemma_tail_noisy_monotonic(cache[t], st2.rop, st2.sys, st2.jop);
        lemma_gadget_at_noisy_monotonic(cache, s, t, max);
    }
    assert(spec_is_gadget_tail(cache[t], st2.rop, st2.sys, st2.jop, st2.noisy));
    assert(spec_gadget_at(cache, s, t, max, st2.noisy) == Some(p.0));
    lemma_tail_gadgets_membership(cache, base, t, max, st2.noisy, spec_lo(t, max), t + 1, p);
    assert(spec_lo(t, max) <= s < t + 1 && spec_gadget_at(cache, s, t, max, st2.noisy) == Some(p.0)
        && p.1 == base + s);
    assert(spec_tail_gadgets(cache, base, t, max, st2.noisy, spec_lo(t, max), t + 1).contains(p));
    lemma_section_found_membership(cache, base, st2, sec.bytes.len() as int, p);
    assert(spec_section_found_of(secs[j], st2).contains(p));
    lemma_found_membership(secs, st2, secs.len() as int, p);
}

/// The core subset law: if every tail category enabled under `st1` stays
/// enabled under `st2`, quiet mode is only relaxed, the instruction bound is
/// unchanged, and the pivot filters are only switched off, then every gadget
/// body emitted under `st1` is also emitted under `st2`.
pub proof fn lemma_pipeline_gadget_subset(
    secs: Seq<SectionView>,
    st1: Settings,
    st2: Settings,
    pos: Seq<Seq<char>>,
    neg: Seq<Seq<char>>,
    ranges: Seq<(usize, usize)>,
    g: Seq<InstrView>,
)
    requires
        st1.rop ==> st2.rop,
        st1.sys ==> st2.sys,
        st1.jop ==> st2.jop,
        st1.noisy ==> st2.noisy,
        st1.max_instructions == st2.max_instructions,
        st2.stack_pivot ==> st1.stack_pivot,
        st2.base_pivot ==> st1.base_pivot,
        spec_has_gadget(spec_pipeline(secs, st1, pos, neg, ranges), g),
    ensures
        spec_has_gadget(spec_pipeline(secs, st2, pos, neg, ranges), g),
{
    let found1 = spec_found(secs, st1, secs.len() as int);
    let ranged1 = spec_range_filter(found1, ranges);
    let deduped1 = spec_dedup_if(ranged1, st1.uniq);
    let refiltered1 = spec_regex_filter(deduped1, pos, neg);
    let pivoted1 = spec_pivot_filter(refiltered1, st1);
    let out1 = spec_pipeline(secs, st1, pos, neg, ranges);
    let i = choose|i: int| 0 <= i < out1.len() && (#[trigger] out1[i]).0 == g;
    let p = out1[i];
    assert(out1.contains(p));
    lemma_sort_membership(pivoted1, p);
    lemma_pivot_filter_membership(refiltered1, st1, p);
    lemma_regex_filter_membership(deduped1, pos, neg, p);
    if st1.uniq {
        lemma_dedup_pairs_subset(ranged1, p);
    }
    lemma_range_filter_membership(found1, ranges, p);
    lemma_found_subset(secs, st1, st2, p);

    let found2 = spec_found(secs, st2, secs.len() as int);
    let ranged2 = spec_range_filter(found2, ranges);
    let deduped2 = spec_dedup_if(ranged2, st2.uniq);
    let refiltered2 = spec_regex_filter(deduped2, pos, neg);
    let pivoted2 = spec_pivot_filter(refiltered2, st2);
    lemma_range_filter_membership(found2, ranges, p);
    assert(ranged2.contains(p));
    let q: (Seq<InstrView>, int);
    if st2.uniq {
        let k = choose|k: int| 0 <= k < ranged2.len() && ranged2[k] == p;
        assert(spec_has_gadget(ranged2, g));
        crate::pipeline::lemma_dedup_has(ranged2, g);
        let m = choose|m: int| 0 <= m < deduped2.len() && (#[trigger] deduped2[m]).0 == g;
        q = deduped2[m];
        assert(deduped2.contains(q));
    } else {
        q = p;
        assert(deduped2.contains(q));
    }
    assert(q.0 == g);
    lemma_regex_filter_membership(deduped2, pos, neg, q);
    assert(spec_regex_keep(g, pos, neg));
    assert(refiltered2.contains(q));
    lemma_pivot_filter_membership(refiltered2, st2, q);
    assert(spec_pivot_keep(g, st2));
    assert(pivoted2.contains(q));
    lemma_sort_membership(pivoted2, q);
    let out2 = spec_pipeline(secs, st2, pos, neg, ranges);
    let w = choose|w: int| 0 <= w < out2.len() && out2[w] == q;
    assert(out2[w].0 == g);
}

/// Quiet mode emits a subset, body for body, of what noisy mode emits on the
/// same input.
pub proof fn lemma_noisy_widens(
    secs: Seq<SectionView>,
    st: Settings,
    pos: Seq<Seq<char>>,
    neg: Seq<Seq<char>>,
    ranges: Seq<(usize, usize)>,
    g: Seq<InstrView>,
)
    requires
        st.noisy == false,
        spec_has_gadget(spec_pipeline(secs, st, pos, neg, ranges), g),
    ensures
        spec_has_gadget(
            spec_pipeline(
                secs,
                Settings { noisy: true, ..st },
                pos,
                neg,
                ranges,
            ),
            g,
        ),
{
    lemma_pipeline_gadget_subset(secs, st, Settings { noisy: true, ..st }, pos, neg, ranges, g);
}

/// Disabling tail categories narrows the result: a run with some categories
/// switched off emits a subset, body for body, of the run with them on.
pub proof fn lemma_disabled_categories_narrow(
    secs: Seq<SectionView>,
    st1: Settings,
    st2: Settings,
    pos: Seq<Seq<char>>,
    neg: Seq<Seq<char>>,
    ranges: Seq<(usize, usize)>,
    g: Seq<InstrView>,
)
    requires
        st1.rop ==> st2.rop,
        st1.sys ==> st2.sys,
        st1.jop ==> st2.jop,
        st1.noisy == st2.noisy,
        st1.max_instructions == st2.max_instructions,
        st1.stack_pivot == st2.stack_pivot,
        st1.base_pivot == st2.base_pivot,
        spec_has_gadget(spec_pipeline(secs, st1, pos, neg, ranges), g),
    ensures
        spec_has_gadget(spec_pipeline(secs, st2, pos, neg, ranges), g),
{
    lemma_pipeline_gadget_subset(secs, st1, st2, pos, neg, ranges, g);
}

/// The pivot filters narrow the result: a run with them on emits a subset,
/// body for body, of the same run with them off.
pub proof fn lemma_pivot_filters_narrow(
    secs: Seq<SectionView>,
    st1: Settings,
    st2: Settings,
    pos: Seq<Seq<char>>,
    neg: Seq<Seq<char>>,
    ranges: Seq<(usize, usize)>,
    g: Seq<InstrView>,
)
    requires
        st2.stack_pivot == false,
        st2.base_pivot == false,
        st1.rop == st2.rop,
        st1.sys == st2.sys,
        st1.jop == st2.jop,
        st1.noisy == st2.noisy,
        st1.max_instructions == st2.max_instructions,
        spec_has_gadget(spec_pipeline(secs, st1, pos, neg, ranges), g),
    ensures
        spec_has_gadget(spec_pipeline(secs, st2, pos, neg, ranges), g),
{
    lemma_pipeline_gadget_subset(secs, st1, st2, pos, neg, ranges, g);
}

// ---------------------------------------------------------------------------
// uniqueness of emitted bodies
// ---------------------------------------------------------------------------

pub open spec fn spec_distinct_gadgets(l: Seq<(Seq<InstrView>, int)>) -> bool {
    forall|i: int, j: int| 0 <= i < j < l.len() ==> (#[trigger] l[i]).0 != (#[trigger] l[j]).0
}

proof fn lemma_dedup_distinct(l: Seq<(Seq<InstrView>, int)>)
    ensures
        spec_distinct_gadgets(spec_dedup(l)),
    decreases l.len(),
{
    if l.len() == 0 {
    } else {
        lemma_dedup_distinct(l.drop_last());
        let prev = spec_dedup(l.drop_last());
        if !spec_has_gadget(l.drop_last(), l.last().0) {
            crate::pipeline::lemma_dedup_has(l.drop_last(), l.last().0);
            assert(!spec_has_gadget(prev, l.last().0));
            let r = prev.push(l.last());
            assert forall|i: int, j: int| 0 <= i < j < r.len() implies (#[trigger] r[i]).0 != (
            #[trigger] r[j]).0 by {
                if j < prev.len() {
                } else {
                    assert(r[j] == l.last());
                    assert(r[i] == prev[i]);
                    if prev[i].0 == l.last().0 {
                        assert(spec_has_gadget(prev, l.last().0));
                    }
                }
            }
        }
    }
}

proof fn lemma_regex_filter_distinct(
    l: Seq<(Seq<InstrView>, int)>,
    pos: Seq<Seq<char>>,
    neg: Seq<Seq<char>>,
)
    requires
        spec_distinct_gadgets(l),
    ensures
        spec_distinct_gadgets(spec_regex_filter(l, pos, neg)),
    decreases l.len(),
{
    if l.len() == 0 {
    } else {
        assert(forall|i: int, j: int|
            0 <= i < j < l.drop_last().len() ==> (#[trigger] l.drop_last()[i]).0 != (
            #[trigger] l.drop_last()[j]).0);
        lemma_regex_filter_distinct(l.drop_last(), pos, neg);
        let prev = spec_regex_filter(l.drop_last(), pos, neg);
        if spec_regex_keep(l.last().0, pos, neg) {
            let r = prev + seq![l.last()];
            assert forall|i: int, j: int| 0 <= i < j < r.len() implies (#[trigger] r[i]).0 != (
            #[trigger] r[j]).0 by {
                if j < prev.len() {
                    assert(r[i] == prev[i] && r[j] == prev[j]);
                } else {
                    assert(r[j] == l.last());
                    assert(r[i] == prev[i]);
                    assert(prev.contains(prev[i]));
                    lemma_regex_filter_membership(l.drop_last(), pos, neg, prev[i]);
                    let k = choose|k: int|
                        0 <= k < l.drop_last().len() && l.drop_last()[k] == prev[i];
                    assert(l[k] == prev[i]);
                    assert(l[k].0 != l[l.len() - 1].0);
                }
            }
        }
    }
}

proof fn lemma_pivot_filter_distinct(l: Seq<(Seq<InstrView>, int)>, st: Settings)
    requires
        spec_distinct_gadgets(l),
    ensures
        spec_distinct_gadgets(spec_pivot_filter(l, st)),
    decreases l.len(),
{
    if l.len() == 0 {
    } else {
        assert(forall|i: int, j: int|
            0 <= i < j < l.drop_last().len() ==> (#[trigger] l.drop_last()[i]).0 != (
            #[trigger] l.drop_last()[j]).0);
        lemma_pivot_filter_distinct(l.drop_last(), st);
        let prev = spec_pivot_filter(l.drop_last(), st);
        if spec_pivot_keep(l.last().0, st) {
            let r = prev + seq![l.last()];
            assert forall|i: int, j: int| 0 <= i < j < r.len() implies (#[trigger] r[i]).0 != (
            #[trigger] r[j]).0 by {
                if j < prev.len() {
                    assert(r[i] == prev[i] && r[j] == prev[j]);
                } else {
                    assert(r[j] == l.last());
                    assert(r[i] == prev[i]);
                    assert(prev.contains(prev[i]));
                    lemma_pivot_filter_membership(l.drop_last(), st, prev[i]);
                    let k = choose|k: int|
                        0 <= k < l.drop_last().len() && l.drop_last()[k] == prev[i];
                    assert(l[k] == prev[i]);
                    assert(l[k].0 != l[l.len() - 1].0);
                }
            }
        }
    }
}

proof fn lemma_insert_distinct(x: (Seq<InstrView>, int), l: Seq<(Seq<InstrView>, int)>)
    requires
        spec_distinct_gadgets(l),
        forall|i: int| 0 <= i < l.len() ==> (#[trigger] l[i]).0 != x.0,
    ensures
        spec_distinct_gadgets(spec_insert_by_addr(x, l)),
    decreases l.len(),
{
    let r = spec_insert_by_addr(x, l);
    if l.len() == 0 {
    } else if x.1 < l[0].1 {
        assert forall|i: int, j: int| 0 <= i < j < r.len() implies (#[trigger] r[i]).0 != (
        #[trigger] r[j]).0 by {
            assert(r[j] == l[j - 1]);
            if i > 0 {
                assert(r[i] == l[i - 1]);
            }
        }
    } else {
        let tail = l.drop_first();
        assert(forall|i: int, j: int|
            0 <= i < j < tail.len() ==> (#[trigger] tail[i]).0 != (#[trigger] tail[j]).0);
        assert(forall|i: int| 0 <= i < tail.len() ==> (#[trigger] tail[i]).0 != x.0);
        lemma_insert_distinct(x, tail);
        let m = spec_insert_by_addr(x, tail);
        assert forall|i: int, j: int| 0 <= i < j < r.len() implies (#[trigger] r[i]).0 != (
        #[trigger] r[j]).0 by {
            if i == 0 {
                assert(r[j] == m[j - 1]);
                lemma_insert_membership(x, tail, m[j - 1]);
                if m[j - 1] == x {
                    assert(l[0].0 != x.0);
                } else {
                    assert(m.contains(m[j - 1]));
                    assert(tail.contains(m[j - 1]));
                    let k = choose|k: int| 0 <= k < tail.len() && tail[k] == m[j - 1];
                    assert(l[0].0 != l[k + 1].0);
                }
            } else {
                assert(r[i] == m[i - 1] && r[j] == m[j - 1]);
            }
        }
    }
}

proof fn lemma_sort_distinct(l: Seq<(Seq<InstrView>, int)>)
    requires
        spec_distinct_gadgets(l),
    ensures
        spec_distinct_gadgets(spec_sort_by_addr(l)),
    decreases l.len(),
{
    if l.len() == 0 {
    } else {
        assert(forall|i: int, j: int|
            0 <= i < j < l.drop_last().len() ==> (#[trigger] l.drop_last()[i]).0 != (
            #[trigger] l.drop_last()[j]).0);
        lemma_sort_distinct(l.drop_last());
        let sorted = spec_sort_by_addr(l.drop_last());
        assert forall|i: int| 0 <= i < sorted.len() implies (#[trigger] sorted[i]).0 != l.last().0
        by {
            assert(sorted.contains(sorted[i]));
            lemma_sort_membership(l.drop_last(), sorted[i]);
            let k = choose|k: int| 0 <= k < l.drop_last().len() && l.drop_last()[k] == sorted[i];
            assert(l[k] == sorted[i]);
            assert(l[k].0 != l[l.len() - 1].0);
        }
        lemma_insert_distinct(l.last(), sorted);
    }
}

/// With duplicate folding on, no two emitted gadgets share an instruction
/// sequence.
pub proof fn lemma_unique_bodies(
    secs: Seq<SectionView>,
    st: Settings,
    pos: Seq<Seq<char>>,
    neg: Seq<Seq<char>>,
    ranges: Seq<(usize, usize)>,
)
    requires
        st.uniq,
    ensures
        spec_distinct_gadgets(spec_pipeline(secs, st, pos, neg, ranges)),
{
    let ranged = spec_range_filter(spec_found(secs, st, secs.len() as int), ranges);
    lemma_dedup_distinct(ranged);
    lemma_regex_filter_distinct(spec_dedup(ranged), pos, neg);
    lemma_pivot_filter_distinct(spec_regex_filter(spec_dedup(ranged), pos, neg), st);
    lemma_sort_distinct(
        spec_pivot_filter(spec_regex_filter(spec_dedup(ranged), pos, neg), st),
    );
}

/// The search is deterministic: any two result lists that equal the pipeline
/// of the same sections, settings, patterns and ranges are the same list,
/// pair for pair. Together with the search's own contract this says that
/// running the tool twice on one input emits identical lines and counts.
pub proof fn lemma_run_deterministic(
    r1: Seq<(Seq<InstrView>, int)>,
    r2: Seq<(Seq<InstrView>, int)>,
    secs: Seq<SectionView>,
    st: Settings,
    pos: Seq<Seq<char>>,
    neg: Seq<Seq<char>>,
    ranges: Seq<(usize, usize)>,
)
    requires
        r1 == spec_pipeline(secs, st, pos, neg, ranges),
        r2 == spec_pipeline(secs, st, pos, neg, ranges),
    ensures
        r1 == r2,
{
}

} // verus!
