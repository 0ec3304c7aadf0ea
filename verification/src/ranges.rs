use vstd::prelude::*;
use vstd::slice::slice_subrange;

verus! {

/// The value of an ASCII hex digit, or -1. Accepts both cases
/// (0x30..=0x39 are '0'..='9', 0x61..=0x66 are 'a'..='f',
/// 0x41..=0x46 are 'A'..='F').
pub open spec fn spec_hex_digit_val(b: u8) -> int {
    if 0x30 <= b <= 0x39 {
        b - 0x30
    } else if 0x61 <= b <= 0x66 {
        b - 0x61 + 10
    } else if 0x41 <= b <= 0x46 {
        b - 0x41 + 10
    } else {
        -1
    }
}

pub open spec fn spec_all_hex(s: Seq<u8>) -> bool {
    forall|i: int| 0 <= i < s.len() ==> spec_hex_digit_val(#[trigger] s[i]) >= 0
}

/// The number the hex digits denote, most significant first.
pub open spec fn spec_hex_val(s: Seq<u8>) -> int
    decreases s.len(),
{
    if s.len() == 0 {
        0
    } else {
        spec_hex_val(s.drop_last()) * 16 + spec_hex_digit_val(s.last())
    }
}

/// Parsing an unsigned hex number as the standard library does: an optional
/// leading `+`, then at least one hex digit, and the value must fit.
pub open spec fn spec_parse_hex_usize(s: Seq<u8>) -> Option<int> {
    let body = if s.len() >= 1 && s[0] == 0x2B {
        s.drop_first()
    } else {
        s
    };
    if body.len() == 0 || !spec_all_hex(body) || spec_hex_val(body) > usize::MAX {
        None
    } else {
        Some(spec_hex_val(body))
    }
}

pub open spec fn spec_strip_hex_prefix(s: Seq<u8>) -> Seq<u8> {
    if s.len() >= 2 && s[0] == 0x30 && s[1] == 0x78 {
        s.skip(2)
    } else {
        s
    }
}

/// One `FROM-TO` range argument: split at the first `-`, strip an optional
/// `0x` from each side, and read both sides as hex. Anything else is
/// silently dropped.
pub open spec fn spec_parse_range(s: Seq<u8>) -> Option<(int, int)> {
    if !(exists|i: int| 0 <= i < s.len() && s[i] == 0x2D) {
        None
    } else {
        let m = choose|m: int|
            0 <= m < s.len() && s[m] == 0x2D && (forall|j: int| 0 <= j < m ==> s[j] != 0x2D);
        let from = spec_parse_hex_usize(spec_strip_hex_prefix(s.subrange(0, m)));
        let to = spec_parse_hex_usize(spec_strip_hex_prefix(s.subrange(m + 1, s.len() as int)));
        match (from, to) {
            (Some(f), Some(t)) => Some((f, t)),
            _ => None,
        }
    }
}

proof fn lemma_hex_val_nonneg(s: Seq<u8>)
    requires
        spec_all_hex(s),
    ensures
        spec_hex_val(s) >= 0,
    decreases s.len(),
{
    if s.len() > 0 {
        assert(forall|i: int| 0 <= i < s.drop_last().len() ==> spec_hex_digit_val(
            #[trigger] s.drop_last()[i],
        ) >= 0);
        lemma_hex_val_nonneg(s.drop_last());
    }
}

proof fn lemma_hex_val_monotonic(s: Seq<u8>, k: int)
    requires
        0 <= k <= s.len(),
        spec_all_hex(s),
    ensures
        spec_hex_val(s.take(k)) <= spec_hex_val(s),
    decreases s.len() - k,
{
    assert(forall|i: int| 0 <= i < k ==> spec_hex_digit_val(#[trigger] s.take(k)[i]) >= 0);
    if k == s.len() {
        assert(s.take(k) =~= s);
    } else {
        assert(s.take(k + 1).drop_last() =~= s.take(k));
        lemma_hex_val_nonneg(s.take(k));
        assert(spec_hex_val(s.take(k + 1)) == spec_hex_val(s.take(k)) * 16 + spec_hex_digit_val(
            s[k],
        ));
        assert(spec_hex_val(s.take(k)) * 16 >= spec_hex_val(s.take(k))) by (nonlinear_arith)
            requires
                spec_hex_val(s.take(k)) >= 0,
        ;
        lemma_hex_val_monotonic(s, k + 1);
    }
}

fn hex_digit_val(b: u8) -> (r: Option<u8>)
    ensures
        r matches Some(v) ==> v as int == spec_hex_digit_val(b) && v < 16,
        r is None ==> spec_hex_digit_val(b) < 0,
{
    if 0x30 <= b && b <= 0x39 {
        Some(b - 0x30)
    } else if 0x61 <= b && b <= 0x66 {
        Some(b - 0x61 + 10)
    } else if 0x41 <= b && b <= 0x46 {
        Some(b - 0x41 + 10)
    } else {
        None
    }
}

fn parse_hex_usize(s: &[u8]) -> (r: Option<usize>)
    ensures
        match r {
            Some(v) => spec_parse_hex_usize(s@) == Some(v as int),
            None => spec_parse_hex_usize(s@) is None,
        },
{
    let n = s.len();
    let start: usize = if n >= 1 && s[0] == 0x2B {
        1
    } else {
        0
    };
    let ghost body = if s@.len() >= 1 && s@[0] == 0x2B {
        s@.drop_first()
    } else {
        s@
    };
    proof {
        assert(body =~= s@.skip(start as int));
    }
    if n == start {
        return None;
    }
    let mut value: usize = 0;
    let mut i = start;
    proof {
        assert(body.take(0) =~= Seq::empty());
    }
    #[verifier::loop_isolation(false)]
    while i < n
        invariant
            start <= i <= n,
            spec_all_hex(body.take(i - start)),
            value as int == spec_hex_val(body.take(i - start)),
        decreases n - i,
    {
        let d = match hex_digit_val(s[i]) {
            Some(d) => d,
            None => {
                proof {
                    assert(body[i - start] == s@[i as int]);
                    assert(!spec_all_hex(body));
                }
                return None;
            },
        };
        if value > (usize::MAX - d as usize) / 16 {
            proof {
                assert(body[i - start] == s@[i as int]);
                assert(body.take(i - start + 1).drop_last() =~= body.take(i - start));
                assert(body.take(i - start + 1).last() == body[i - start]);
                assert(value * 16 + d > usize::MAX) by (nonlinear_arith)
                    requires
                        value > (usize::MAX - d as usize) / 16,
                        d < 16,
                ;
                assert(spec_hex_val(body.take(i - start + 1)) > usize::MAX);
                if spec_all_hex(body) {
                    lemma_hex_val_monotonic(body, i - start + 1);
                }
            }
            return None;
        }
        proof {
            assert(value * 16 + d <= usize::MAX) by (nonlinear_arith)
                requires
                    value <= (usize::MAX - d as usize) / 16,
                    d < 16,
            ;
            assert(body[i - start] == s@[i as int]);
            assert(body.take(i - start + 1).drop_last() =~= body.take(i - start));
            assert(body.take(i - start + 1).last() == body[i - start]);
        }
        value = value * 16 + d as usize;
        i = i + 1;
    }
    proof {
        assert(body.take(n - start) =~= body);
    }
    Some(value)
}

/// Parse one `--range` argument over its bytes. Returns the inclusive bounds,
/// or `None` for an argument that is silently dropped.
pub fn parse_range(s: &[u8]) -> (r: Option<(usize, usize)>)
    ensures
        match r {
            Some((f, t)) => spec_parse_range(s@) == Some((f as int, t as int)),
            None => spec_parse_range(s@) is None,
        },
{
    let n = s.len();
    let mut m: usize = 0;
    #[verifier::loop_isolation(false)]
    while m < n && s[m] != 0x2D
        invariant
            0 <= m <= n,
            forall|j: int| 0 <= j < m ==> s@[j] != 0x2D,
        decreases n - m,
    {
        m = m + 1;
    }
    if m == n {
        proof {
            assert(!(exists|i: int| 0 <= i < s@.len() && s@[i] == 0x2D));
        }
        return None;
    }
    proof {
        assert(s@[m as int] == 0x2D);
        let w = choose|w: int|
            0 <= w < s@.len() && s@[w] == 0x2D && (forall|j: int| 0 <= j < w ==> s@[j] != 0x2D);
        assert(!(w < m) && !(m < w));
        assert(w == m);
    }
    let from_part = strip_hex_prefix_slice(s, 0, m);
    let to_part = strip_hex_prefix_slice(s, m + 1, n);
    proof {
        assert(from_part@ == spec_strip_hex_prefix(s@.subrange(0, m as int)));
        assert(to_part@ == spec_strip_hex_prefix(s@.subrange(m + 1, n as int)));
    }
    let from = match parse_hex_usize(from_part) {
        Some(f) => f,
        None => {
            return None;
        },
    };
    let to = match parse_hex_usize(to_part) {
        Some(t) => t,
        None => {
            return None;
        },
    };
    Some((from, to))
}

fn strip_hex_prefix_slice<'a>(s: &'a [u8], lo: usize, hi: usize) -> (r: &'a [u8])
    requires
        lo <= hi <= s@.len(),
    ensures
        r@ == spec_strip_hex_prefix(s@.subrange(lo as int, hi as int)),
{
    let ghost part = s@.subrange(lo as int, hi as int);
    if hi - lo >= 2 && s[lo] == 0x30 && s[lo + 1] == 0x78 {
        let r = slice_subrange(s, lo + 2, hi);
        proof {
            assert(r@ =~= part.skip(2));
        }
        r
    } else {
        let r = slice_subrange(s, lo, hi);
        proof {
            assert(r@ =~= part);
        }
        r
    }
}

} // verus!
