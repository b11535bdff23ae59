//! Index arithmetic over decoded time series: the buckets of the
//! extreme-preserving downsampler, and the spans during which a 0/1 flag
//! series is set. Comparing and summing the (floating-point) sample values
//! is left to the caller.

use vstd::prelude::*;

verus! {

/// The sample ranges `[start, end)` of bucket `b` of `buckets` over `n`
/// samples: evenly cut, each at least one sample long, none past the end.
pub open spec fn bucket_of(n: nat, buckets: nat, b: nat) -> (nat, nat) {
    let start = b * n / buckets;
    let e = (b + 1) * n / buckets;
    let end = if e > start + 1 {
        e
    } else {
        start + 1
    };
    (start, if end < n {
        end
    } else {
        n
    })
}

/// The buckets for downsampling `n` samples to about `max_points`: `None`
/// when no downsampling is needed (`n <= max_points`, or fewer than four
/// points requested), else `max_points / 2` buckets, each contributing its
/// minimum and maximum.
pub fn downsample_buckets(n: usize, max_points: usize) -> (r: Option<Vec<(usize, usize)>>)
    ensures
        (n <= max_points || max_points < 4) <==> r is None,
        r matches Some(v) ==> v@.len() == max_points / 2 && forall|b: int|
            0 <= b < v@.len() ==> (#[trigger] v@[b]).0 == bucket_of(n as nat, (max_points / 2) as nat, b as nat).0
                && v@[b].1 == bucket_of(n as nat, (max_points / 2) as nat, b as nat).1,
{
    if n <= max_points || max_points < 4 {
        return None;
    }
    let buckets = max_points / 2;
    let mut out: Vec<(usize, usize)> = Vec::new();
    let mut b: usize = 0;
    // The products `b * n` are taken in 128 bits, where they cannot overflow.
    let nn = n as u128;
    let bb = buckets as u128;
    while b < buckets
        invariant
            buckets == max_points / 2,
            buckets >= 2,
            n > max_points,
            nn == n,
            bb == buckets,
            b <= buckets,
            out@.len() == b,
            forall|k: int|
                0 <= k < b ==> (#[trigger] out@[k]).0 == bucket_of(n as nat, buckets as nat, k as nat).0 && out@[k].1
                    == bucket_of(n as nat, buckets as nat, k as nat).1,
        decreases buckets - b,
    {
        let b1 = b as u128;
        assert(b1 * nn < 0x1_0000_0000_0000_0000_0000_0000_0000_0000 && (b1 + 1) * nn
            < 0x1_0000_0000_0000_0000_0000_0000_0000_0000) by (nonlinear_arith)
            requires
                b1 < bb,
                bb <= 0xffff_ffff_ffff_ffff,
                nn <= 0xffff_ffff_ffff_ffff,
        ;
        assert(((b * n) as int) / (buckets as int) < n as int) by (nonlinear_arith)
            requires
                b < buckets,
                buckets > 0,
                n > 0,
        {
            let q = ((b * n) as int) / (buckets as int);
            vstd::arithmetic::div_mod::lemma_fundamental_div_mod((b * n) as int, buckets as int);
            assert(q * buckets <= b * n);
        }
        let start128 = b1 * nn / bb;
        let e128 = (b1 + 1) * nn / bb;
        let start = start128 as usize;
        let end0: usize = if e128 > start128 + 1 {
            if e128 < nn {
                e128 as usize
            } else {
                n
            }
        } else {
            start + 1
        };
        let end = if end0 < n {
            end0
        } else {
            n
        };
        out.push((start, end));
        b = b + 1;
    }
    Some(out)
}

/// The spans during which a flag is set: the index where each run of set
/// flags starts, and the index of the first clear flag after it (`None` when
/// the run lasts to the end). Runs are listed in order.
pub open spec fn flag_spans(flags: Seq<bool>) -> Seq<(nat, Option<nat>)>
    decreases flags.len(),
{
    if flags.len() == 0 {
        seq![]
    } else {
        let prev = flag_spans(flags.drop_last());
        let i = (flags.len() - 1) as nat;
        let open = prev.len() > 0 && prev.last().1 is None;
        if flags.last() {
            if open {
                prev
            } else {
                prev.push((i, None))
            }
        } else if open {
            prev.update(prev.len() - 1, (prev.last().0, Some(i)))
        } else {
            prev
        }
    }
}

/// View of spans.
pub open spec fn spans_view(v: Seq<(usize, Option<usize>)>) -> Seq<(nat, Option<nat>)> {
    v.map_values(
        |s: (usize, Option<usize>)|
            (
                s.0 as nat,
                match s.1 {
                    Some(e) => Some(e as nat),
                    None => None,
                },
            ),
    )
}

/// The spans of set flags in a 0/1 series (see [`flag_spans`]).
pub fn active_spans(flags: &[bool]) -> (r: Vec<(usize, Option<usize>)>)
    ensures
        spans_view(r@) == flag_spans(flags@),
{
    let mut out: Vec<(usize, Option<usize>)> = Vec::new();
    let mut i: usize = 0;
    while i < flags.len()
        invariant
            i <= flags@.len(),
            spans_view(out@) == flag_spans(flags@.take(i as int)),
        decreases flags@.len() - i,
    {
        assert(flags@.take(i + 1).drop_last() =~= flags@.take(i as int));
        assert(flags@.take(i + 1).last() == flags@[i as int]);
        let n = out.len();
        let open = n > 0 && out[n - 1].1.is_none();
        let ghost before = out@;
        if flags[i] {
            if !open {
                out.push((i, None));
                assert(spans_view(out@) =~= spans_view(before).push((i as nat, None)));
            }
        } else if open {
            let start = out[n - 1].0;
            out.set(n - 1, (start, Some(i)));
            assert(spans_view(out@) =~= spans_view(before).update(n - 1, (start as nat, Some(i as nat))));
        }
        i = i + 1;
    }
    assert(flags@.take(i as int) =~= flags@);
    out
}

} // verus!
