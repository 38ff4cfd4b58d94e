//! The stable sort behind `SORT` and `SORT_BY`, ordered by the default `<`.
use vstd::prelude::*;

use crate::compare::{default_less, less_by_default};
use crate::value::Value;

verus! {

/// `p` lists the positions `0..n`, each once.
pub open spec fn is_permutation(p: Seq<int>, n: int) -> bool {
    &&& p.len() == n
    &&& forall|i: int| 0 <= i < p.len() ==> 0 <= #[trigger] p[i] < n
    &&& forall|i: int, j: int| 0 <= i < j < p.len() ==> #[trigger] p[i] != #[trigger] p[j]
}

/// `out` is `input` rearranged: its i-th element is the `p[i]`-th of
/// `input`.
pub open spec fn rearranged<T>(out: Seq<T>, input: Seq<T>, p: Seq<int>) -> bool {
    &&& is_permutation(p, input.len() as int)
    &&& out.len() == input.len()
    &&& forall|i: int| 0 <= i < out.len() ==> #[trigger] out[i] == input[p[i]]
}

/// The keys of `s` are strictly weakly ordered by the default `<`: it is
/// irreflexive and transitive, and so is being unordered.
pub open spec fn strict_weak_order<T>(s: Seq<(Value, T)>) -> bool {
    &&& forall|i: int| 0 <= i < s.len() ==> !less_by_default(#[trigger] s[i].0, s[i].0)
    &&& forall|i: int, j: int, k: int|
        0 <= i < s.len() && 0 <= j < s.len() && 0 <= k < s.len() && #[trigger] less_by_default(s[i].0, s[k].0)
            ==> less_by_default(s[i].0, #[trigger] s[j].0) || less_by_default(s[j].0, s[k].0)
    &&& forall|i: int, j: int, k: int|
        0 <= i < s.len() && 0 <= j < s.len() && 0 <= k < s.len() && #[trigger] less_by_default(s[i].0, s[j].0)
            && #[trigger] less_by_default(s[j].0, s[k].0) ==> less_by_default(s[i].0, s[k].0)
}

/// `out`, taken from positions `p` of the input, is sorted by key, and
/// elements whose keys are unordered keep their input order.
pub open spec fn sorted_stably<T>(out: Seq<(Value, T)>, p: Seq<int>) -> bool {
    forall|i: int, j: int|
        0 <= i < j < out.len() ==> !less_by_default(#[trigger] out[j].0, #[trigger] out[i].0) && (
        !less_by_default(out[i].0, out[j].0) ==> p[i] < p[j])
}


/// Inserting `x`, taken from position `t` of the input, at `k` keeps a
/// stably sorted prefix stably sorted, when `x` is not less than the
/// elements before `k` and less than those from `k` on.
proof fn lemma_insert_sorted<T>(
    input: Seq<(Value, T)>,
    out: Seq<(Value, T)>,
    p: Seq<int>,
    k: int,
    t: int,
)
    requires
        strict_weak_order(input),
        0 <= t < input.len(),
        0 <= k <= out.len(),
        out.len() == p.len(),
        forall|i: int| 0 <= i < p.len() ==> 0 <= #[trigger] p[i] < t,
        forall|i: int| 0 <= i < out.len() ==> #[trigger] out[i] == input[p[i]],
        sorted_stably(out, p),
        k > 0 ==> !less_by_default(input[t].0, out[k - 1].0),
        forall|q: int| k <= q < out.len() ==> less_by_default(input[t].0, #[trigger] out[q].0),
    ensures
        sorted_stably(out.insert(k, input[t]), p.insert(k, t)),
{
    let x = input[t];
    let o2 = out.insert(k, x);
    let p2 = p.insert(k, t);
    assert forall|i: int, j: int| 0 <= i < j < o2.len() implies !less_by_default(
        #[trigger] o2[j].0,
        #[trigger] o2[i].0,
    ) && (!less_by_default(o2[i].0, o2[j].0) ==> p2[i] < p2[j]) by {
        if j < k {
            assert(o2[i] == out[i] && o2[j] == out[j]);
            assert(p2[i] == p[i] && p2[j] == p[j]);
        } else if j == k {
            assert(o2[j] == x && p2[j] == t);
            assert(o2[i] == out[i] && p2[i] == p[i]);
            if i < k - 1 {
                // out[i] <= out[k - 1] and x is not below out[k - 1].
                assert(!less_by_default(out[k - 1].0, out[i].0));
                assert(out[i] == input[p[i]]);
                assert(out[k - 1] == input[p[k - 1]]);
                if less_by_default(input[t].0, input[p[i]].0) {
                    assert(less_by_default(input[t].0, input[p[k - 1]].0) || less_by_default(
                        input[p[k - 1]].0,
                        input[p[i]].0,
                    ));
                }
            }
        } else if i == k {
            assert(o2[i] == x && p2[i] == t);
            assert(o2[j] == out[j - 1] && p2[j] == p[j - 1]);
            assert(less_by_default(input[t].0, out[j - 1].0));
            assert(out[j - 1] == input[p[j - 1]]);
            if less_by_default(input[p[j - 1]].0, input[t].0) {
                assert(less_by_default(input[p[j - 1]].0, input[p[j - 1]].0));
            }
        } else if i < k {
            assert(o2[i] == out[i] && o2[j] == out[j - 1]);
            assert(p2[i] == p[i] && p2[j] == p[j - 1]);
            assert(i < j - 1);
        } else {
            assert(o2[i] == out[i - 1] && o2[j] == out[j - 1]);
            assert(p2[i] == p[i - 1] && p2[j] == p[j - 1]);
        }
    }
}

/// Sorts `v` stably by its keys under the default `<`.
///
/// The result is always a rearrangement of `v`; when the default `<` is a
/// strict weak order on the keys (as on INTEGERs, on STRINGs, on booleans,
/// on FLOATs without NaN), it is sorted by key and keeps the input order of
/// elements with unordered keys, which determines it.
pub fn sort_by_keys<T>(v: Vec<(Value, T)>) -> (r: Vec<(Value, T)>)
    ensures
        exists|p: Seq<int>| #[trigger] rearranged(r@, v@, p) && (strict_weak_order(v@) ==> sorted_stably(r@, p)),
{
    let ghost input = v@;
    let n = v.len();
    let mut rest = crate::builtins::reversed(v);
    let mut out: Vec<(Value, T)> = Vec::new();
    let ghost mut p: Seq<int> = Seq::empty();
    while rest.len() > 0
        invariant
            n == input.len(),
            rest@.len() <= n,
            rest@ == input.reverse().take(rest@.len() as int),
            out@.len() == n - rest@.len(),
            p.len() == out@.len(),
            forall|i: int| 0 <= i < p.len() ==> 0 <= #[trigger] p[i] < out@.len(),
            forall|i: int, j: int| 0 <= i < j < p.len() ==> #[trigger] p[i] != #[trigger] p[j],
            forall|i: int| 0 <= i < out@.len() ==> #[trigger] out@[i] == input[p[i]],
            strict_weak_order(input) ==> sorted_stably(out@, p),
        decreases rest@.len(),
    {
        let ghost t: int = out@.len() as int;
        let ghost len0 = rest@.len();
        let x = rest.pop().unwrap();
        assert(input.reverse()[len0 - 1] == input[t]);
        assert(x == input[t]);
        assert(rest@ =~= input.reverse().take(len0 - 1));
        let mut k = out.len();
        while k > 0 && default_less(&x.0, &out[k - 1].0)
            invariant
                k <= out@.len(),
                x == input[t],
                forall|q: int| k <= q < out@.len() ==> less_by_default(x.0, #[trigger] out@[q].0),
            decreases k,
        {
            k = k - 1;
        }
        proof {
            if strict_weak_order(input) {
                assert forall|i: int| 0 <= i < p.len() implies 0 <= #[trigger] p[i] < t by {}
                lemma_insert_sorted(input, out@, p, k as int, t);
            }
        }
        let ghost old_out = out@;
        let ghost old_p = p;
        out.insert(k, x);
        proof {
            p = p.insert(k as int, t);
            assert(out@ =~= old_out.insert(k as int, input[t]));
            assert forall|i: int| 0 <= i < out@.len() implies #[trigger] out@[i] == input[p[i]] by {
                if i < k {
                    assert(out@[i] == old_out[i] && p[i] == old_p[i]);
                } else if i > k {
                    assert(out@[i] == old_out[i - 1] && p[i] == old_p[i - 1]);
                }
            }
            assert forall|i: int| 0 <= i < p.len() implies 0 <= #[trigger] p[i] < out@.len() by {
                if i < k {
                    assert(p[i] == old_p[i]);
                } else if i > k {
                    assert(p[i] == old_p[i - 1]);
                }
            }
            assert forall|i: int, j: int| 0 <= i < j < p.len() implies #[trigger] p[i] != #[trigger] p[j] by {
                if i < k {
                    assert(p[i] == old_p[i]);
                } else if i > k {
                    assert(p[i] == old_p[i - 1]);
                }
                if j < k {
                    assert(p[j] == old_p[j]);
                } else if j > k {
                    assert(p[j] == old_p[j - 1]);
                }
            }
        }
    }
    assert(rearranged(out@, input, p));
    out
}

} // verus!
