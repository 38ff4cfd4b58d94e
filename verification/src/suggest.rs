//! "Did you mean?" suggestions: edit distance and the choice of close names.
use vstd::prelude::*;

use crate::text::chars_of;

verus! {

/// Edit distance between the first `i` characters of `a` and the first `j`
/// characters of `b`: the least number of single-character insertions,
/// deletions and substitutions that turn one prefix into the other.
pub open spec fn edit_distance_prefix(a: Seq<char>, b: Seq<char>, i: nat, j: nat) -> nat
    decreases i + j,
{
    if i == 0 {
        j
    } else if j == 0 {
        i
    } else {
        let del = edit_distance_prefix(a, b, (i - 1) as nat, j) + 1;
        let ins = edit_distance_prefix(a, b, i, (j - 1) as nat) + 1;
        let sub = edit_distance_prefix(a, b, (i - 1) as nat, (j - 1) as nat) + (if a[i - 1]
            == b[j - 1] {
            0nat
        } else {
            1nat
        });
        min_nat(min_nat(del, ins), sub)
    }
}

pub open spec fn min_nat(x: nat, y: nat) -> nat {
    if x <= y {
        x
    } else {
        y
    }
}

/// Levenshtein distance between two character sequences.
pub open spec fn edit_distance(a: Seq<char>, b: Seq<char>) -> nat {
    edit_distance_prefix(a, b, a.len(), b.len())
}

proof fn lemma_edit_distance_bounded(a: Seq<char>, b: Seq<char>, i: nat, j: nat)
    ensures
        edit_distance_prefix(a, b, i, j) <= if i >= j {
            i
        } else {
            j
        },
    decreases i + j,
{
    if i > 0 && j > 0 {
        lemma_edit_distance_bounded(a, b, (i - 1) as nat, (j - 1) as nat);
    }
}

/// Levenshtein distance between `a` and `b`, counted in characters.
pub fn levenshtein(a: &str, b: &str) -> (d: usize)
    requires
        a@.len() < usize::MAX,
        b@.len() < usize::MAX,
    ensures
        d == edit_distance(a@, b@),
{
    let a = chars_of(a);
    let b = chars_of(b);
    let la = a.len();
    let lb = b.len();
    if la == 0 {
        return lb;
    }
    if lb == 0 {
        return la;
    }
    let mut prev: Vec<usize> = Vec::new();
    let mut k: usize = 0;
    while k <= lb
        invariant
            k <= lb + 1,
            lb == b@.len(),
            lb < usize::MAX,
            prev@.len() == k,
            forall|t: int| 0 <= t < k ==> prev@[t] == edit_distance_prefix(a@, b@, 0, t as nat),
        decreases lb + 1 - k,
    {
        prev.push(k);
        k = k + 1;
    }
    let mut curr: Vec<usize> = Vec::new();
    let mut k: usize = 0;
    while k <= lb
        invariant
            k <= lb + 1,
            lb < usize::MAX,
            curr@.len() == k,
        decreases lb + 1 - k,
    {
        curr.push(0);
        k = k + 1;
    }
    let mut i: usize = 1;
    while i <= la
        invariant
            1 <= i <= la + 1,
            la == a@.len(),
            lb == b@.len(),
            la < usize::MAX,
            lb < usize::MAX,
            prev@.len() == lb + 1,
            curr@.len() == lb + 1,
            forall|t: int|
                0 <= t <= lb ==> prev@[t] == edit_distance_prefix(
                    a@,
                    b@,
                    (i - 1) as nat,
                    t as nat,
                ),
        decreases la + 1 - i,
    {
        curr.set(0, i);
        let mut j: usize = 1;
        while j <= lb
            invariant
                1 <= i <= la,
                1 <= j <= lb + 1,
                la == a@.len(),
                lb == b@.len(),
                la < usize::MAX,
                lb < usize::MAX,
                prev@.len() == lb + 1,
                curr@.len() == lb + 1,
                forall|t: int|
                    0 <= t <= lb ==> prev@[t] == edit_distance_prefix(
                        a@,
                        b@,
                        (i - 1) as nat,
                        t as nat,
                    ),
                forall|t: int|
                    0 <= t < j ==> curr@[t] == edit_distance_prefix(a@, b@, i as nat, t as nat),
            decreases lb + 1 - j,
        {
            proof {
                lemma_edit_distance_bounded(a@, b@, (i - 1) as nat, j as nat);
                lemma_edit_distance_bounded(a@, b@, i as nat, (j - 1) as nat);
                lemma_edit_distance_bounded(a@, b@, (i - 1) as nat, (j - 1) as nat);
            }
            let cost: usize = if a[i - 1] == b[j - 1] {
                0
            } else {
                1
            };
            let del = prev[j] + 1;
            let ins = curr[j - 1] + 1;
            let sub = prev[j - 1] + cost;
            let m1 = if del <= ins {
                del
            } else {
                ins
            };
            let m = if m1 <= sub {
                m1
            } else {
                sub
            };
            curr.set(j, m);
            j = j + 1;
        }
        std::mem::swap(&mut prev, &mut curr);
        i = i + 1;
    }
    prev[lb]
}


/// Length in bytes of the UTF-8 encoding of `s`.
pub open spec fn utf8_len(s: Seq<char>) -> int {
    vstd::utf8::encode_utf8(s).len() as int
}

/// `name` is offered as a suggestion for `target` at distance `d`: it is
/// exactly `d` edits away, and it is at most two bytes shorter than `target`.
pub open spec fn suggestible(target: Seq<char>, name: Seq<char>, d: nat) -> bool {
    &&& edit_distance(target, name) == d
    &&& utf8_len(name) >= (if utf8_len(target) >= 2 {
        utf8_len(target) - 2
    } else {
        0
    })
}

/// The names of `pool`, in pool order, that are suggestible at distance `d`.
pub open spec fn names_at_distance(target: Seq<char>, pool: Seq<Seq<char>>, d: nat) -> Seq<
    Seq<char>,
>
    decreases pool.len(),
{
    if pool.len() == 0 {
        Seq::empty()
    } else {
        let rest = names_at_distance(target, pool.drop_last(), d);
        if suggestible(target, pool.last(), d) {
            rest.push(pool.last())
        } else {
            rest
        }
    }
}

/// At most the first `max` elements of `s`.
pub open spec fn cap<A>(s: Seq<A>, max: nat) -> Seq<A> {
    if s.len() <= max {
        s
    } else {
        s.take(max as int)
    }
}

/// The suggestions for `target`: the names at distance 1, then 2, then 3
/// (each group in pool order), cut to at most `max` names.
pub open spec fn suggestions(target: Seq<char>, pool: Seq<Seq<char>>, max: nat) -> Seq<
    Seq<char>,
> {
    cap(
        names_at_distance(target, pool, 1) + names_at_distance(target, pool, 2)
            + names_at_distance(target, pool, 3),
        max,
    )
}

pub open spec fn string_views(v: Seq<String>) -> Seq<Seq<char>> {
    v.map_values(|s: String| s@)
}

proof fn lemma_cap_push<A>(s: Seq<A>, x: A, max: nat)
    ensures
        cap(s.push(x), max) == if cap(s, max).len() < max {
            cap(s, max).push(x)
        } else {
            cap(s, max)
        },
{
    if s.len() + 1 <= max {
        assert(cap(s, max) == s);
    } else if s.len() < max {
        assert(s.len() + 1 > max);
    } else {
        assert(s.push(x).take(max as int) =~= s.take(max as int));
    }
}

/// Up to `max` names from `pool` that are between one and three edits away
/// from `target` and at most two bytes shorter than it, closest first; names
/// at the same distance keep their order in `pool`.
pub fn similar_names(target: &str, pool: &Vec<String>, max: usize) -> (out: Vec<String>)
    requires
        target@.len() < usize::MAX,
        utf8_len(target@) <= usize::MAX,
        forall|k: int|
            0 <= k < pool@.len() ==> #[trigger] pool@[k]@.len() < usize::MAX && utf8_len(
                pool@[k]@,
            ) <= usize::MAX,
    ensures
        string_views(out@) == suggestions(target@, string_views(pool@), max as nat),
{
    let ghost views = string_views(pool@);
    let n = pool.len();
    let mut dist: Vec<usize> = Vec::new();
    let mut k: usize = 0;
    while k < n
        invariant
            k <= n,
            n == pool@.len(),
            dist@.len() == k,
            target@.len() < usize::MAX,
            forall|t: int|
                0 <= t < pool@.len() ==> #[trigger] pool@[t]@.len() < usize::MAX && utf8_len(
                    pool@[t]@,
                ) <= usize::MAX,
            forall|t: int| 0 <= t < k ==> dist@[t] == edit_distance(target@, #[trigger] pool@[t]@),
        decreases n - k,
    {
        let d = levenshtein(target, pool[k].as_str());
        dist.push(d);
        k = k + 1;
    }
    let min_len = target.len().saturating_sub(2);
    let mut out: Vec<String> = Vec::new();
    let ghost mut done: Seq<Seq<char>> = Seq::empty();
    let mut d: usize = 1;
    while d <= 3
        invariant
            1 <= d <= 4,
            n == pool@.len(),
            views == string_views(pool@),
            dist@.len() == n,
            min_len == (if utf8_len(target@) >= 2 {
                utf8_len(target@) - 2
            } else {
                0
            }),
            forall|t: int|
                0 <= t < pool@.len() ==> #[trigger] pool@[t]@.len() < usize::MAX && utf8_len(
                    pool@[t]@,
                ) <= usize::MAX,
            forall|t: int| 0 <= t < n ==> dist@[t] == edit_distance(target@, #[trigger] pool@[t]@),
            done == (if d == 1 {
                Seq::<Seq<char>>::empty()
            } else if d == 2 {
                names_at_distance(target@, views, 1)
            } else if d == 3 {
                names_at_distance(target@, views, 1) + names_at_distance(target@, views, 2)
            } else {
                names_at_distance(target@, views, 1) + names_at_distance(target@, views, 2)
                    + names_at_distance(target@, views, 3)
            }),
            string_views(out@) == cap(done, max as nat),
        decreases 4 - d,
    {
        let mut k: usize = 0;
        while k < n
            invariant
                1 <= d <= 3,
                k <= n,
                n == pool@.len(),
                views == string_views(pool@),
                dist@.len() == n,
                min_len == (if utf8_len(target@) >= 2 {
                    utf8_len(target@) - 2
                } else {
                    0
                }),
                forall|t: int|
                    0 <= t < pool@.len() ==> #[trigger] pool@[t]@.len() < usize::MAX && utf8_len(
                        pool@[t]@,
                    ) <= usize::MAX,
                forall|t: int|
                    0 <= t < n ==> dist@[t] == edit_distance(target@, #[trigger] pool@[t]@),
                string_views(out@) == cap(
                    done + names_at_distance(target@, views.take(k as int), d as nat),
                    max as nat,
                ),
            decreases n - k,
        {
            let ghost before = done + names_at_distance(target@, views.take(k as int), d as nat);
            assert(views.take(k + 1).drop_last() =~= views.take(k as int));
            assert(views.take(k + 1).last() == pool@[k as int]@);
            let name_len = pool[k].as_str().len();
            let hit = dist[k] == d && name_len >= min_len;
            assert(hit == suggestible(target@, pool@[k as int]@, d as nat));
            proof {
                lemma_cap_push(before, pool@[k as int]@, max as nat);
            }
            if hit {
                if out.len() < max {
                    let ghost o = out@;
                    out.push(pool[k].clone());
                    assert(string_views(out@) =~= string_views(o).push(pool@[k as int]@));
                }
                assert(done + names_at_distance(target@, views.take(k + 1), d as nat) =~= before.push(
                    pool@[k as int]@,
                ));
            } else {
                assert(done + names_at_distance(target@, views.take(k + 1), d as nat) =~= before);
            }
            k = k + 1;
        }
        assert(views.take(n as int) =~= views);
        proof {
            done = done + names_at_distance(target@, views, d as nat);
        }
        d = d + 1;
    }
    out
}

} // verus!
