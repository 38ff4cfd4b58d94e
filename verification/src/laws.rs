//! Properties that relate several built-ins, or that hold of every call.
use vstd::prelude::*;

use crate::arith::{trunc_div, trunc_rem};
use crate::collection::uniq_of;
use crate::compare::value_eq;
use crate::lookup::{has_element, has_match, key_index, lemma_key_index, upsert};
use crate::modpath::{ancestors_of, normalize, normalize_step, project_root, within, Part};
use crate::collection::joined;
use crate::display::shown;
use crate::format::{first_dict, rendered, FormatSegment};
use crate::text::decimal;
use crate::modpath::has_prefix;
use crate::strings::{find_from, replace_all, split_all, string_values};
use crate::suggest::{cap, edit_distance, edit_distance_prefix, names_at_distance, suggestions};
use crate::value::{BuiltinError, Value};
use crate::collection::{
    builtin_drop_post, builtin_range_post, builtin_take_post, builtin_zip_post, flatten_one, no_err, range_down,
    range_up,
};
use crate::strings::{
    builtin_replace_post, builtin_split_post, builtin_lower_post, builtin_pad_end_post, builtin_pad_start_post, builtin_substr_post, builtin_upper_post,
    ascii_ws, builtin_trim_end_post, builtin_trim_post, builtin_trim_start_post, leading_ws, trailing_ws,
    trim_end_spec, trim_start_spec,
};
use crate::compare::{less_by_default, text_order, value_order, Order};
use crate::double::{int_double_bits, is_nan, two63};

verus! {

/// `p` is a lexically normal path: only names, after a leading root or
/// prefix, or a prefix followed by a root.
pub open spec fn is_normal_path(p: Seq<Part>) -> bool {
    forall|i: int| 0 <= i < p.len() ==> #[trigger] head_ok(p, i)
}

/// The component `i` of `p` may stand there in a normal path.
pub open spec fn head_ok(p: Seq<Part>, i: int) -> bool {
    p[i] is Normal || (i == 0 && (p[i] is Root || p[i] is Prefix)) || (i == 1 && p[i] is Root && p[0] is Prefix)
}

/// Lexical normalisation leaves no `.` or `..` component, and a root or
/// prefix only in front.
pub proof fn law_normalize_is_normal(parts: Seq<Part>)
    ensures
        is_normal_path(normalize(parts)),
    decreases parts.len(),
{
    if parts.len() > 0 {
        law_normalize_is_normal(parts.drop_last());
        let prev = normalize(parts.drop_last());
        let out = normalize(parts);
        assert(out == normalize_step(prev, parts.last()));
        assert forall|i: int| 0 <= i < out.len() implies #[trigger] head_ok(out, i) by {
            assert(head_ok(prev, i) || i >= prev.len());
            match parts.last() {
                Part::Cur => {},
                Part::Parent => {
                    if prev.len() > 0 && prev.last() is Normal {
                        assert(out[i] == prev[i]);
                        assert(head_ok(prev, i));
                    }
                },
                Part::Normal(_) => {
                    if i < prev.len() {
                        assert(out[i] == prev[i]);
                        assert(head_ok(prev, i));
                        if i == 1 {
                            assert(out[0] == prev[0]);
                        }
                    }
                },
                _ => {},
            }
        }
    }
}

/// Normalising a normal path changes nothing.
pub proof fn law_normalize_fixes_normal(p: Seq<Part>)
    requires
        is_normal_path(p),
    ensures
        normalize(p) == p,
    decreases p.len(),
{
    if p.len() > 0 {
        let q = p.drop_last();
        assert forall|i: int| 0 <= i < q.len() implies #[trigger] head_ok(q, i) by {
            assert(q[i] == p[i]);
            assert(head_ok(p, i));
            if i == 1 {
                assert(q[0] == p[0]);
            }
        }
        law_normalize_fixes_normal(q);
        assert(head_ok(p, p.len() - 1));
        assert(p.last() == p[p.len() - 1]);
        if p.len() == 1 {
            assert(q.len() == 0);
            assert(p =~= seq![p[0]]);
        } else if p.len() == 2 && p.last() is Root {
            assert(q =~= seq![p[0]]);
            assert(p =~= seq![p[0], p[1]]);
        } else {
            assert(p.last() is Normal);
            assert(q.push(p.last()) =~= p);
        }
    }
}

/// Lexical normalisation is idempotent.
pub proof fn law_normalize_idempotent(parts: Seq<Part>)
    ensures
        normalize(normalize(parts)) == normalize(parts),
{
    law_normalize_is_normal(parts);
    law_normalize_fixes_normal(normalize(parts));
}

/// Every path lies within itself.
pub proof fn law_within_reflexive(p: Seq<Part>)
    ensures
        within(p, p),
{
    assert(p.take(p.len() as int) =~= p);
}

/// A path within `b`, where `b` lies within `c`, lies within `c`.
pub proof fn law_within_transitive(a: Seq<Part>, b: Seq<Part>, c: Seq<Part>)
    requires
        within(a, b),
        within(b, c),
    ensures
        within(a, c),
{
    assert(a.take(c.len() as int) =~= b.take(c.len() as int));
}

proof fn lemma_ancestors_are_prefixes(p: Seq<Part>, k: int)
    requires
        0 <= k < ancestors_of(p).len(),
    ensures
        within(p, ancestors_of(p)[k]),
    decreases p.len(),
{
    if k == 0 {
        law_within_reflexive(p);
    } else {
        let q = p.drop_last();
        lemma_ancestors_are_prefixes(q, k - 1);
        assert(ancestors_of(p)[k] == ancestors_of(q)[k - 1]);
        assert(within(p, q)) by {
            assert(p.take(q.len() as int) =~= q);
        }
        law_within_transitive(p, q, ancestors_of(q)[k - 1]);
    }
}

/// The project root found from `start` always contains `start`.
pub proof fn law_project_root_contains_start(start: Seq<Part>, manifest_at: Seq<bool>)
    requires
        manifest_at.len() == ancestors_of(start).len(),
    ensures
        within(start, project_root(start, manifest_at)),
{
    if exists|k: int| 0 <= k < manifest_at.len() && manifest_at[k] {
        let k0 = choose|k: int| 0 <= k < manifest_at.len() && manifest_at[k];
        lemma_first_true(manifest_at, k0);
        let k = choose|k: int|
            0 <= k < manifest_at.len() && manifest_at[k] && forall|j: int| 0 <= j < k ==> !manifest_at[j];
        lemma_ancestors_are_prefixes(start, k);
    } else {
        law_within_reflexive(start);
    }
}

proof fn lemma_first_true(s: Seq<bool>, k: int)
    requires
        0 <= k < s.len(),
        s[k],
    ensures
        exists|m: int| 0 <= m < s.len() && s[m] && forall|j: int| 0 <= j < m ==> !s[j],
    decreases k,
{
    if exists|j: int| 0 <= j < k && s[j] {
        let j = choose|j: int| 0 <= j < k && s[j];
        lemma_first_true(s, j);
    } else {
        assert(forall|j: int| 0 <= j < k ==> !s[j]);
    }
}

/// `SHIFT` undoes `UNSHIFT`: taking the first element off `x` followed by
/// `a` gives `a` back.
pub proof fn law_shift_undoes_unshift(a: Seq<Value>, x: Value)
    ensures
        (seq![x] + a).drop_first() == a,
{
    assert((seq![x] + a).drop_first() =~= a);
}

/// `REVERSE` twice gives the array back.
pub proof fn law_reverse_twice(a: Seq<Value>)
    ensures
        a.reverse().reverse() == a,
{
    assert(a.reverse().reverse() =~= a);
}

/// What `TAKE(a, n)` keeps and `DROP(a, n)` keeps make up `a`.
pub proof fn law_take_then_drop(a: Seq<Value>, n: int)
    requires
        0 <= n <= a.len(),
    ensures
        a.take(n) + a.skip(n) == a,
{
    assert(a.take(n) + a.skip(n) =~= a);
}

/// INTEGER division and remainder agree: `(a / b) * b + a % b == a`, the
/// remainder is smaller than the divisor and takes the sign of the
/// dividend.
pub proof fn law_div_mod(a: int, b: int)
    requires
        b != 0,
    ensures
        trunc_div(a, b) * b + trunc_rem(a, b) == a,
        trunc_rem(a, b) == 0 || (trunc_rem(a, b) > 0) == (a > 0),
        -(if b >= 0 { b } else { -b }) < trunc_rem(a, b) < (if b >= 0 { b } else { -b }),
{
    let x = if a >= 0 { a } else { -a };
    let y = if b >= 0 { b } else { -b };
    let q = x / y;
    assert(x == q * y + x % y) by (nonlinear_arith)
        requires
            y > 0,
            q == x / y,
    ;
    assert(0 <= x % y < y) by (nonlinear_arith)
        requires
            y > 0,
    ;
    if a >= 0 {
        if b > 0 {
            assert(trunc_div(a, b) * b == q * y);
        } else {
            assert(trunc_div(a, b) * b == q * y) by (nonlinear_arith)
                requires
                    trunc_div(a, b) == -q,
                    b == -y,
            ;
        }
        assert(trunc_rem(a, b) == x % y);
    } else {
        if b > 0 {
            assert(trunc_div(a, b) * b == -(q * y)) by (nonlinear_arith)
                requires
                    trunc_div(a, b) == -q,
                    b == y,
            ;
        } else {
            assert(trunc_div(a, b) * b == -(q * y)) by (nonlinear_arith)
                requires
                    trunc_div(a, b) == q,
                    b == -y,
            ;
        }
        assert(trunc_rem(a, b) == -(x % y));
    }
}

/// `INDEX_GET` reads back what `INDEX_SET` wrote at an index in bounds.
pub proof fn law_array_set_then_get(a: Seq<Value>, n: int, v: Value)
    requires
        0 <= n < a.len(),
    ensures
        a.update(n, v)[n] == v,
        a.update(n, v).len() == a.len(),
{
}

proof fn lemma_key_index_keys(d: Seq<(Value, Value)>, e: Seq<(Value, Value)>, key: Value)
    requires
        d.len() == e.len(),
        forall|i: int| 0 <= i < d.len() ==> (#[trigger] d[i]).0 == e[i].0,
    ensures
        key_index(d, key) == key_index(e, key),
    decreases d.len(),
{
    if d.len() > 0 {
        assert(d[0].0 == e[0].0);
        assert forall|i: int| 0 <= i < d.drop_first().len() implies (#[trigger] d.drop_first()[i]).0
            == e.drop_first()[i].0 by {
            assert(d.drop_first()[i] == d[i + 1]);
            assert(e.drop_first()[i] == e[i + 1]);
        }
        lemma_key_index_keys(d.drop_first(), e.drop_first(), key);
    }
}

proof fn lemma_key_index_push(d: Seq<(Value, Value)>, key: Value, v: Value)
    requires
        key_index(d, key) < 0,
        value_eq(key, key),
    ensures
        key_index(d.push((key, v)), key) == d.len(),
    decreases d.len(),
{
    lemma_key_index(d, key);
    if d.len() > 0 {
        assert(d.push((key, v)).drop_first() =~= d.drop_first().push((key, v)));
        assert(!value_eq(d[0].0, key));
        lemma_key_index(d.drop_first(), key);
        if key_index(d.drop_first(), key) >= 0 {
            let k = key_index(d.drop_first(), key);
            assert(d.drop_first()[k] == d[k + 1]);
            assert(has_match(d, key));
        }
        lemma_key_index_push(d.drop_first(), key, v);
    } else {
        assert(d.push((key, v))[0] == (key, v));
    }
}

/// After `INDEX_SET(d, k, v)`, `INDEX_GET(d, k)` gives `v` and `HAS(d, k)`
/// holds, for any key that equals itself (every key but a NaN, or a
/// container holding one).
pub proof fn law_dict_set_then_get(d: Seq<(Value, Value)>, key: Value, v: Value)
    requires
        value_eq(key, key),
    ensures
        key_index(upsert(d, key, v), key) >= 0,
        upsert(d, key, v)[key_index(upsert(d, key, v), key)].1 == v,
        has_match(upsert(d, key, v), key),
{
    lemma_key_index(d, key);
    let k = key_index(d, key);
    let out = upsert(d, key, v);
    if k >= 0 {
        lemma_key_index_keys(d, out, key);
    } else {
        lemma_key_index_push(d, key, v);
    }
    lemma_key_index(out, key);
}

/// `UNIQ` leaves no element equal to an earlier one.
pub proof fn law_uniq_distinct(s: Seq<Value>)
    ensures
        forall|i: int, j: int|
            0 <= i < j < uniq_of(s).len() ==> !value_eq(#[trigger] uniq_of(s)[i], #[trigger] uniq_of(s)[j]),
    decreases s.len(),
{
    if s.len() > 0 {
        law_uniq_distinct(s.drop_last());
        let seen = uniq_of(s.drop_last());
        if !has_element(seen, s.last()) {
            let out = seen.push(s.last());
            assert forall|i: int, j: int| 0 <= i < j < out.len() implies !value_eq(
                #[trigger] out[i],
                #[trigger] out[j],
            ) by {
                if j < seen.len() {
                    assert(out[i] == seen[i] && out[j] == seen[j]);
                } else {
                    assert(out[j] == s.last());
                    assert(out[i] == seen[i]);
                }
            }
        }
    }
}

/// Replacing a pattern that does not occur changes nothing.
pub proof fn law_replace_absent(s: Seq<char>, old: Seq<char>, new: Seq<char>)
    requires
        find_from(s, old) < 0,
    ensures
        replace_all(s, old, new) == s,
    decreases s.len(),
{
    if old.len() > 0 && s.len() > 0 {
        assert(find_from(s.drop_first(), old) < 0);
        law_replace_absent(s.drop_first(), old, new);
        assert(seq![s[0]] + s.drop_first() =~= s);
    }
}

proof fn lemma_edit_distance_diagonal(a: Seq<char>, i: nat)
    requires
        i <= a.len(),
    ensures
        edit_distance_prefix(a, a, i, i) == 0,
    decreases i,
{
    if i > 0 {
        lemma_edit_distance_diagonal(a, (i - 1) as nat);
    }
}

/// A name is at edit distance zero from itself.
pub proof fn law_edit_distance_self(a: Seq<char>)
    ensures
        edit_distance(a, a) == 0,
{
    lemma_edit_distance_diagonal(a, a.len());
}

proof fn lemma_edit_distance_swap(a: Seq<char>, b: Seq<char>, i: nat, j: nat)
    ensures
        edit_distance_prefix(a, b, i, j) == edit_distance_prefix(b, a, j, i),
    decreases i + j,
{
    if i > 0 && j > 0 {
        lemma_edit_distance_swap(a, b, (i - 1) as nat, j);
        lemma_edit_distance_swap(a, b, i, (j - 1) as nat);
        lemma_edit_distance_swap(a, b, (i - 1) as nat, (j - 1) as nat);
    }
}

/// The distance between two names does not depend on their order.
pub proof fn law_edit_distance_symmetric(a: Seq<char>, b: Seq<char>)
    ensures
        edit_distance(a, b) == edit_distance(b, a),
{
    lemma_edit_distance_swap(a, b, a.len(), b.len());
}

proof fn lemma_edit_distance_bounds(a: Seq<char>, b: Seq<char>, i: nat, j: nat)
    ensures
        edit_distance_prefix(a, b, i, j) <= if i >= j { i } else { j },
        edit_distance_prefix(a, b, i, j) >= if i >= j { i - j } else { j - i },
    decreases i + j,
{
    if i > 0 && j > 0 {
        lemma_edit_distance_bounds(a, b, (i - 1) as nat, j);
        lemma_edit_distance_bounds(a, b, i, (j - 1) as nat);
        lemma_edit_distance_bounds(a, b, (i - 1) as nat, (j - 1) as nat);
    }
}

/// The distance between two names is at least the difference of their
/// lengths and at most the greater length.
pub proof fn law_edit_distance_bounds(a: Seq<char>, b: Seq<char>)
    ensures
        edit_distance(a, b) >= if a.len() >= b.len() { a.len() - b.len() } else { b.len() - a.len() },
        edit_distance(a, b) <= if a.len() >= b.len() { a.len() } else { b.len() },
{
    lemma_edit_distance_bounds(a, b, a.len(), b.len());
}

proof fn lemma_edit_distance_zero(a: Seq<char>, b: Seq<char>, i: nat)
    requires
        i <= a.len(),
        i <= b.len(),
        edit_distance_prefix(a, b, i, i) == 0,
    ensures
        forall|k: int| 0 <= k < i ==> a[k] == b[k],
    decreases i,
{
    if i > 0 {
        lemma_edit_distance_bounds(a, b, (i - 1) as nat, i);
        lemma_edit_distance_bounds(a, b, i, (i - 1) as nat);
        lemma_edit_distance_zero(a, b, (i - 1) as nat);
    }
}

/// Two names are at distance zero exactly when they are equal.
pub proof fn law_edit_distance_zero_iff_equal(a: Seq<char>, b: Seq<char>)
    ensures
        edit_distance(a, b) == 0 <==> a == b,
{
    if edit_distance(a, b) == 0 {
        lemma_edit_distance_bounds(a, b, a.len(), b.len());
        lemma_edit_distance_zero(a, b, a.len());
        assert(a =~= b);
    }
    if a == b {
        lemma_edit_distance_diagonal(a, a.len());
    }
}

proof fn lemma_edit_distance_step(a: Seq<char>, b: Seq<char>, i: nat, j: nat)
    ensures
        i > 0 ==> edit_distance_prefix(a, b, i, j) <= edit_distance_prefix(a, b, (i - 1) as nat, j) + 1,
        j > 0 ==> edit_distance_prefix(a, b, i, j) <= edit_distance_prefix(a, b, i, (j - 1) as nat) + 1,
{
}

proof fn lemma_edit_distance_drop(a: Seq<char>, b: Seq<char>, i: nat, j: nat)
    requires
        i > 0,
    ensures
        edit_distance_prefix(a, b, (i - 1) as nat, j) <= edit_distance_prefix(a, b, i, j) + 1,
    decreases i + j,
{
    if j == 0 {
    } else if i == 1 {
        lemma_edit_distance_bounds(a, b, i, j);
    } else {
        lemma_edit_distance_drop(a, b, i, (j - 1) as nat);
        lemma_edit_distance_step(a, b, (i - 1) as nat, j);
    }
}

proof fn lemma_edit_distance_drop_right(a: Seq<char>, b: Seq<char>, i: nat, j: nat)
    requires
        j > 0,
    ensures
        edit_distance_prefix(a, b, i, (j - 1) as nat) <= edit_distance_prefix(a, b, i, j) + 1,
{
    lemma_edit_distance_drop(b, a, j, i);
    lemma_edit_distance_swap(a, b, i, j);
    lemma_edit_distance_swap(a, b, i, (j - 1) as nat);
}

proof fn lemma_edit_distance_triangle(a: Seq<char>, b: Seq<char>, c: Seq<char>, i: nat, j: nat, k: nat)
    ensures
        edit_distance_prefix(a, c, i, k) <= edit_distance_prefix(a, b, i, j) + edit_distance_prefix(b, c, j, k),
    decreases i + j + k,
{
    let x = edit_distance_prefix(a, b, i, j);
    let y = edit_distance_prefix(b, c, j, k);
    if i == 0 {
        lemma_edit_distance_bounds(b, c, j, k);
    } else if k == 0 {
        lemma_edit_distance_bounds(a, b, i, j);
    } else if j == 0 {
        lemma_edit_distance_bounds(a, c, i, k);
    } else {
        let i1 = (i - 1) as nat;
        let j1 = (j - 1) as nat;
        let k1 = (k - 1) as nat;
        lemma_edit_distance_step(a, c, i, k);
        if x == edit_distance_prefix(a, b, i1, j) + 1 {
            lemma_edit_distance_triangle(a, b, c, i1, j, k);
        } else if y == edit_distance_prefix(b, c, j, k1) + 1 {
            lemma_edit_distance_triangle(a, b, c, i, j, k1);
        } else if x == edit_distance_prefix(a, b, i, j1) + 1 {
            lemma_edit_distance_drop(b, c, j, k);
            lemma_edit_distance_triangle(a, b, c, i, j1, k);
        } else if y == edit_distance_prefix(b, c, j1, k) + 1 {
            lemma_edit_distance_drop_right(a, b, i, j);
            lemma_edit_distance_triangle(a, b, c, i, j1, k);
        } else {
            lemma_edit_distance_triangle(a, b, c, i1, j1, k1);
        }
    }
}

/// Going from one name to another through a third never takes fewer
/// edits than going directly.
pub proof fn law_edit_distance_triangle(a: Seq<char>, b: Seq<char>, c: Seq<char>)
    ensures
        edit_distance(a, c) <= edit_distance(a, b) + edit_distance(b, c),
{
    lemma_edit_distance_triangle(a, b, c, a.len(), b.len(), c.len());
}

/// No name occurs twice in `s`.
pub open spec fn distinct_texts(s: Seq<Seq<char>>) -> bool {
    forall|i: int, j: int| 0 <= i < j < s.len() ==> s[i] != s[j]
}

proof fn lemma_names_at_distance(t: Seq<char>, pool: Seq<Seq<char>>, d: nat)
    requires
        distinct_texts(pool),
    ensures
        distinct_texts(names_at_distance(t, pool, d)),
        forall|x: Seq<char>|
            #[trigger] names_at_distance(t, pool, d).contains(x) ==> pool.contains(x) && edit_distance(t, x) == d,
    decreases pool.len(),
{
    if pool.len() > 0 {
        let front = pool.drop_last();
        assert forall|i: int, j: int| 0 <= i < j < front.len() implies front[i] != front[j] by {
            assert(front[i] == pool[i] && front[j] == pool[j]);
        }
        lemma_names_at_distance(t, front, d);
        let rest = names_at_distance(t, front, d);
        assert forall|x: Seq<char>| #[trigger] front.contains(x) implies pool.contains(x) by {
            let k = choose|k: int| 0 <= k < front.len() && front[k] == x;
            assert(pool[k] == x);
        }
        if crate::suggest::suggestible(t, pool.last(), d) {
            let out = rest.push(pool.last());
            assert(!front.contains(pool.last())) by {
                if front.contains(pool.last()) {
                    let k = choose|k: int| 0 <= k < front.len() && front[k] == pool.last();
                    assert(pool[k] == pool[pool.len() - 1]);
                }
            }
            assert(!rest.contains(pool.last()));
            assert forall|i: int, j: int| 0 <= i < j < out.len() implies out[i] != out[j] by {
                if j == out.len() - 1 {
                    assert(out[i] == rest[i]);
                    assert(rest.contains(rest[i]));
                }
            }
            assert forall|x: Seq<char>| #[trigger] out.contains(x) implies pool.contains(x) && edit_distance(t, x)
                == d by {
                let k = choose|k: int| 0 <= k < out.len() && out[k] == x;
                if k < rest.len() {
                    assert(rest[k] == x);
                    assert(rest.contains(x));
                } else {
                    assert(pool[pool.len() - 1] == x);
                }
            }
        }
    }
}

proof fn lemma_concat_distinct(a: Seq<Seq<char>>, b: Seq<Seq<char>>)
    requires
        distinct_texts(a),
        distinct_texts(b),
        forall|x: Seq<char>| #[trigger] a.contains(x) ==> !b.contains(x),
    ensures
        distinct_texts(a + b),
        forall|x: Seq<char>| #[trigger] (a + b).contains(x) <==> a.contains(x) || b.contains(x),
{
    let c = a + b;
    assert forall|i: int, j: int| 0 <= i < j < c.len() implies c[i] != c[j] by {
        if j < a.len() {
            assert(c[i] == a[i] && c[j] == a[j]);
        } else if i >= a.len() {
            assert(c[i] == b[i - a.len()] && c[j] == b[j - a.len()]);
        } else {
            assert(c[i] == a[i]);
            assert(a.contains(a[i]));
            assert(c[j] == b[j - a.len()]);
            assert(b.contains(b[j - a.len()]));
        }
    }
    assert forall|x: Seq<char>| #[trigger] c.contains(x) <==> a.contains(x) || b.contains(x) by {
        if c.contains(x) {
            let k = choose|k: int| 0 <= k < c.len() && c[k] == x;
            if k < a.len() {
                assert(a[k] == x);
            } else {
                assert(b[k - a.len()] == x);
            }
        }
        if a.contains(x) {
            let k = choose|k: int| 0 <= k < a.len() && a[k] == x;
            assert(c[k] == x);
        }
        if b.contains(x) {
            let k = choose|k: int| 0 <= k < b.len() && b[k] == x;
            assert(c[k + a.len()] == x);
        }
    }
}

/// Suggestions drawn from a pool without repeated names repeat no name.
pub proof fn law_suggestions_distinct(target: Seq<char>, pool: Seq<Seq<char>>, max: nat)
    requires
        distinct_texts(pool),
    ensures
        distinct_texts(suggestions(target, pool, max)),
{
    let n1 = names_at_distance(target, pool, 1);
    let n2 = names_at_distance(target, pool, 2);
    let n3 = names_at_distance(target, pool, 3);
    lemma_names_at_distance(target, pool, 1);
    lemma_names_at_distance(target, pool, 2);
    lemma_names_at_distance(target, pool, 3);
    lemma_concat_distinct(n1, n2);
    lemma_concat_distinct(n1 + n2, n3);
    let all = n1 + n2 + n3;
    let c = cap(all, max);
    if all.len() > max {
        assert forall|i: int, j: int| 0 <= i < j < c.len() implies c[i] != c[j] by {
            assert(c[i] == all[i] && c[j] == all[j]);
        }
    }
}

/// `parts` with `sep` between each two of them.
pub open spec fn joined_texts(parts: Seq<Seq<char>>, sep: Seq<char>) -> Seq<char>
    decreases parts.len(),
{
    if parts.len() == 0 {
        Seq::empty()
    } else if parts.len() == 1 {
        parts[0]
    } else {
        joined_texts(parts.drop_last(), sep) + sep + parts.last()
    }
}

proof fn lemma_joined_front(a: Seq<char>, parts: Seq<Seq<char>>, sep: Seq<char>)
    requires
        parts.len() > 0,
    ensures
        joined_texts(seq![a] + parts, sep) == a + sep + joined_texts(parts, sep),
    decreases parts.len(),
{
    let q = seq![a] + parts;
    if parts.len() == 1 {
        assert(q.drop_last() =~= seq![a]);
        assert(joined_texts(seq![a], sep) == a);
        assert(q.last() == parts[0]);
        assert(joined_texts(q, sep) =~= a + sep + joined_texts(parts, sep));
    } else {
        assert(q.drop_last() =~= seq![a] + parts.drop_last());
        lemma_joined_front(a, parts.drop_last(), sep);
        assert(q.last() == parts.last());
        assert(joined_texts(q, sep) =~= a + sep + joined_texts(parts, sep));
    }
}

proof fn lemma_find_has_prefix(s: Seq<char>, pat: Seq<char>)
    requires
        find_from(s, pat) >= 0,
    ensures
        find_from(s, pat) <= s.len(),
        has_prefix(s.skip(find_from(s, pat)), pat),
    decreases s.len(),
{
    if has_prefix(s, pat) {
        assert(s.skip(0) =~= s);
    } else {
        lemma_find_has_prefix(s.drop_first(), pat);
        assert(s.skip(find_from(s, pat)) =~= s.drop_first().skip(find_from(s.drop_first(), pat)));
    }
}

proof fn lemma_split_join(s: Seq<char>, sep: Seq<char>)
    requires
        sep.len() > 0,
    ensures
        split_all(s, sep).len() > 0,
        joined_texts(split_all(s, sep), sep) == s,
    decreases s.len(),
{
    let i = find_from(s, sep);
    if i < 0 || i + sep.len() > s.len() {
    } else {
        let rest = s.skip(i + sep.len());
        lemma_split_join(rest, sep);
        lemma_joined_front(s.take(i), split_all(rest, sep), sep);
        lemma_find_has_prefix(s, sep);
        assert(s.skip(i).take(sep.len() as int) == sep);
        assert(s =~= s.take(i) + sep + rest);
    }
}

proof fn lemma_joined_strings(vs: Seq<Value>, parts: Seq<Seq<char>>, sep: Seq<char>, texts: Seq<(u64, String)>)
    requires
        string_values(vs, parts),
    ensures
        joined(vs, sep, texts) == joined_texts(parts, sep),
    decreases vs.len(),
{
    if vs.len() > 0 {
        let k = vs.len() - 1;
        assert(vs[k] matches Value::String(t) && t@ == parts[k]);
        assert(shown(vs[k], texts) == parts[k]);
        if vs.len() == 1 {
        } else {
            assert(string_values(vs.drop_last(), parts.drop_last())) by {
                assert forall|j: int| 0 <= j < vs.drop_last().len() implies (#[trigger] vs.drop_last()[j] matches Value::String(
                    t,
                ) && t@ == parts.drop_last()[j]) by {
                    assert(vs.drop_last()[j] == vs[j]);
                    assert(vs[j] matches Value::String(t) && t@ == parts[j]);
                }
            }
            lemma_joined_strings(vs.drop_last(), parts.drop_last(), sep, texts);
        }
    }
}

/// `JOIN` undoes `SPLIT`: joining the pieces of `s` with the separator they
/// were split at gives `s` back.
pub proof fn law_join_undoes_split(s: Seq<char>, sep: Seq<char>, pieces: Seq<Value>, texts: Seq<(u64, String)>)
    requires
        sep.len() > 0,
        string_values(pieces, split_all(s, sep)),
    ensures
        joined(pieces, sep, texts) == s,
{
    lemma_split_join(s, sep);
    lemma_joined_strings(pieces, split_all(s, sep), sep, texts);
}

/// The value `a + k * step`.
pub open spec fn step_value(a: int, k: int, step: int) -> int {
    a + k * step
}

proof fn lemma_range_up(a: int, end: int, step: int)
    requires
        step > 0,
        end <= i64::MAX,
    ensures
        forall|k: int|
            0 <= k < range_up(a, end, step).len() ==> #[trigger] range_up(a, end, step)[k] == step_value(a, k, step)
                && step_value(a, k, step) < end,
        forall|k: int| 0 <= k && #[trigger] step_value(a, k, step) < end ==> k < range_up(a, end, step).len(),
    decreases (if a < end {
        end - a
    } else {
        0
    }),
{
    let r = range_up(a, end, step);
    if a >= end {
        assert forall|k: int| 0 <= k && #[trigger] step_value(a, k, step) < end implies k < r.len() by {
            assert(k * step >= 0) by (nonlinear_arith)
                requires
                    k >= 0,
                    step > 0,
            ;
        }
    } else if a + step > i64::MAX {
        assert(r =~= seq![a]);
        assert forall|k: int| 0 <= k && #[trigger] step_value(a, k, step) < end implies k < r.len() by {
            if k >= 1 {
                assert(k * step >= step) by (nonlinear_arith)
                    requires
                        k >= 1,
                        step > 0,
                ;
            }
        }
        assert forall|k: int| 0 <= k < r.len() implies #[trigger] r[k] == step_value(a, k, step) && step_value(
            a,
            k,
            step,
        ) < end by {
            assert(k == 0);
            assert(0 * step == 0);
        }
    } else {
        let rest = range_up(a + step, end, step);
        lemma_range_up(a + step, end, step);
        assert(r =~= seq![a] + rest);
        assert forall|k: int| 0 <= k < r.len() implies #[trigger] r[k] == step_value(a, k, step) && step_value(
            a,
            k,
            step,
        ) < end by {
            if k == 0 {
                assert(0 * step == 0);
            } else {
                assert(r[k] == rest[k - 1]);
                assert(rest[k - 1] == step_value(a + step, k - 1, step));
                assert((k - 1) * step + step == k * step) by (nonlinear_arith);
            }
        }
        assert forall|k: int| 0 <= k && #[trigger] step_value(a, k, step) < end implies k < r.len() by {
            if k >= 1 {
                assert((k - 1) * step + step == k * step) by (nonlinear_arith);
                assert(step_value(a + step, k - 1, step) < end);
            }
        }
    }
}

/// `RANGE(start, end, step)` with a positive step counts up from `start`
/// by `step`: its `k`-th element is `start + k * step`, every element is
/// below `end`, and every value `start + k * step` below `end` is in it.
pub proof fn law_range_counts_up(start: i64, end: i64, step: i64, r: Result<Value, BuiltinError>)
    requires
        step > 0,
        builtin_range_post(seq![Value::Integer(start), Value::Integer(end), Value::Integer(step)], r),
    ensures
        r matches Ok(Value::Array(out)) && (forall|k: int|
            0 <= k < out@.len() ==> #[trigger] out@[k] == Value::Integer(step_value(start as int, k, step as int) as i64)
                && step_value(start as int, k, step as int) < end) && (forall|k: int|
            0 <= k && #[trigger] step_value(start as int, k, step as int) < end ==> k < out@.len()),
{
    let args = seq![Value::Integer(start), Value::Integer(end), Value::Integer(step)];
    assert(crate::collection::no_err(args)) by {
        assert forall|i: int| 0 <= i < args.len() implies !(#[trigger] args[i] is ErrValue) by {}
    }
    lemma_range_up(start as int, end as int, step as int);
    let rs = range_up(start as int, end as int, step as int);
    let out = r->Ok_0->Array_0;
    assert(out@ == rs.map_values(|x: int| Value::Integer(x as i64)));
    assert forall|k: int| 0 <= k < out@.len() implies #[trigger] out@[k] == Value::Integer(
        step_value(start as int, k, step as int) as i64,
    ) && step_value(start as int, k, step as int) < end by {
        assert(rs[k] == step_value(start as int, k, step as int));
    }
}

/// The whitespace that `TRIM` removes: Rust's ASCII whitespace, that is
/// space, tab, line feed, form feed and carriage return.
pub open spec fn trimmed_char(c: char) -> bool {
    c == ' ' || c == '\t' || c == '\n' || c == '\x0C' || c == '\r'
}

proof fn lemma_ws_chars(c: char)
    ensures
        ascii_ws(c) <==> trimmed_char(c),
{
}

proof fn lemma_leading(s: Seq<char>)
    ensures
        leading_ws(s) <= s.len(),
        forall|j: int| 0 <= j < leading_ws(s) ==> trimmed_char(#[trigger] s[j]),
        leading_ws(s) < s.len() ==> !trimmed_char(s[leading_ws(s) as int]),
    decreases s.len(),
{
    if s.len() > 0 {
        lemma_ws_chars(s[0]);
        if ascii_ws(s[0]) {
            lemma_leading(s.drop_first());
            assert forall|j: int| 0 <= j < leading_ws(s) implies trimmed_char(#[trigger] s[j]) by {
                if j > 0 {
                    assert(s[j] == s.drop_first()[j - 1]);
                }
            }
            if leading_ws(s) < s.len() {
                assert(s[leading_ws(s) as int] == s.drop_first()[leading_ws(s.drop_first()) as int]);
            }
        }
    }
}

proof fn lemma_trailing(s: Seq<char>)
    ensures
        trailing_ws(s) <= s.len(),
        forall|j: int| s.len() - trailing_ws(s) <= j < s.len() ==> trimmed_char(#[trigger] s[j]),
        trailing_ws(s) < s.len() ==> !trimmed_char(s[s.len() - trailing_ws(s) - 1]),
    decreases s.len(),
{
    if s.len() > 0 {
        lemma_ws_chars(s.last());
        if ascii_ws(s.last()) {
            lemma_trailing(s.drop_last());
            assert forall|j: int| s.len() - trailing_ws(s) <= j < s.len() implies trimmed_char(#[trigger] s[j]) by {
                if j < s.len() - 1 {
                    assert(s[j] == s.drop_last()[j]);
                }
            }
            if trailing_ws(s) < s.len() {
                assert(s[s.len() - trailing_ws(s) - 1] == s.drop_last()[s.drop_last().len() - trailing_ws(
                    s.drop_last(),
                ) - 1]);
            }
        }
    }
}

/// `t` is `s` with a prefix of `p` and a suffix of `q` whitespace
/// characters cut off, and it neither starts nor ends with whitespace
/// where it was cut.
pub open spec fn cut_from(s: Seq<char>, t: Seq<char>, p: int, q: int) -> bool {
    &&& 0 <= p <= q <= s.len()
    &&& t == s.subrange(p, q)
    &&& forall|j: int| 0 <= j < p ==> trimmed_char(#[trigger] s[j])
    &&& forall|j: int| q <= j < s.len() ==> trimmed_char(#[trigger] s[j])
}

/// `TRIM_START(s)` removes exactly the leading ASCII whitespace of `s`.
pub proof fn law_trim_start_removes_leading_whitespace(s: String, r: Result<Value, BuiltinError>)
    requires
        builtin_trim_start_post(seq![Value::String(s)], r),
    ensures
        r matches Ok(Value::String(t)) && exists|p: int|
            #[trigger] cut_from(s@, t@, p, s@.len() as int) && (p < s@.len() ==> !trimmed_char(s@[p])),
{
    lemma_leading(s@);
    let p = leading_ws(s@) as int;
    assert(trim_start_spec(s@) =~= s@.subrange(p, s@.len() as int));
    assert(cut_from(s@, trim_start_spec(s@), p, s@.len() as int));
}

/// `TRIM_END(s)` removes exactly the trailing ASCII whitespace of `s`.
pub proof fn law_trim_end_removes_trailing_whitespace(s: String, r: Result<Value, BuiltinError>)
    requires
        builtin_trim_end_post(seq![Value::String(s)], r),
    ensures
        r matches Ok(Value::String(t)) && exists|q: int|
            #[trigger] cut_from(s@, t@, 0, q) && (q > 0 ==> !trimmed_char(s@[q - 1])),
{
    lemma_trailing(s@);
    let q = s@.len() - trailing_ws(s@);
    assert(trim_end_spec(s@) =~= s@.subrange(0, q));
    assert(cut_from(s@, trim_end_spec(s@), 0, q));
}

/// `TRIM(s)` removes exactly the leading and trailing ASCII whitespace of
/// `s`: what is left is a piece of `s` that is empty or starts and ends
/// with a character other than space, tab, line feed, form feed or
/// carriage return, and everything cut off is such whitespace.
pub proof fn law_trim_removes_outer_whitespace(s: String, r: Result<Value, BuiltinError>)
    requires
        builtin_trim_post(seq![Value::String(s)], r),
    ensures
        r matches Ok(Value::String(t)) && exists|p: int, q: int|
            #[trigger] cut_from(s@, t@, p, q) && (p < q ==> !trimmed_char(s@[p]) && !trimmed_char(s@[q - 1])),
{
    let a = s@;
    lemma_leading(a);
    let p = leading_ws(a) as int;
    let b = trim_start_spec(a);
    assert(b =~= a.subrange(p, a.len() as int));
    lemma_trailing(b);
    let q = p + b.len() - trailing_ws(b);
    let t = trim_end_spec(b);
    assert(t =~= a.subrange(p, q));
    assert forall|j: int| q <= j < a.len() implies trimmed_char(#[trigger] a[j]) by {
        assert(a[j] == b[j - p]);
    }
    if p < q {
        assert(b[0] == a[p]);
        assert(b[b.len() - trailing_ws(b) - 1] == a[q - 1]);
    }
    assert(cut_from(a, t, p, q));
}

/// The default `<` of `SORT` agrees with the `<` operator whenever a FLOAT
/// is compared: it holds exactly when the operator's order says less.
pub proof fn law_sort_order_agrees_with_less_than(a: Value, b: Value)
    requires
        a is Float || b is Float,
        a is Float || a is Integer,
        b is Float || b is Integer,
    ensures
        less_by_default(a, b) <==> value_order(a, b) == Some(Order::Less),
{
}

/// On FLOATs the default `<` of `SORT` is the order of the numbers: two
/// non-negative doubles are ordered like their encodings, two negative
/// ones the other way round, and a negative one below a non-negative one
/// (zeros of either sign being equal); a NaN is never less or greater.
pub proof fn law_sort_orders_floats_numerically(x: u64, y: u64)
    ensures
        is_nan(x) || is_nan(y) ==> !less_by_default(Value::Float(x), Value::Float(y)),
        !is_nan(x) && !is_nan(y) && (x as nat) < two63() && (y as nat) < two63() ==> (less_by_default(
            Value::Float(x),
            Value::Float(y),
        ) <==> x < y),
        !is_nan(x) && !is_nan(y) && (x as nat) >= two63() && (y as nat) >= two63() ==> (less_by_default(
            Value::Float(x),
            Value::Float(y),
        ) <==> y < x),
        !is_nan(x) && !is_nan(y) && (x as nat) >= two63() && (y as nat) < two63() && !(x as nat == two63() && y
            == 0) ==> less_by_default(Value::Float(x), Value::Float(y)) && !less_by_default(
            Value::Float(y),
            Value::Float(x),
        ),
{
}

proof fn lemma_range_down(a: int, end: int, step: int)
    requires
        step < 0,
        end >= i64::MIN,
    ensures
        forall|k: int|
            0 <= k < range_down(a, end, step).len() ==> #[trigger] range_down(a, end, step)[k] == step_value(a, k, step)
                && step_value(a, k, step) > end,
        forall|k: int| 0 <= k && #[trigger] step_value(a, k, step) > end ==> k < range_down(a, end, step).len(),
    decreases (if a > end {
        a - end
    } else {
        0
    }),
{
    let r = range_down(a, end, step);
    if a <= end {
        assert forall|k: int| 0 <= k && #[trigger] step_value(a, k, step) > end implies k < r.len() by {
            assert(k * step <= 0) by (nonlinear_arith)
                requires
                    k >= 0,
                    step < 0,
            ;
        }
    } else if a + step < i64::MIN {
        assert(r =~= seq![a]);
        assert forall|k: int| 0 <= k && #[trigger] step_value(a, k, step) > end implies k < r.len() by {
            if k >= 1 {
                assert(k * step <= step) by (nonlinear_arith)
                    requires
                        k >= 1,
                        step < 0,
                ;
            }
        }
        assert forall|k: int| 0 <= k < r.len() implies #[trigger] r[k] == step_value(a, k, step) && step_value(
            a,
            k,
            step,
        ) > end by {
            assert(k == 0);
            assert(0 * step == 0);
        }
    } else {
        let rest = range_down(a + step, end, step);
        lemma_range_down(a + step, end, step);
        assert(r =~= seq![a] + rest);
        assert forall|k: int| 0 <= k < r.len() implies #[trigger] r[k] == step_value(a, k, step) && step_value(
            a,
            k,
            step,
        ) > end by {
            if k == 0 {
                assert(0 * step == 0);
            } else {
                assert(r[k] == rest[k - 1]);
                assert((k - 1) * step + step == k * step) by (nonlinear_arith);
            }
        }
        assert forall|k: int| 0 <= k && #[trigger] step_value(a, k, step) > end implies k < r.len() by {
            if k >= 1 {
                assert((k - 1) * step + step == k * step) by (nonlinear_arith);
                assert(step_value(a + step, k - 1, step) > end);
            }
        }
    }
}

/// `RANGE(start, end, step)` with a negative step counts down from `start`
/// by `step`: its `k`-th element is `start + k * step`, every element is
/// above `end`, and every value `start + k * step` above `end` is in it.
pub proof fn law_range_counts_down(start: i64, end: i64, step: i64, r: Result<Value, BuiltinError>)
    requires
        step < 0,
        builtin_range_post(seq![Value::Integer(start), Value::Integer(end), Value::Integer(step)], r),
    ensures
        r matches Ok(Value::Array(out)) && (forall|k: int|
            0 <= k < out@.len() ==> #[trigger] out@[k] == Value::Integer(step_value(start as int, k, step as int) as i64)
                && step_value(start as int, k, step as int) > end) && (forall|k: int|
            0 <= k && #[trigger] step_value(start as int, k, step as int) > end ==> k < out@.len()),
{
    let args = seq![Value::Integer(start), Value::Integer(end), Value::Integer(step)];
    assert(no_err(args)) by {
        assert forall|i: int| 0 <= i < args.len() implies !(#[trigger] args[i] is ErrValue) by {}
    }
    lemma_range_down(start as int, end as int, step as int);
    let rs = range_down(start as int, end as int, step as int);
    let out = r->Ok_0->Array_0;
    assert forall|k: int| 0 <= k < out@.len() implies #[trigger] out@[k] == Value::Integer(
        step_value(start as int, k, step as int) as i64,
    ) && step_value(start as int, k, step as int) > end by {
        assert(rs[k] == step_value(start as int, k, step as int));
    }
}

/// `RANGE(start, end)` counts up by one: its `k`-th element is
/// `start + k`, and it holds every INTEGER from `start` up to, not
/// including, `end`.
pub proof fn law_range_two_arguments(start: i64, end: i64, r: Result<Value, BuiltinError>)
    requires
        builtin_range_post(seq![Value::Integer(start), Value::Integer(end)], r),
    ensures
        r matches Ok(Value::Array(out)) && (forall|k: int|
            0 <= k < out@.len() ==> #[trigger] out@[k] == Value::Integer((start + k) as i64) && start + k < end)
            && (start < end ==> out@.len() == end - start) && (start >= end ==> out@.len() == 0),
{
    let args = seq![Value::Integer(start), Value::Integer(end)];
    assert(no_err(args)) by {
        assert forall|i: int| 0 <= i < args.len() implies !(#[trigger] args[i] is ErrValue) by {}
    }
    lemma_range_up(start as int, end as int, 1);
    let rs = range_up(start as int, end as int, 1);
    let out = r->Ok_0->Array_0;
    assert forall|k: int| 0 <= k < out@.len() implies #[trigger] out@[k] == Value::Integer((start + k) as i64)
        && start + k < end by {
        assert(rs[k] == step_value(start as int, k, 1));
    }
    if start < end {
        assert(step_value(start as int, end - start - 1, 1) < end);
        if rs.len() > end - start {
            assert(rs[end - start] == step_value(start as int, end - start, 1));
        }
    } else {
        if rs.len() > 0 {
            assert(rs[0] == step_value(start as int, 0, 1));
        }
    }
}

/// `RANGE(n)` is `0, 1, ..., n - 1`.
pub proof fn law_range_one_argument(n: i64, r: Result<Value, BuiltinError>)
    requires
        builtin_range_post(seq![Value::Integer(n)], r),
    ensures
        r matches Ok(Value::Array(out)) && (forall|k: int| 0 <= k < out@.len() ==> #[trigger] out@[k] == Value::Integer(k as i64))
            && out@.len() == (if n > 0 { n as int } else { 0 }),
{
    let args = seq![Value::Integer(n)];
    assert(no_err(args)) by {
        assert forall|i: int| 0 <= i < args.len() implies !(#[trigger] args[i] is ErrValue) by {}
    }
    lemma_range_up(0, n as int, 1);
    let rs = range_up(0, n as int, 1);
    let out = r->Ok_0->Array_0;
    assert forall|k: int| 0 <= k < out@.len() implies #[trigger] out@[k] == Value::Integer(k as i64) by {
        assert(rs[k] == step_value(0, k, 1));
    }
    if n > 0 {
        assert(step_value(0, n - 1, 1) < n);
        if rs.len() > n {
            assert(rs[n as int] == step_value(0, n as int, 1));
        }
    } else {
        if rs.len() > 0 {
            assert(rs[0] == step_value(0, 0, 1));
        }
    }
}

/// `TAKE(a, n)` and `DROP(a, n)` split `a` after its first `min(n, len)`
/// elements: `TAKE` gives that prefix and `DROP` the rest.
pub proof fn law_take_and_drop_split(a: Vec<Value>, n: i64, t: Result<Value, BuiltinError>, d: Result<Value, BuiltinError>)
    requires
        0 <= n <= usize::MAX,
        builtin_take_post(seq![Value::Array(a), Value::Integer(n)], t),
        builtin_drop_post(seq![Value::Array(a), Value::Integer(n)], d),
    ensures
        t matches Ok(Value::Array(x)) && d matches Ok(Value::Array(y)) && x@.len() == (if n < a@.len() {
            n as int
        } else {
            a@.len() as int
        }) && x@ + y@ == a@ && (forall|i: int| 0 <= i < x@.len() ==> #[trigger] x@[i] == a@[i]),
{
    let args = seq![Value::Array(a), Value::Integer(n)];
    assert(no_err(args)) by {
        assert forall|i: int| 0 <= i < args.len() implies !(#[trigger] args[i] is ErrValue) by {}
    }
    let x = t->Ok_0->Array_0;
    let y = d->Ok_0->Array_0;
    assert(x@ + y@ =~= a@);
}

/// Flattening is done piece by piece: `FLAT` of two arrays joined is the
/// two flattened and joined.
pub proof fn law_flat_concatenates(a: Seq<Value>, b: Seq<Value>)
    ensures
        flatten_one(a + b) == flatten_one(a) + flatten_one(b),
    decreases b.len(),
{
    if b.len() == 0 {
        assert(a + b =~= a);
        assert(flatten_one(a) + flatten_one(b) =~= flatten_one(a));
    } else {
        assert((a + b).drop_last() =~= a + b.drop_last());
        law_flat_concatenates(a, b.drop_last());
    }
}

/// `FLAT` opens one level: an array element is replaced by its elements,
/// any other element stays as it is.
pub proof fn law_flat_opens_one_level(x: Vec<Value>, v: Value)
    ensures
        flatten_one(seq![Value::Array(x)]) == x@,
        !(v is Array) ==> flatten_one(seq![v]) == seq![v],
{
    let one = seq![Value::Array(x)];
    assert(one.drop_last() =~= Seq::<Value>::empty());
    assert(one.last() == Value::Array(x));
    assert(flatten_one(Seq::<Value>::empty()) == Seq::<Value>::empty());
    assert(flatten_one(one) == flatten_one(one.drop_last()) + x@);
    let single = seq![v];
    assert(single.drop_last() =~= Seq::<Value>::empty());
    assert(single.last() == v);
    assert(Seq::<Value>::empty() + x@ =~= x@);
    assert(Seq::<Value>::empty() + seq![v] =~= seq![v]);
}

/// `ZIP(a, b)` of two arrays pairs their elements position by position,
/// as far as the shorter one goes.
pub proof fn law_zip_pairs(a: Vec<Value>, b: Vec<Value>, r: Result<Value, BuiltinError>)
    requires
        builtin_zip_post(seq![Value::Array(a), Value::Array(b)], r),
    ensures
        r matches Ok(Value::Array(out)) && out@.len() == (if a@.len() < b@.len() {
            a@.len()
        } else {
            b@.len()
        }) && (forall|i: int|
            0 <= i < out@.len() ==> (#[trigger] out@[i] matches Value::Array(row) && row@ == seq![a@[i], b@[i]])),
{
    let args = seq![Value::Array(a), Value::Array(b)];
    assert(no_err(args)) by {
        assert forall|i: int| 0 <= i < args.len() implies !(#[trigger] args[i] is ErrValue) by {}
    }
    let cs = args.map_values(|v: Value| crate::collection::zip_column(v));
    assert(cs.len() == 2);
    assert(cs[0] == a@ && cs[1] == b@);
    assert(cs.drop_last().len() == 1 && cs.drop_last()[0] == a@);
    assert(crate::collection::shortest(cs.drop_last()) == a@.len());
    assert(cs.last() == b@);
    let out = r->Ok_0->Array_0;
    assert forall|i: int| 0 <= i < out@.len() implies (#[trigger] out@[i] matches Value::Array(row) && row@ == seq![
        a@[i],
        b@[i],
    ]) by {
        let row = out@[i]->Array_0;
        assert(row@[0] == cs[0][i]);
        assert(row@[1] == cs[1][i]);
        assert(row@ =~= seq![a@[i], b@[i]]);
    }
}

/// `UPPER(s)` changes exactly the ASCII lower-case letters, each to the
/// upper-case letter 32 code points below it, and keeps every other
/// character and the length.
pub proof fn law_upper_changes_only_ascii_letters(s: String, r: Result<Value, BuiltinError>)
    requires
        builtin_upper_post(seq![Value::String(s)], r),
    ensures
        r matches Ok(Value::String(t)) && t@.len() == s@.len() && (forall|i: int|
            0 <= i < s@.len() ==> if 97 <= (s@[i] as u32) <= 122 {
                (#[trigger] t@[i]) as u32 == (s@[i] as u32) - 32
            } else {
                t@[i] == s@[i]
            }),
{
    let t = r->Ok_0->String_0;
    assert forall|i: int| 0 <= i < s@.len() implies if 97 <= (s@[i] as u32) <= 122 {
        (#[trigger] t@[i]) as u32 == (s@[i] as u32) - 32
    } else {
        t@[i] == s@[i]
    } by {
        assert(t@[i] == crate::strings::ascii_upper(s@[i]));
    }
}

/// `LOWER(s)` changes exactly the ASCII upper-case letters, each to the
/// lower-case letter 32 code points above it, and keeps every other
/// character and the length.
pub proof fn law_lower_changes_only_ascii_letters(s: String, r: Result<Value, BuiltinError>)
    requires
        builtin_lower_post(seq![Value::String(s)], r),
    ensures
        r matches Ok(Value::String(t)) && t@.len() == s@.len() && (forall|i: int|
            0 <= i < s@.len() ==> if 65 <= (s@[i] as u32) <= 90 {
                (#[trigger] t@[i]) as u32 == (s@[i] as u32) + 32
            } else {
                t@[i] == s@[i]
            }),
{
    let t = r->Ok_0->String_0;
    assert forall|i: int| 0 <= i < s@.len() implies if 65 <= (s@[i] as u32) <= 90 {
        (#[trigger] t@[i]) as u32 == (s@[i] as u32) + 32
    } else {
        t@[i] == s@[i]
    } by {
        assert(t@[i] == crate::strings::ascii_lower(s@[i]));
    }
}

/// `PAD_START(s, n, c)` gives `s` itself when it has `n` characters or
/// more; otherwise exactly `n` characters: copies of the first character
/// of `c`, then `s`.
pub proof fn law_pad_start_fills_on_the_left(s: String, n: i64, c: String, r: Result<Value, BuiltinError>)
    requires
        c@.len() > 0,
        n <= usize::MAX,
        builtin_pad_start_post(seq![Value::String(s), Value::Integer(n), Value::String(c)], r),
    ensures
        r matches Ok(Value::String(t)) && (if n <= s@.len() {
            t@ == s@
        } else {
            t@.len() == n && t@.skip(n - s@.len()) == s@ && (forall|i: int|
                0 <= i < n - s@.len() ==> #[trigger] t@[i] == c@[0])
        }),
{
    let t = r->Ok_0->String_0;
    if n > s@.len() {
        assert(t@.skip(n - s@.len()) =~= s@);
    }
}

/// `PAD_END(s, n, c)` gives `s` itself when it has `n` characters or
/// more; otherwise exactly `n` characters: `s`, then copies of the first
/// character of `c`.
pub proof fn law_pad_end_fills_on_the_right(s: String, n: i64, c: String, r: Result<Value, BuiltinError>)
    requires
        c@.len() > 0,
        n <= usize::MAX,
        builtin_pad_end_post(seq![Value::String(s), Value::Integer(n), Value::String(c)], r),
    ensures
        r matches Ok(Value::String(t)) && (if n <= s@.len() {
            t@ == s@
        } else {
            t@.len() == n && t@.take(s@.len() as int) == s@ && (forall|i: int|
                s@.len() <= i < n ==> #[trigger] t@[i] == c@[0])
        }),
{
    let t = r->Ok_0->String_0;
    if n > s@.len() {
        assert(t@.take(s@.len() as int) =~= s@);
    }
}

/// `SUB(s, start, end)` with `0 <= start <= end <= len` is the characters
/// of `s` from `start` up to, not including, `end`; a negative bound
/// counts from the end of `s`.
pub proof fn law_sub_takes_characters(s: String, st: i64, en: i64, r: Result<Value, BuiltinError>)
    requires
        builtin_substr_post(seq![Value::String(s), Value::Integer(st), Value::Integer(en)], r),
    ensures
        0 <= st <= en <= s@.len() ==> (r matches Ok(Value::String(t)) && t@ == s@.subrange(st as int, en as int)),
        -s@.len() <= st < 0 && 0 <= en <= s@.len() && s@.len() + st <= en ==> (r matches Ok(Value::String(t)) && t@
            == s@.subrange(s@.len() + st, en as int)),
{
    if 0 <= st <= en <= s@.len() && st == en {
        assert(s@.subrange(st as int, en as int) =~= Seq::<char>::empty());
    }
    if -s@.len() <= st < 0 && 0 <= en <= s@.len() && s@.len() + st == en {
        assert(s@.subrange(s@.len() + st, en as int) =~= Seq::<char>::empty());
    }
}

/// `pat` stands in `s` at position `i`.
pub open spec fn occurs_at(s: Seq<char>, pat: Seq<char>, i: int) -> bool {
    0 <= i && i + pat.len() <= s.len() && s.subrange(i, i + pat.len()) == pat
}

proof fn lemma_find_from(s: Seq<char>, pat: Seq<char>)
    ensures
        find_from(s, pat) >= 0 ==> occurs_at(s, pat, find_from(s, pat)) && forall|j: int|
            0 <= j < find_from(s, pat) ==> !#[trigger] occurs_at(s, pat, j),
        find_from(s, pat) < 0 ==> forall|j: int| !#[trigger] occurs_at(s, pat, j),
    decreases s.len(),
{
    if has_prefix(s, pat) {
        assert(s.subrange(0, pat.len() as int) =~= s.take(pat.len() as int));
    } else if s.len() == 0 {
        assert forall|j: int| !#[trigger] occurs_at(s, pat, j) by {
            if occurs_at(s, pat, j) {
                assert(j == 0 && pat.len() == 0);
                assert(s.take(0) =~= pat);
            }
        }
    } else {
        let t = s.drop_first();
        lemma_find_from(t, pat);
        assert(!occurs_at(s, pat, 0)) by {
            if occurs_at(s, pat, 0) {
                assert(s.take(pat.len() as int) =~= s.subrange(0, pat.len() as int));
            }
        }
        assert forall|j: int| 1 <= j implies #[trigger] occurs_at(s, pat, j) == occurs_at(t, pat, j - 1) by {
            if j + pat.len() <= s.len() {
                assert(s.subrange(j, j + pat.len()) =~= t.subrange(j - 1, j - 1 + pat.len()));
            }
        }
        if find_from(t, pat) >= 0 {
            assert(occurs_at(s, pat, find_from(s, pat)));
            assert forall|j: int| 0 <= j < find_from(s, pat) implies !#[trigger] occurs_at(s, pat, j) by {
                if j >= 1 {
                    assert(!occurs_at(t, pat, j - 1));
                }
            }
        } else {
            assert forall|j: int| !#[trigger] occurs_at(s, pat, j) by {
                if j >= 1 {
                    assert(!occurs_at(t, pat, j - 1));
                }
            }
        }
    }
}

/// `INDEX(s, needle)` on strings finds the first occurrence: when it
/// gives `-1`, `needle` occurs nowhere in `s`; otherwise it gives one
/// plus the byte length of the text before the first place where
/// `needle` occurs.
pub proof fn law_index_finds_first_occurrence(s: String, needle: String, r: Result<Value, BuiltinError>)
    requires
        crate::lookup::builtin_index_post(seq![Value::String(s), Value::String(needle)], r),
    ensures
        r matches Ok(Value::Integer(p)) && (p == -1 <==> forall|j: int| !#[trigger] occurs_at(s@, needle@, j)) && (p
            != -1 ==> exists|f: int|
            #[trigger] occurs_at(s@, needle@, f) && p == crate::suggest::utf8_len(s@.take(f)) + 1 && forall|j: int|
                0 <= j < f ==> !#[trigger] occurs_at(s@, needle@, j)),
{
    lemma_find_from(s@, needle@);
    let f = find_from(s@, needle@);
    if f >= 0 {
        assert(crate::suggest::utf8_len(s@.take(f)) >= 0);
    }
}

/// The default `<` of `SORT` orders INTEGERs as numbers, `FALSE` before
/// `TRUE`, and never puts values of different kinds (other than numbers)
/// before one another.
pub proof fn law_sort_order_on_integers_and_booleans(a: Value, b: Value)
    ensures
        (a matches Value::Integer(x) && b matches Value::Integer(y)) ==> (less_by_default(a, b) <==> a->Integer_0
            < b->Integer_0),
        (a matches Value::Boolean(x) && b matches Value::Boolean(y)) ==> (less_by_default(a, b) <==> !a->Boolean_0
            && b->Boolean_0),
        !((a is Integer || a is Float) && (b is Integer || b is Float)) && !(a is String && b is String) && !(
        a is Boolean && b is Boolean) ==> !less_by_default(a, b),
{
}

/// `a` comes before `b` in dictionary order: they agree up to a position
/// where `a` ends and `b` goes on, or where `a` has the smaller code point.
pub open spec fn lexicographically_before(a: Seq<char>, b: Seq<char>) -> bool {
    exists|i: int|
        0 <= i <= a.len() && i <= b.len() && a.take(i) == b.take(i) && #[trigger] differs_upward(a, b, i)
}

/// At position `i`, `a` ends while `b` goes on, or `a` has the smaller
/// code point.
pub open spec fn differs_upward(a: Seq<char>, b: Seq<char>, i: int) -> bool {
    (i == a.len() && i < b.len()) || (i < a.len() && i < b.len() && (a[i] as u32) < (b[i] as u32))
}

proof fn lemma_text_order_less(a: Seq<char>, b: Seq<char>)
    ensures
        text_order(a, b) == Order::Less <==> lexicographically_before(a, b),
    decreases a.len(),
{
    if a.len() == 0 {
        if b.len() > 0 {
            assert(a.take(0) =~= b.take(0));
            assert(differs_upward(a, b, 0));
        } else {
            assert forall|i: int| 0 <= i <= a.len() && i <= b.len() implies !#[trigger] differs_upward(a, b, i) by {}
        }
    } else if b.len() == 0 {
        assert forall|i: int| 0 <= i <= a.len() && i <= b.len() implies !#[trigger] differs_upward(a, b, i) by {}
    } else if (a[0] as u32) < (b[0] as u32) {
        assert(a.take(0) =~= b.take(0));
        assert(differs_upward(a, b, 0));
    } else if (a[0] as u32) > (b[0] as u32) {
        assert forall|i: int|
            0 <= i <= a.len() && i <= b.len() && a.take(i) == b.take(i) implies !#[trigger] differs_upward(a, b, i) by {
            if i > 0 {
                assert(a.take(i)[0] == b.take(i)[0]);
            }
        }
    } else {
        let a1 = a.drop_first();
        let b1 = b.drop_first();
        lemma_text_order_less(a1, b1);
        vstd::utf8::char_u32_cast(a[0], a[0] as u32);
        vstd::utf8::char_u32_cast(b[0], b[0] as u32);
        assert(a[0] == b[0]);
        if lexicographically_before(a1, b1) {
            let i = choose|i: int|
                0 <= i <= a1.len() && i <= b1.len() && a1.take(i) == b1.take(i) && #[trigger] differs_upward(a1, b1, i);
            assert(a.take(i + 1) =~= seq![a[0]] + a1.take(i));
            assert(b.take(i + 1) =~= seq![b[0]] + b1.take(i));
            assert(differs_upward(a, b, i + 1));
        }
        if lexicographically_before(a, b) {
            let i = choose|i: int|
                0 <= i <= a.len() && i <= b.len() && a.take(i) == b.take(i) && #[trigger] differs_upward(a, b, i);
            assert(i >= 1);
            assert(a1.take(i - 1) =~= a.take(i).drop_first());
            assert(b1.take(i - 1) =~= b.take(i).drop_first());
            assert(differs_upward(a1, b1, i - 1));
        }
    }
}

/// The default `<` of `SORT` orders strings in dictionary order of their
/// code points: a string comes before every longer string it begins, and
/// otherwise the first differing character decides.
pub proof fn law_sort_orders_strings_lexicographically(x: String, y: String)
    ensures
        less_by_default(Value::String(x), Value::String(y)) <==> lexicographically_before(x@, y@),
{
    lemma_text_order_less(x@, y@);
}

proof fn lemma_prefix_occurs(s: Seq<char>, pat: Seq<char>, j: int)
    requires
        0 <= j <= s.len(),
    ensures
        has_prefix(s.skip(j), pat) == occurs_at(s, pat, j),
{
    if j + pat.len() <= s.len() {
        assert(s.skip(j).take(pat.len() as int) =~= s.subrange(j, j + pat.len()));
    }
}

proof fn lemma_replace_before(s: Seq<char>, old: Seq<char>, new: Seq<char>, i: int)
    requires
        old.len() > 0,
        0 <= i <= s.len(),
        forall|j: int| 0 <= j < i ==> !#[trigger] occurs_at(s, old, j),
    ensures
        replace_all(s, old, new) == s.take(i) + replace_all(s.skip(i), old, new),
    decreases i,
{
    if i == 0 {
        assert(s.skip(0) =~= s);
        assert(s.take(0) + replace_all(s, old, new) =~= replace_all(s, old, new));
    } else {
        let t = s.drop_first();
        lemma_prefix_occurs(s, old, 0);
        assert(!has_prefix(s, old)) by {
            assert(s.skip(0) =~= s);
        }
        assert forall|j: int| 0 <= j < i - 1 implies !#[trigger] occurs_at(t, old, j) by {
            assert(!occurs_at(s, old, j + 1));
            if occurs_at(t, old, j) {
                assert(s.subrange(j + 1, j + 1 + old.len()) =~= t.subrange(j, j + old.len()));
            }
        }
        lemma_replace_before(t, old, new, i - 1);
        assert(t.skip(i - 1) =~= s.skip(i));
        assert(s.take(i) =~= seq![s[0]] + t.take(i - 1));
        assert(replace_all(s, old, new) == seq![s[0]] + replace_all(t, old, new));
        assert(replace_all(s, old, new) =~= s.take(i) + replace_all(s.skip(i), old, new));
    }
}

proof fn lemma_replace_split_join(s: Seq<char>, old: Seq<char>, new: Seq<char>)
    requires
        old.len() > 0,
    ensures
        replace_all(s, old, new) == joined_texts(split_all(s, old), new),
    decreases s.len(),
{
    lemma_find_from(s, old);
    let i = find_from(s, old);
    if i < 0 {
        lemma_replace_before(s, old, new, s.len() as int);
        assert(s.take(s.len() as int) =~= s);
        assert(s.skip(s.len() as int) =~= Seq::<char>::empty());
        assert(replace_all(s, old, new) =~= s);
    } else {
        let rest = s.skip(i + old.len());
        lemma_replace_before(s, old, new, i);
        let u = s.skip(i);
        lemma_prefix_occurs(s, old, i);
        assert(u.len() > 0);
        assert(u.skip(old.len() as int) =~= rest);
        assert(replace_all(u, old, new) == new + replace_all(rest, old, new));
        lemma_replace_split_join(rest, old, new);
        lemma_split_join(rest, old);
        lemma_joined_front(s.take(i), split_all(rest, old), new);
        assert(split_all(s, old) == seq![s.take(i)] + split_all(rest, old));
        assert(replace_all(s, old, new) =~= s.take(i) + new + replace_all(rest, old, new));
    }
}

/// `REPLACE(s, old, new)` is `SPLIT(s, old)` joined again with `new`:
/// every occurrence of `old`, taken from the left without overlap, is
/// replaced, and nothing else changes.
pub proof fn law_replace_is_split_then_join(s: String, old: String, new: String, r: Result<Value, BuiltinError>)
    requires
        old@.len() > 0,
        builtin_replace_post(seq![Value::String(s), Value::String(old), Value::String(new)], r),
    ensures
        r matches Ok(Value::String(t)) && t@ == joined_texts(split_all(s@, old@), new@),
{
    lemma_replace_split_join(s@, old@, new@);
}

proof fn lemma_split_pieces(s: Seq<char>, sep: Seq<char>)
    requires
        sep.len() > 0,
    ensures
        forall|k: int, j: int|
            0 <= k < split_all(s, sep).len() ==> !#[trigger] occurs_at(split_all(s, sep)[k], sep, j),
    decreases s.len(),
{
    lemma_find_from(s, sep);
    let i = find_from(s, sep);
    let pieces = split_all(s, sep);
    if i < 0 || i + sep.len() > s.len() {
        assert(pieces =~= seq![s]);
        if i >= 0 {
            assert(occurs_at(s, sep, i));
        }
    } else {
        let rest = s.skip(i + sep.len());
        lemma_split_pieces(rest, sep);
        assert(pieces == seq![s.take(i)] + split_all(rest, sep));
        assert forall|k: int, j: int| 0 <= k < pieces.len() implies !#[trigger] occurs_at(pieces[k], sep, j) by {
            if k == 0 {
                if occurs_at(s.take(i), sep, j) {
                    assert(s.take(i).subrange(j, j + sep.len()) =~= s.subrange(j, j + sep.len()));
                    assert(occurs_at(s, sep, j));
                }
            } else {
                assert(pieces[k] == split_all(rest, sep)[k - 1]);
            }
        }
    }
}

/// `SPLIT(s, sep)` cuts at every occurrence of `sep`: no piece holds
/// `sep`, and `JOIN` with `sep` gives `s` back (see
/// `law_join_undoes_split`).
pub proof fn law_split_pieces_hold_no_separator(s: String, sep: String, r: Result<Value, BuiltinError>)
    requires
        sep@.len() > 0,
        builtin_split_post(seq![Value::String(s), Value::String(sep)], r),
    ensures
        r matches Ok(Value::Array(out)) && forall|k: int|
            0 <= k < out@.len() ==> (#[trigger] out@[k] matches Value::String(t) && forall|j: int|
                !#[trigger] occurs_at(t@, sep@, j)),
{
    lemma_split_pieces(s@, sep@);
    let out = r->Ok_0->Array_0;
    assert forall|k: int| 0 <= k < out@.len() implies (#[trigger] out@[k] matches Value::String(t) && forall|j: int|
        !#[trigger] occurs_at(t@, sep@, j)) by {
        assert(out@[k] matches Value::String(t) && t@ == split_all(s@, sep@)[k]);
        assert forall|j: int| !#[trigger] occurs_at(split_all(s@, sep@)[k], sep@, j) by {}
    }
}

/// A `FORMAT` template is filled piece by piece: the text of two runs of
/// segments one after the other is the two texts one after the other.
pub proof fn law_format_fills_piecewise(
    a: Seq<FormatSegment>,
    b: Seq<FormatSegment>,
    args: Seq<Value>,
    texts: Seq<(u64, String)>,
)
    ensures
        rendered(a + b, args, texts) == rendered(a, args, texts) + rendered(b, args, texts),
    decreases b.len(),
{
    if b.len() == 0 {
        assert(a + b =~= a);
        assert(rendered(a, args, texts) + rendered(b, args, texts) =~= rendered(a, args, texts));
    } else {
        assert((a + b).drop_last() =~= a + b.drop_last());
        assert((a + b).last() == b.last());
        law_format_fills_piecewise(a, b.drop_last(), args, texts);
    }
}

/// What each kind of `FORMAT` segment writes: literal text as it is;
/// `{N}` the `N`-th argument after the template, as `STR` writes it, or
/// `{N}` itself when there is no such argument; `{name}` the entry `name`
/// of the first DICT argument, or `{name}` itself when there is none.
pub proof fn law_format_segments(t: String, n: usize, name: String, args: Seq<Value>, texts: Seq<(u64, String)>)
    ensures
        rendered(seq![FormatSegment::Literal(t)], args, texts) == t@,
        rendered(seq![FormatSegment::Positional(n)], args, texts) == if n < args.len() {
            shown(args[n as int], texts)
        } else {
            "{"@ + decimal(n as int) + "}"@
        },
        first_dict(args) is None ==> rendered(seq![FormatSegment::Named(name)], args, texts) == "{"@ + name@ + "}"@,
{
    let l = seq![FormatSegment::Literal(t)];
    let p = seq![FormatSegment::Positional(n)];
    let m = seq![FormatSegment::Named(name)];
    assert(l.drop_last() =~= Seq::<FormatSegment>::empty());
    assert(p.drop_last() =~= Seq::<FormatSegment>::empty());
    assert(m.drop_last() =~= Seq::<FormatSegment>::empty());
    assert(rendered(Seq::<FormatSegment>::empty(), args, texts) == Seq::<char>::empty());
    assert(rendered(l, args, texts) =~= t@);
    assert(rendered(p, args, texts) =~= crate::format::segment_text(p.last(), args, texts));
    assert(rendered(m, args, texts) =~= crate::format::segment_text(m.last(), args, texts));
}

} // verus!
