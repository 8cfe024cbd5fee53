//! The field expansion engine: turns a list of parsed field items into the
//! concrete ascending set of matching integers.

use crate::error::Error;
use crate::expression::{CronBaseExpression, CronExpression};
use crate::value_set::{lhset_elems, lhset_insert, lhset_into_vec, lhset_new};
use linked_hash_set::LinkedHashSet;
use vstd::prelude::*;

verus! {

/// Lower endpoint of the contiguous span a base clause covers over a field
/// whose minimum is `min`.
pub open spec fn base_lo(e: CronBaseExpression, min: u32) -> u32 {
    match e {
        CronBaseExpression::All => min,
        CronBaseExpression::Exact(v) => v,
        CronBaseExpression::Range(a, _) => a,
    }
}

/// Upper endpoint of the span a plain base clause covers over a field whose
/// maximum is `max`.
pub open spec fn base_hi(e: CronBaseExpression, max: u32) -> u32 {
    match e {
        CronBaseExpression::All => max,
        CronBaseExpression::Exact(v) => v,
        CronBaseExpression::Range(_, b) => b,
    }
}

/// Upper endpoint of the span a stepped clause walks: an exact start keeps
/// stepping until the field maximum, while a range keeps its own end.
pub open spec fn period_hi(e: CronBaseExpression, max: u32) -> u32 {
    match e {
        CronBaseExpression::All => max,
        CronBaseExpression::Exact(_) => max,
        CronBaseExpression::Range(_, b) => b,
    }
}

/// A base clause is rejected exactly when it is a range with an endpoint past
/// the field maximum.  The lower endpoint is never compared with the field
/// minimum, and an exact value is not checked at all.
pub open spec fn base_ok(e: CronBaseExpression, max: u32) -> bool {
    match e {
        CronBaseExpression::Range(a, b) => a <= max && b <= max,
        _ => true,
    }
}

/// When the expansion of one field item succeeds.  A step must be positive:
/// a step of zero could never advance past its starting value.
pub open spec fn expr_ok(e: CronExpression, max: u32) -> bool {
    match e {
        CronExpression::Simple(b) => base_ok(b, max),
        CronExpression::Period(b, s) => base_ok(b, max) && s >= 1,
    }
}

/// The contiguous ascending run `lo, lo + 1, ..., hi` (empty when `hi < lo`).
pub open spec fn range_seq(lo: u32, hi: u32) -> Seq<u32> {
    Seq::new(
        if lo <= hi {
            (hi - lo + 1) as nat
        } else {
            0
        },
        |i: int| (lo + i) as u32,
    )
}

/// Every `step`-th element of that run: `lo, lo + step, lo + 2 * step, ...`,
/// never past `hi`.
pub open spec fn stepped_seq(lo: u32, hi: u32, step: u32) -> Seq<u32>
    recommends
        step >= 1,
{
    Seq::new(
        if lo <= hi {
            ((hi - lo) / (step as int) + 1) as nat
        } else {
            0
        },
        |k: int| (lo + k * step) as u32,
    )
}

/// The exact ascending sequence one field item expands to, when it succeeds.
pub open spec fn expr_seq(e: CronExpression, min: u32, max: u32) -> Seq<u32> {
    match e {
        CronExpression::Simple(b) => range_seq(base_lo(b, min), base_hi(b, max)),
        CronExpression::Period(b, s) => stepped_seq(base_lo(b, min), period_hi(b, max), s),
    }
}

/// Every item of a field list expands without a range violation.
pub open spec fn list_ok(l: Seq<CronExpression>, max: u32) -> bool {
    forall|i: int| 0 <= i < l.len() ==> expr_ok(#[trigger] l[i], max)
}

/// The union of the values of all items of a field list.
pub open spec fn list_values(l: Seq<CronExpression>, min: u32, max: u32) -> Set<u32>
    decreases l.len(),
{
    if l.len() == 0 {
        Set::empty()
    } else {
        list_values(l.drop_last(), min, max).union(expr_seq(l.last(), min, max).to_set())
    }
}

/// Sorted in strictly ascending order: ordered and free of duplicates.
pub open spec fn strictly_ascending(s: Seq<u32>) -> bool {
    forall|i: int, j: int| 0 <= i < j < s.len() ==> s[i] < s[j]
}

/// Inserts `lo, lo + 1, ..., hi` into a fresh set, in ascending order.
fn collect_range(lo: u32, hi: u32) -> (r: LinkedHashSet<u32>)
    ensures
        lhset_elems(&r) == range_seq(lo, hi),
{
    let mut s = lhset_new();
    if lo > hi {
        proof {
            assert(lhset_elems(&s) =~= range_seq(lo, hi));
        }
        return s;
    }
    let mut v: u32 = lo;
    loop
        invariant_except_break
            lo <= v <= hi,
            lhset_elems(&s) =~= range_seq(lo, hi).subrange(0, v - lo),
        ensures
            lhset_elems(&s) =~= range_seq(lo, hi),
        decreases hi - v,
    {
        proof {
            assert forall|i: int| 0 <= i < lhset_elems(&s).len() implies lhset_elems(&s)[i]
                != v by {
                assert(lhset_elems(&s)[i] == range_seq(lo, hi)[i]);
            }
            assert(!lhset_elems(&s).contains(v));
        }
        let ghost pre = lhset_elems(&s);
        lhset_insert(&mut s, v);
        proof {
            assert(lhset_elems(&s) =~= range_seq(lo, hi).subrange(0, v - lo + 1)) by {
                assert(lhset_elems(&s) == pre.push(v));
            }
        }
        if v == hi {
            break ;
        }
        v = v + 1;
    }
    s
}

/// Inserts `lo, lo + step, lo + 2 * step, ...` up to `hi` into a fresh set,
/// in ascending order.
fn collect_stepped(lo: u32, hi: u32, step: u32) -> (r: LinkedHashSet<u32>)
    requires
        step >= 1,
    ensures
        lhset_elems(&r) == stepped_seq(lo, hi, step),
{
    let mut s = lhset_new();
    if lo > hi {
        proof {
            assert(lhset_elems(&s) =~= stepped_seq(lo, hi, step));
        }
        return s;
    }
    let mut v: u32 = lo;
    let ghost mut k: int = 0;
    proof {
        vstd::arithmetic::div_mod::lemma_div_multiples_vanish(0, step as int);
        vstd::arithmetic::div_mod::lemma_div_is_ordered(0, hi - lo, step as int);
    }
    loop
        invariant_except_break
            step >= 1,
            lo <= v <= hi,
            v == lo + k * step,
            0 <= k <= (hi - lo) / (step as int),
            lhset_elems(&s) =~= stepped_seq(lo, hi, step).subrange(0, k),
        ensures
            lhset_elems(&s) =~= stepped_seq(lo, hi, step),
        decreases hi - v,
    {
        proof {
            assert forall|i: int| 0 <= i < lhset_elems(&s).len() implies lhset_elems(&s)[i]
                != v by {
                assert(lhset_elems(&s)[i] == stepped_seq(lo, hi, step)[i]);
                assert(i * step < k * step) by (nonlinear_arith)
                    requires
                        0 <= i < k,
                        step >= 1,
                ;
                assert(lo + i * step < lo + k * step <= hi);
                assert(stepped_seq(lo, hi, step)[i] == (lo + i * step) as u32);
            }
            assert(!lhset_elems(&s).contains(v));
        }
        let ghost pre = lhset_elems(&s);
        lhset_insert(&mut s, v);
        proof {
            assert(k < (hi - lo) / (step as int) + 1);
            assert(stepped_seq(lo, hi, step)[k] == (lo + k * step) as u32);
            assert(lhset_elems(&s) =~= stepped_seq(lo, hi, step).subrange(0, k + 1)) by {
                assert(lhset_elems(&s) == pre.push(v));
            }
            k = k + 1;
        }
        if hi - v < step {
            proof {
                vstd::arithmetic::div_mod::lemma_fundamental_div_mod_converse(
                    hi - lo,
                    step as int,
                    k - 1,
                    hi - v,
                );
                assert(k - 1 == (hi - lo) / (step as int));
            }
            break ;
        }
        v = v + step;
        proof {
            assert(k * step == (k - 1) * step + step) by (nonlinear_arith);
            vstd::arithmetic::div_mod::lemma_div_multiples_vanish(k, step as int);
            vstd::arithmetic::div_mod::lemma_div_is_ordered(
                (step as int) * k,
                hi - lo,
                step as int,
            );
        }
    }
    s
}

/// The outcome of one `LinkedHashSet::insert` on duplicate-free elements:
/// the elements stay duplicate free and gain exactly the inserted value.
proof fn lemma_insert_step(pre: Seq<u32>, post: Seq<u32>, v: u32)
    requires
        pre.no_duplicates(),
        post == if pre.contains(v) {
            pre.remove(pre.index_of(v)).push(v)
        } else {
            pre.push(v)
        },
    ensures
        post.no_duplicates(),
        post.to_set() =~= pre.to_set().insert(v),
{
    if pre.contains(v) {
        let i = pre.index_of(v);
        assert(0 <= i < pre.len() && pre[i] == v);
        lemma_remove_keeps(pre, i);
        let rm = pre.remove(i);
        assert forall|a: int, b: int|
            (0 <= a < post.len() && 0 <= b < post.len() && a != b) implies post[a] != post[b] by {
            if a < rm.len() && b < rm.len() {
                assert(post[a] == rm[a] && post[b] == rm[b]);
            } else if a < rm.len() {
                assert(post[a] == rm[a] && post[b] == v);
                assert(rm.contains(rm[a]));
            } else {
                assert(post[a] == v && post[b] == rm[b]);
                assert(rm.contains(rm[b]));
            }
        }
        assert forall|x: u32| post.to_set().contains(x) implies pre.to_set().insert(v).contains(
            x,
        ) by {
            let w = choose|w: int| 0 <= w < post.len() && post[w] == x;
            if w < rm.len() {
                assert(rm.contains(x));
            }
        }
        assert forall|x: u32| pre.to_set().insert(v).contains(x) implies post.to_set().contains(
            x,
        ) by {
            if x == v {
                assert(post[post.len() - 1] == v);
            } else {
                assert(rm.contains(x));
                let w = choose|w: int| 0 <= w < rm.len() && rm[w] == x;
                assert(post[w] == x);
            }
        }
    } else {
        assert forall|a: int, b: int|
            (0 <= a < post.len() && 0 <= b < post.len() && a != b) implies post[a] != post[b] by {
            if a < pre.len() && b < pre.len() {
                assert(post[a] == pre[a] && post[b] == pre[b]);
            } else if a < pre.len() {
                assert(post[a] == pre[a] && post[b] == v);
                assert(pre.contains(pre[a]));
            } else {
                assert(post[a] == v && post[b] == pre[b]);
                assert(pre.contains(pre[b]));
            }
        }
        assert forall|x: u32| post.to_set().contains(x) implies pre.to_set().insert(v).contains(
            x,
        ) by {
            let w = choose|w: int| 0 <= w < post.len() && post[w] == x;
            if w < pre.len() {
                assert(pre.contains(x));
            }
        }
        assert forall|x: u32| pre.to_set().insert(v).contains(x) implies post.to_set().contains(
            x,
        ) by {
            if x == v {
                assert(post[post.len() - 1] == v);
            } else {
                let w = choose|w: int| 0 <= w < pre.len() && pre[w] == x;
                assert(post[w] == x);
            }
        }
    }
}

/// Removing one element of a duplicate-free sequence keeps it duplicate free
/// and removes exactly that element.
proof fn lemma_remove_keeps(s: Seq<u32>, i: int)
    requires
        0 <= i < s.len(),
        s.no_duplicates(),
    ensures
        s.remove(i).no_duplicates(),
        !s.remove(i).contains(s[i]),
        forall|x: u32| s.contains(x) && x != s[i] ==> s.remove(i).contains(x),
        forall|x: u32| s.remove(i).contains(x) ==> s.contains(x) && x != s[i],
{
    s.remove_ensures(i);
    let rm = s.remove(i);
    assert forall|a: int, b: int|
        (0 <= a < rm.len() && 0 <= b < rm.len() && a != b) implies rm[a] != rm[b] by {
        let a2 = if a < i {
            a
        } else {
            a + 1
        };
        let b2 = if b < i {
            b
        } else {
            b + 1
        };
        assert(rm[a] == s[a2]);
        assert(rm[b] == s[b2]);
    }
    assert forall|t: int| 0 <= t < rm.len() implies rm[t] != s[i] by {
        let t2 = if t < i {
            t
        } else {
            t + 1
        };
        assert(rm[t] == s[t2]);
    }
    assert forall|x: u32| s.contains(x) && x != s[i] implies rm.contains(x) by {
        let w = choose|w: int| 0 <= w < s.len() && s[w] == x;
        if w < i {
            assert(rm[w] == x);
        } else {
            assert(rm[w - 1] == x);
        }
    }
    assert forall|x: u32| rm.contains(x) implies s.contains(x) && x != s[i] by {
        let w = choose|w: int| 0 <= w < rm.len() && rm[w] == x;
        let w2 = if w < i {
            w
        } else {
            w + 1
        };
        assert(s[w2] == x);
    }
}

/// Pushing a value onto a sequence inserts it into the sequence's set.
proof fn lemma_push_to_set(s: Seq<u32>, x: u32)
    ensures
        s.push(x).to_set() =~= s.to_set().insert(x),
{
    assert forall|y: u32| s.push(x).to_set().contains(y) implies s.to_set().insert(x).contains(
        y,
    ) by {
        let w = choose|w: int| 0 <= w < s.push(x).len() && s.push(x)[w] == y;
        if w < s.len() {
            assert(s[w] == y);
        }
    }
    assert forall|y: u32| s.to_set().insert(x).contains(y) implies s.push(x).to_set().contains(
        y,
    ) by {
        if y == x {
            assert(s.push(x)[s.len() as int] == y);
        } else {
            let w = choose|w: int| 0 <= w < s.len() && s[w] == y;
            assert(s.push(x)[w] == y);
        }
    }
}

/// Appending one expression to a prefix extends the union of its values by
/// exactly that expression's values.
proof fn lemma_list_values_snoc(l: Seq<CronExpression>, min: u32, max: u32, i: int)
    requires
        0 <= i < l.len(),
    ensures
        list_values(l.subrange(0, i + 1), min, max) == list_values(
            l.subrange(0, i),
            min,
            max,
        ).union(expr_seq(l[i], min, max).to_set()),
{
    let a = l.subrange(0, i + 1);
    assert(a.drop_last() =~= l.subrange(0, i));
    assert(a.last() == l[i]);
}

/// Sorts a duplicate-free vector into strictly ascending order, keeping the
/// set of values unchanged.
fn sort_ascending(v: &mut Vec<u32>)
    requires
        old(v)@.no_duplicates(),
    ensures
        strictly_ascending(final(v)@),
        final(v)@.to_set() == old(v)@.to_set(),
{
    let ghost orig = old(v)@;
    let mut out: Vec<u32> = Vec::new();
    while v.len() > 0
        invariant
            v@.no_duplicates(),
            strictly_ascending(out@),
            forall|a: int, b: int| 0 <= a < out@.len() && 0 <= b < v@.len() ==> out@[a] < v@[b],
            out@.to_set().union(v@.to_set()) =~= orig.to_set(),
        decreases v@.len(),
    {
        let mut mi: usize = 0;
        let mut j: usize = 1;
        while j < v.len()
            invariant
                0 < v@.len(),
                (mi as int) < v@.len(),
                j <= v@.len(),
                forall|t: int| 0 <= t < j ==> v@[mi as int] <= v@[t],
            decreases v@.len() - j,
        {
            if v[j] < v[mi] {
                mi = j;
            }
            j = j + 1;
        }
        let ghost pre = v@;
        let ghost outp = out@;
        let x = v.remove(mi);
        out.push(x);
        proof {
            lemma_remove_keeps(pre, mi as int);
            assert forall|i: int, j: int| 0 <= i < j < out@.len() implies out@[i] < out@[j] by {
                if j < out@.len() - 1 {
                    assert(out@[i] == outp[i] && out@[j] == outp[j]);
                } else {
                    assert(out@[i] == outp[i] && out@[j] == x);
                    assert(outp[i] < pre[mi as int]);
                }
            }
            assert forall|a: int, b: int|
                0 <= a < out@.len() && 0 <= b < v@.len() implies out@[a] < v@[b] by {
                assert(v@.contains(v@[b]));
                assert(pre.contains(v@[b]) && v@[b] != x);
                let w = choose|w: int| 0 <= w < pre.len() && pre[w] == v@[b];
                assert(x <= pre[w]);
                if a < out@.len() - 1 {
                    assert(out@[a] == outp[a]);
                    assert(outp[a] < pre[w]);
                } else {
                    assert(out@[a] == x);
                }
            }
            assert forall|y: u32| out@.to_set().union(v@.to_set()).contains(y) implies orig.to_set().contains(
                y,
            ) by {
                if out@.to_set().contains(y) {
                    let w = choose|w: int| 0 <= w < out@.len() && out@[w] == y;
                    if w == out@.len() - 1 {
                        assert(pre.contains(x));
                        assert(pre.to_set().contains(y));
                    } else {
                        assert(outp[w] == y);
                        assert(outp.to_set().contains(y));
                    }
                } else {
                    assert(pre.to_set().contains(y));
                }
            }
            assert forall|y: u32| orig.to_set().contains(y) implies out@.to_set().union(
                v@.to_set(),
            ).contains(y) by {
                if pre.to_set().contains(y) {
                    if y == x {
                        assert(out@[out@.len() - 1] == y);
                        assert(out@.contains(y));
                    } else {
                        assert(v@.contains(y));
                    }
                } else {
                    assert(outp.to_set().contains(y));
                    let w = choose|w: int| 0 <= w < outp.len() && outp[w] == y;
                    assert(out@[w] == y);
                    assert(out@.contains(y));
                }
            }
        }
    }
    *v = out;
}

/// Expands one base clause into the linked set of the values it covers.
fn from_cron_base_expression(expression: CronBaseExpression, min: u32, max: u32) -> (r: Result<
    LinkedHashSet<u32>,
    Error,
>)
    ensures
        match r {
            Ok(s) => base_ok(expression, max) && lhset_elems(&s) == range_seq(
                base_lo(expression, min),
                base_hi(expression, max),
            ),
            Err(_) => !base_ok(expression, max),
        },
{
    match expression {
        CronBaseExpression::All => Ok(collect_range(min, max)),
        CronBaseExpression::Exact(number) => Ok(collect_range(number, number)),
        CronBaseExpression::Range(start, end) => {
            if start > max || end > max {
                Err(Error)
            } else {
                Ok(collect_range(start, end))
            }
        },
    }
}

/// Expands one field item: a plain clause covers its span, a stepped clause
/// walks its span from the start in increments of the step.
fn from_cron_expression(expression: CronExpression, min: u32, max: u32) -> (r: Result<
    LinkedHashSet<u32>,
    Error,
>)
    ensures
        match r {
            Ok(s) => expr_ok(expression, max) && lhset_elems(&s) == expr_seq(
                expression,
                min,
                max,
            ),
            Err(_) => !expr_ok(expression, max),
        },
{
    match expression {
        CronExpression::Simple(base) => from_cron_base_expression(base, min, max),
        CronExpression::Period(start, step) => {
            if step == 0 {
                return Err(Error);
            }
            let (lo, hi) = match start {
                CronBaseExpression::All => (min, max),
                CronBaseExpression::Exact(v) => (v, max),
                CronBaseExpression::Range(a, b) => {
                    if a > max || b > max {
                        return Err(Error);
                    }
                    (a, b)
                },
            };
            Ok(collect_stepped(lo, hi, step))
        },
    }
}

/// Expands a whole field: every item's values in order, deduplicated by the
/// linked set, then sorted into the canonical ascending form.
pub fn calculate_time(expressions: Vec<CronExpression>, min: u32, max: u32) -> (r: Result<
    Vec<u32>,
    Error,
>)
    ensures
        match r {
            Ok(v) => list_ok(expressions@, max) && strictly_ascending(v@) && v@.to_set()
                == list_values(expressions@, min, max),
            Err(_) => !list_ok(expressions@, max),
        },
{
    let mut set = lhset_new();
    let mut i: usize = 0;
    let n = expressions.len();
    while i < n
        invariant
            i <= n,
            n == expressions@.len(),
            list_ok(expressions@.subrange(0, i as int), max),
            lhset_elems(&set).no_duplicates(),
            lhset_elems(&set).to_set() =~= list_values(
                expressions@.subrange(0, i as int),
                min,
                max,
            ),
        decreases n - i,
    {
        let e = expressions[i];
        let sub = match from_cron_expression(e, min, max) {
            Ok(s) => s,
            Err(err) => {
                proof {
                    assert(!expr_ok(expressions@[i as int], max));
                }
                return Err(err);
            },
        };
        let items = lhset_into_vec(sub);
        let ghost base = lhset_elems(&set).to_set();
        let m = items.len();
        let mut j: usize = 0;
        while j < m
            invariant
                j <= m,
                m == items@.len(),
                lhset_elems(&set).no_duplicates(),
                lhset_elems(&set).to_set() =~= base.union(
                    items@.subrange(0, j as int).to_set(),
                ),
            decreases m - j,
        {
            let ghost pre = lhset_elems(&set);
            let x = items[j];
            lhset_insert(&mut set, x);
            proof {
                lemma_insert_step(pre, lhset_elems(&set), x);
                assert(items@.subrange(0, j + 1) =~= items@.subrange(0, j as int).push(x));
                lemma_push_to_set(items@.subrange(0, j as int), x);
                assert(lhset_elems(&set).to_set() =~= base.union(
                    items@.subrange(0, j + 1).to_set(),
                ));
            }
            j = j + 1;
        }
        proof {
            assert(items@.subrange(0, m as int) =~= items@);
            lemma_list_values_snoc(expressions@, min, max, i as int);
            assert(expressions@.subrange(0, i + 1).drop_last() =~= expressions@.subrange(
                0,
                i as int,
            ));
            assert forall|t: int| 0 <= t < i + 1 implies expr_ok(
                #[trigger] expressions@.subrange(0, i + 1)[t],
                max,
            ) by {
                if t < i {
                    assert(expressions@.subrange(0, i as int)[t] == expressions@.subrange(
                        0,
                        i + 1,
                    )[t]);
                }
            }
        }
        i = i + 1;
    }
    proof {
        assert(expressions@.subrange(0, n as int) =~= expressions@);
    }
    let mut items = lhset_into_vec(set);
    sort_ascending(&mut items);
    Ok(items)
}

/// Two strictly ascending sequences over the same set of values are equal.
pub proof fn lemma_ascending_unique(a: Seq<u32>, b: Seq<u32>)
    requires
        strictly_ascending(a),
        strictly_ascending(b),
        a.to_set() == b.to_set(),
    ensures
        a == b,
    decreases a.len(),
{
    if a.len() == 0 {
        if b.len() > 0 {
            assert(b.to_set().contains(b[0]));
            assert(a.to_set().contains(b[0]));
            let w = choose|w: int| 0 <= w < a.len() && a[w] == b[0];
            assert(false);
        }
        assert(a =~= b);
    } else {
        assert(a.to_set().contains(a[0]));
        assert(b.to_set().contains(a[0]));
        let j = choose|j: int| 0 <= j < b.len() && b[j] == a[0];
        assert(b.to_set().contains(b[0]));
        assert(a.to_set().contains(b[0]));
        let i = choose|i: int| 0 <= i < a.len() && a[i] == b[0];
        assert(a[0] <= a[i]);
        assert(b[0] <= b[j]);
        assert(a[0] == b[0]);
        let at = a.drop_first();
        let bt = b.drop_first();
        assert forall|x: u32| at.to_set().contains(x) implies bt.to_set().contains(x) by {
            let w = choose|w: int| 0 <= w < at.len() && at[w] == x;
            assert(a[w + 1] == x);
            assert(a[0] < x);
            assert(a.to_set().contains(x));
            assert(b.to_set().contains(x));
            let w2 = choose|w2: int| 0 <= w2 < b.len() && b[w2] == x;
            assert(w2 != 0);
            assert(bt[w2 - 1] == x);
        }
        assert forall|x: u32| bt.to_set().contains(x) implies at.to_set().contains(x) by {
            let w = choose|w: int| 0 <= w < bt.len() && bt[w] == x;
            assert(b[w + 1] == x);
            assert(b[0] < x);
            assert(b.to_set().contains(x));
            assert(a.to_set().contains(x));
            let w2 = choose|w2: int| 0 <= w2 < a.len() && a[w2] == x;
            assert(w2 != 0);
            assert(at[w2 - 1] == x);
        }
        assert(at.to_set() =~= bt.to_set());
        lemma_ascending_unique(at, bt);
        assert forall|k: int| 0 <= k < a.len() implies a[k] == b[k] by {
            if k > 0 {
                assert(a[k] == at[k - 1] && b[k] == bt[k - 1]);
            }
        }
        assert(a =~= b);
    }
}

/// The union of the values of a one-item list is that item's values.
proof fn lemma_singleton_values(e: CronExpression, min: u32, max: u32)
    ensures
        list_values(seq![e], min, max) == expr_seq(e, min, max).to_set(),
{
    let l = seq![e];
    assert(l.len() == 1);
    assert(list_values(l, min, max) == list_values(l.drop_last(), min, max).union(
        expr_seq(l.last(), min, max).to_set(),
    ));
    assert(l.drop_last() =~= Seq::<CronExpression>::empty());
    assert(list_values(Seq::<CronExpression>::empty(), min, max) == Set::<u32>::empty());
    assert(l.last() == e);
    assert(list_values(l, min, max) =~= expr_seq(e, min, max).to_set());
}

/// The contiguous run is strictly ascending, and holds exactly the integers
/// between its endpoints.
proof fn lemma_range_seq_facts(lo: u32, hi: u32)
    ensures
        strictly_ascending(range_seq(lo, hi)),
        forall|x: u32| range_seq(lo, hi).to_set().contains(x) <==> lo <= x <= hi,
{
    assert forall|x: u32| range_seq(lo, hi).to_set().contains(x) <==> lo <= x <= hi by {
        if lo <= x <= hi {
            assert(range_seq(lo, hi)[x - lo] == x);
        }
        if range_seq(lo, hi).to_set().contains(x) {
            let w = choose|w: int| 0 <= w < range_seq(lo, hi).len() && range_seq(lo, hi)[w] == x;
            assert(range_seq(lo, hi)[w] == (lo + w) as u32);
        }
    }
}

/// For a field whose only item is `*`, any expansion outcome (strictly
/// ascending, over the item's values) is exactly the full run min..=max.
pub proof fn lemma_expand_all(v: Seq<u32>, min: u32, max: u32)
    requires
        strictly_ascending(v),
        v.to_set() == list_values(
            seq![CronExpression::Simple(CronBaseExpression::All)],
            min,
            max,
        ),
    ensures
        v == range_seq(min, max),
        forall|x: u32| v.contains(x) <==> min <= x <= max,
{
    let e = CronExpression::Simple(CronBaseExpression::All);
    lemma_singleton_values(e, min, max);
    assert(expr_seq(e, min, max) == range_seq(min, max));
    lemma_range_seq_facts(min, max);
    lemma_ascending_unique(v, range_seq(min, max));
    assert forall|x: u32| v.contains(x) <==> min <= x <= max by {
        assert(v.contains(x) == v.to_set().contains(x));
    }
}

/// For a single exact value within the field bounds, expansion yields the
/// one-element run holding just that value.
pub proof fn lemma_expand_exact(v: Seq<u32>, val: u32, min: u32, max: u32)
    requires
        min <= val <= max,
        strictly_ascending(v),
        v.to_set() == list_values(
            seq![CronExpression::Simple(CronBaseExpression::Exact(val))],
            min,
            max,
        ),
    ensures
        v == seq![val],
{
    let e = CronExpression::Simple(CronBaseExpression::Exact(val));
    lemma_singleton_values(e, min, max);
    assert(expr_seq(e, min, max) == range_seq(val, val));
    lemma_range_seq_facts(val, val);
    lemma_ascending_unique(v, range_seq(val, val));
    assert(range_seq(val, val) =~= seq![val]);
}

/// For a valid range `a..=b` with both endpoints at most the field maximum,
/// expansion yields exactly the run a..=b.
pub proof fn lemma_expand_range(v: Seq<u32>, a: u32, b: u32, min: u32, max: u32)
    requires
        a <= b <= max,
        strictly_ascending(v),
        v.to_set() == list_values(
            seq![CronExpression::Simple(CronBaseExpression::Range(a, b))],
            min,
            max,
        ),
    ensures
        v == range_seq(a, b),
        forall|x: u32| v.contains(x) <==> a <= x <= b,
{
    let e = CronExpression::Simple(CronBaseExpression::Range(a, b));
    lemma_singleton_values(e, min, max);
    assert(expr_seq(e, min, max) == range_seq(a, b));
    lemma_range_seq_facts(a, b);
    lemma_ascending_unique(v, range_seq(a, b));
    assert forall|x: u32| v.contains(x) <==> a <= x <= b by {
        assert(v.contains(x) == v.to_set().contains(x));
    }
}

/// A range clause with an endpoint past the field maximum poisons its list:
/// expansion, and with it assembly of the whole table, must fail.
pub proof fn lemma_bad_range_fails(l: Seq<CronExpression>, i: int, max: u32)
    requires
        0 <= i < l.len(),
        match l[i] {
            CronExpression::Simple(CronBaseExpression::Range(a, b)) => a > max || b > max,
            CronExpression::Period(CronBaseExpression::Range(a, b), _) => a > max || b > max,
            _ => false,
        },
    ensures
        !list_ok(l, max),
{
    assert(!expr_ok(l[i], max));
}

/// Membership in the arithmetic progression lo, lo + step, lo + 2 * step,
/// capped at hi.
pub open spec fn stepped_member(x: u32, lo: u32, hi: u32, step: u32) -> bool {
    exists|k: nat| x == lo + #[trigger] (k * step) && x <= hi
}

/// For a field whose only item is `*` stepped by `s`, expansion holds exactly
/// the values min, min + s, min + 2s, ..., never past max.
pub proof fn lemma_expand_stepped_all(v: Seq<u32>, min: u32, max: u32, s: u32)
    requires
        s >= 1,
        strictly_ascending(v),
        v.to_set() == list_values(
            seq![CronExpression::Period(CronBaseExpression::All, s)],
            min,
            max,
        ),
    ensures
        v == stepped_seq(min, max, s),
        forall|x: u32| v.contains(x) <==> stepped_member(x, min, max, s),
{
    let e = CronExpression::Period(CronBaseExpression::All, s);
    lemma_singleton_values(e, min, max);
    assert(expr_seq(e, min, max) == stepped_seq(min, max, s));
    lemma_stepped_seq_facts(min, max, s);
    lemma_ascending_unique(v, stepped_seq(min, max, s));
    assert forall|x: u32| v.contains(x) <==> stepped_member(x, min, max, s) by {
        assert(v.contains(x) == v.to_set().contains(x));
    }
}

/// The stepped run is strictly ascending, and holds exactly the values
/// lo + k * step up to hi.
proof fn lemma_stepped_seq_facts(lo: u32, hi: u32, step: u32)
    requires
        step >= 1,
    ensures
        strictly_ascending(stepped_seq(lo, hi, step)),
        forall|x: u32| stepped_seq(lo, hi, step).to_set().contains(x) <==> stepped_member(x, lo, hi, step),
{
    let t = stepped_seq(lo, hi, step);
    if lo <= hi {
        vstd::arithmetic::div_mod::lemma_fundamental_div_mod(hi - lo, step as int);
        assert(((hi - lo) / (step as int)) * step <= hi - lo);
        assert forall|k: int| 0 <= k < t.len() implies lo + #[trigger] (k * step) <= hi by {
            assert(k * step <= ((hi - lo) / (step as int)) * step) by (nonlinear_arith)
                requires
                    0 <= k <= (hi - lo) / (step as int),
                    step >= 1,
            ;
        }
        assert forall|i: int, j: int| 0 <= i < j < t.len() implies t[i] < t[j] by {
            assert(i * step < j * step) by (nonlinear_arith)
                requires
                    0 <= i < j,
                    step >= 1,
            ;
            assert(t[i] == (lo + i * step) as u32);
            assert(t[j] == (lo + j * step) as u32);
        }
        assert forall|x: u32| t.to_set().contains(x) implies stepped_member(x, lo, hi, step) by {
            let w = choose|w: int| 0 <= w < t.len() && t[w] == x;
            assert(t[w] == (lo + w * step) as u32);
            assert(x == lo + (w as nat) * step && x <= hi);
        }
        assert forall|x: u32| stepped_member(x, lo, hi, step) implies
            t.to_set().contains(x) by {
            let k = choose|k: nat| x == lo + #[trigger] (k * step) && x <= hi;
            assert(k * step == x - lo);
            vstd::arithmetic::div_mod::lemma_div_multiples_vanish(k as int, step as int);
            vstd::arithmetic::div_mod::lemma_div_is_ordered(
                (step as int) * (k as int),
                hi - lo,
                step as int,
            );
            assert(k <= (hi - lo) / (step as int));
            assert(t[k as int] == (lo + k * step) as u32);
        }
    } else {
        assert forall|x: u32| !stepped_member(x, lo, hi, step) by {
            if stepped_member(x, lo, hi, step) {
                let k = choose|k: nat| x == lo + #[trigger] (k * step) && x <= hi;
                assert(k * step >= 0) by (nonlinear_arith)
                    requires
                        k >= 0,
                        step >= 1,
                ;
            }
        }
    }
}

} // verus!
