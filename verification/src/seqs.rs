//! Facts about sequences that several modules rest on.
use vstd::prelude::*;

verus! {

/// Filtering a sequence with one item more keeps or drops that item.
pub proof fn filter_push<T>(s: Seq<T>, x: T, p: spec_fn(T) -> bool)
    ensures
        s.push(x).filter(p) == (if p(x) {
            s.filter(p).push(x)
        } else {
            s.filter(p)
        }),
{
    reveal(Seq::filter);
    assert(s.push(x).drop_last() =~= s);
}

/// Filtering two sequences in a row is filtering each.
pub proof fn filter_adds_up<T>(a: Seq<T>, b: Seq<T>, p: spec_fn(T) -> bool)
    ensures
        (a + b).filter(p) == a.filter(p) + b.filter(p),
    decreases b.len(),
{
    reveal(Seq::filter);
    if b.len() == 0 {
        assert(a + b =~= a);
        assert(a.filter(p) + b.filter(p) =~= a.filter(p));
    } else {
        assert((a + b).drop_last() =~= a + b.drop_last());
        filter_adds_up(a, b.drop_last(), p);
        let x = a.filter(p);
        let y = b.drop_last().filter(p);
        assert((x + y).push(b.last()) =~= x + y.push(b.last()));
    }
}

/// Filtering the first `i + 1` items keeps or drops the last of them.
pub proof fn filter_step<T>(s: Seq<T>, i: int, p: spec_fn(T) -> bool)
    requires
        0 <= i < s.len(),
    ensures
        s.take(i + 1).filter(p) == (if p(s[i]) {
            s.take(i).filter(p).push(s[i])
        } else {
            s.take(i).filter(p)
        }),
{
    assert(s.take(i + 1) =~= s.take(i).push(s[i]));
    filter_push(s.take(i), s[i], p);
}

/// A filtered sequence holds items of the sequence that pass, and every item
/// that passes.
pub proof fn filtered<T>(s: Seq<T>, p: spec_fn(T) -> bool)
    ensures
        forall|i: int|
            #![trigger s.filter(p)[i]]
            0 <= i < s.filter(p).len() ==> p(s.filter(p)[i]) && s.contains(s.filter(p)[i]),
        forall|i: int|
            #![trigger s[i]]
            0 <= i < s.len() && p(s[i]) ==> s.filter(p).contains(s[i]),
        s.filter(p).len() <= s.len(),
    decreases s.len(),
{
    reveal(Seq::filter);
    if s.len() > 0 {
        let rest = s.drop_last();
        filtered(rest, p);
        let f = rest.filter(p);
        assert forall|i: int| #![trigger s.filter(p)[i]] 0 <= i < s.filter(p).len() implies p(
            s.filter(p)[i],
        ) && s.contains(s.filter(p)[i]) by {
            if i < f.len() {
                assert(s.filter(p)[i] == f[i]);
                let k = choose|k: int| 0 <= k < rest.len() && rest[k] == f[i];
                assert(s[k] == f[i]);
            } else {
                assert(s.filter(p)[i] == s[s.len() - 1]);
            }
        }
        assert forall|i: int| #![trigger s[i]] 0 <= i < s.len() && p(s[i]) implies s.filter(
            p,
        ).contains(s[i]) by {
            if i < rest.len() {
                assert(rest[i] == s[i]);
                let k = choose|k: int| 0 <= k < f.len() && f[k] == s[i];
                assert(s.filter(p)[k] == s[i]);
            } else {
                assert(s.filter(p)[f.len() as int] == s[i]);
            }
        }
    }
}

/// What `f` gives for the items of `s` that it gives something for, in order.
pub open spec fn picked<T, U>(s: Seq<T>, f: spec_fn(T) -> Option<U>) -> Seq<U>
    decreases s.len(),
{
    if s.len() == 0 {
        Seq::empty()
    } else {
        let rest = picked(s.drop_last(), f);
        match f(s.last()) {
            Some(u) => rest.push(u),
            None => rest,
        }
    }
}

/// Picking from the first `i + 1` items adds what the last of them gives.
pub proof fn picked_step<T, U>(s: Seq<T>, f: spec_fn(T) -> Option<U>, i: int)
    requires
        0 <= i < s.len(),
    ensures
        picked(s.take(i + 1), f) == (match f(s[i]) {
            Some(u) => picked(s.take(i), f).push(u),
            None => picked(s.take(i), f),
        }),
{
    assert(s.take(i + 1).drop_last() =~= s.take(i));
}

/// Filtering two sequences that look alike, by conditions that agree on them,
/// gives sequences that look alike.
pub proof fn filter_alike<T, U>(
    a: Seq<T>,
    b: Seq<T>,
    p: spec_fn(T) -> bool,
    q: spec_fn(T) -> bool,
    v: spec_fn(T) -> U,
)
    requires
        a.len() == b.len(),
        forall|i: int| 0 <= i < a.len() ==> #[trigger] v(a[i]) == v(b[i]) && p(a[i]) == q(b[i]),
    ensures
        a.filter(p).len() == b.filter(q).len(),
        forall|i: int|
            0 <= i < a.filter(p).len() ==> #[trigger] v(a.filter(p)[i]) == v(b.filter(q)[i]),
    decreases a.len(),
{
    reveal(Seq::filter);
    if a.len() > 0 {
        let x = a.drop_last();
        let y = b.drop_last();
        assert forall|i: int| 0 <= i < x.len() implies #[trigger] v(x[i]) == v(y[i]) && p(x[i]) == q(
            y[i],
        ) by {
            assert(v(a[i]) == v(b[i]));
        }
        filter_alike(x, y, p, q, v);
        assert(v(a[a.len() - 1]) == v(b[b.len() - 1]));
        let fa = a.filter(p);
        let fb = b.filter(q);
        assert forall|i: int| 0 <= i < fa.len() implies #[trigger] v(fa[i]) == v(fb[i]) by {
            if i < x.filter(p).len() {
                assert(v(x.filter(p)[i]) == v(y.filter(q)[i]));
            }
        }
    }
}

/// Filtering first changes nothing where only items that give nothing are left
/// out.
pub proof fn picked_of_filter<T, U>(s: Seq<T>, p: spec_fn(T) -> bool, f: spec_fn(T) -> Option<U>)
    requires
        forall|x: T| !p(x) ==> #[trigger] f(x) is None,
    ensures
        picked(s.filter(p), f) == picked(s, f),
    decreases s.len(),
{
    reveal(Seq::filter);
    if s.len() > 0 {
        let rest = s.drop_last();
        picked_of_filter(rest, p, f);
        if p(s.last()) {
            assert(rest.filter(p).push(s.last()).drop_last() =~= rest.filter(p));
        } else {
            assert(f(s.last()) is None);
        }
    }
}

/// What is picked is what some item gives, and what an item gives is picked.
pub proof fn picked_facts<T, U>(s: Seq<T>, f: spec_fn(T) -> Option<U>)
    ensures
        forall|u: U| #[trigger]
            picked(s, f).contains(u) <==> exists|i: int|
                0 <= i < s.len() && f(#[trigger] s[i]) == Some(u),
        picked(s, f).len() <= s.len(),
    decreases s.len(),
{
    if s.len() > 0 {
        let rest = s.drop_last();
        let all = picked(s, f);
        let old = picked(rest, f);
        picked_facts(rest, f);
        assert forall|u: U| #[trigger] all.contains(u) <==> exists|i: int|
            0 <= i < s.len() && f(#[trigger] s[i]) == Some(u) by {
            if all.contains(u) {
                let k = choose|k: int| 0 <= k < all.len() && all[k] == u;
                if k < old.len() {
                    assert(old[k] == u);
                    assert(old.contains(u));
                    let i = choose|i: int| 0 <= i < rest.len() && f(#[trigger] rest[i]) == Some(u);
                    assert(f(s[i]) == Some(u));
                } else {
                    assert(f(s[s.len() - 1]) == Some(u));
                }
            }
            if exists|i: int| 0 <= i < s.len() && f(#[trigger] s[i]) == Some(u) {
                let i = choose|i: int| 0 <= i < s.len() && f(#[trigger] s[i]) == Some(u);
                if i < rest.len() {
                    assert(f(rest[i]) == Some(u));
                    assert(old.contains(u));
                    let k = choose|k: int| 0 <= k < old.len() && old[k] == u;
                    assert(all[k] == u);
                } else {
                    assert(all[all.len() - 1] == u);
                }
            }
        }
    }
}

/// As many items are picked as give something.
pub proof fn picked_count<T, U>(s: Seq<T>, f: spec_fn(T) -> Option<U>, p: spec_fn(T) -> bool)
    requires
        forall|x: T| #[trigger] p(x) <==> f(x) is Some,
    ensures
        picked(s, f).len() == s.filter(p).len(),
    decreases s.len(),
{
    reveal(Seq::filter);
    if s.len() > 0 {
        picked_count(s.drop_last(), f, p);
        assert(p(s.last()) <==> f(s.last()) is Some);
    }
}

/// Picking from two sequences in a row is picking from each.
pub proof fn picked_adds_up<T, U>(a: Seq<T>, b: Seq<T>, f: spec_fn(T) -> Option<U>, x: T)
    ensures
        picked(a + b, f) == picked(a, f) + picked(b, f),
        picked(seq![x], f) == (match f(x) {
            Some(u) => seq![u],
            None => Seq::empty(),
        }),
    decreases b.len(),
{
    reveal_with_fuel(picked, 2);
    assert(seq![x].drop_last().len() == 0);
    assert(picked(seq![x], f) =~= (match f(x) {
        Some(u) => seq![u],
        None => Seq::empty(),
    }));
    if b.len() == 0 {
        assert(a + b =~= a);
        assert(picked(a, f) + picked(b, f) =~= picked(a, f));
    } else {
        assert((a + b).drop_last() =~= a + b.drop_last());
        picked_adds_up(a, b.drop_last(), f, x);
        if let Some(u) = f(b.last()) {
            assert((picked(a, f) + picked(b.drop_last(), f)).push(u) =~= picked(a, f) + picked(
                b.drop_last(),
                f,
            ).push(u));
        }
    }
}

} // verus!
