use vstd::prelude::*;

verus! {

/// Whether `x` occurs in `v`.
pub fn contains_u32(v: &Vec<u32>, x: u32) -> (b: bool)
    ensures
        b == v@.contains(x),
{
    let mut i: usize = 0;
    while i < v.len()
        invariant
            i <= v@.len(),
            forall|k: int| 0 <= k < i ==> v@[k] != x,
        decreases v@.len() - i,
    {
        if v[i] == x {
            assert(v@[i as int] == x);
            return true;
        }
        i = i + 1;
    }
    false
}

/// `s` without the occurrences of `x`, order kept.
pub open spec fn without(s: Seq<u32>, x: u32) -> Seq<u32>
    decreases s.len(),
{
    if s.len() == 0 {
        Seq::empty()
    } else if s.last() == x {
        without(s.drop_last(), x)
    } else {
        without(s.drop_last(), x).push(s.last())
    }
}

/// `x` first, then the elements of `s` that differ from it: the order in which
/// a configured value is tried before the known ones.
pub open spec fn prepend_distinct(x: u32, s: Seq<u32>) -> Seq<u32> {
    seq![x] + without(s, x)
}

/// Builds `prepend_distinct(x, s)`.
pub fn prepend_distinct_vec(x: u32, s: &Vec<u32>) -> (v: Vec<u32>)
    ensures
        v@ == prepend_distinct(x, s@),
{
    let mut v: Vec<u32> = Vec::new();
    v.push(x);
    let mut i: usize = 0;
    while i < s.len()
        invariant
            i <= s@.len(),
            v@ == seq![x] + without(s@.subrange(0, i as int), x),
        decreases s@.len() - i,
    {
        assert(s@.subrange(0, i + 1).drop_last() =~= s@.subrange(0, i as int));
        if s[i] != x {
            v.push(s[i]);
        }
        i = i + 1;
        assert(v@ =~= seq![x] + without(s@.subrange(0, i as int), x));
    }
    assert(s@.subrange(0, s@.len() as int) =~= s@);
    v
}

/// Elements of `without(s, x)` are elements of `s` other than `x`, and the
/// other way round.
pub proof fn lemma_without_contains(s: Seq<u32>, x: u32, y: u32)
    ensures
        without(s, x).contains(y) <==> (s.contains(y) && y != x),
    decreases s.len(),
{
    if s.len() > 0 {
        lemma_without_contains(s.drop_last(), x, y);
        if s.contains(y) && y != x {
            let k = choose|k: int| 0 <= k < s.len() && s[k] == y;
            if k < s.len() - 1 {
                assert(s.drop_last()[k] == y);
            }
        }
        if s.drop_last().contains(y) {
            let k = choose|k: int| 0 <= k < s.drop_last().len() && s.drop_last()[k] == y;
            assert(s[k] == y);
        }
        if s.last() != x {
            let w = without(s.drop_last(), x);
            if w.push(s.last()).contains(y) && y != s.last() {
                let k = choose|k: int| 0 <= k < w.push(s.last()).len() && w.push(s.last())[k] == y;
                assert(w[k] == y);
            }
            if w.contains(y) {
                let k = choose|k: int| 0 <= k < w.len() && w[k] == y;
                assert(w.push(s.last())[k] == y);
            }
            assert(w.push(s.last())[w.len() as int] == s.last());
        }
    }
}

/// One step of a running best: a candidate scored `i32::MIN` is no candidate,
/// and a later candidate replaces the best only with a strictly higher score.
pub open spec fn better<T>(best: Option<(i32, T)>, c: (i32, T)) -> Option<(i32, T)> {
    if c.0 == i32::MIN {
        best
    } else {
        match best {
            None => Some(c),
            Some(b) => if c.0 > b.0 {
                Some(c)
            } else {
                best
            },
        }
    }
}

/// The running best after considering `items` in order.
pub open spec fn fold_best<T>(best: Option<(i32, T)>, items: Seq<(i32, T)>) -> Option<(i32, T)>
    decreases items.len(),
{
    if items.len() == 0 {
        best
    } else {
        better(fold_best(best, items.drop_last()), items.last())
    }
}

/// Considering `xs` and then `ys` is considering `xs + ys`.
pub proof fn lemma_fold_best_append<T>(best: Option<(i32, T)>, xs: Seq<(i32, T)>, ys: Seq<(i32, T)>)
    ensures
        fold_best(best, xs + ys) == fold_best(fold_best(best, xs), ys),
    decreases ys.len(),
{
    if ys.len() == 0 {
        assert(xs + ys =~= xs);
    } else {
        lemma_fold_best_append(best, xs, ys.drop_last());
        assert((xs + ys).drop_last() =~= xs + ys.drop_last());
        assert((xs + ys).last() == ys.last());
    }
}

/// Considering one more item.
pub proof fn lemma_fold_best_push<T>(best: Option<(i32, T)>, xs: Seq<(i32, T)>, c: (i32, T))
    ensures
        fold_best(best, xs.push(c)) == better(fold_best(best, xs), c),
{
    assert(xs.push(c).drop_last() =~= xs);
}

/// The running best is one of the items (or the starting best), it is never
/// scored `i32::MIN`, and no item scores higher.
pub proof fn lemma_fold_best_max<T>(items: Seq<(i32, T)>)
    ensures
        match fold_best(None, items) {
            None => forall|i: int| 0 <= i < items.len() ==> (#[trigger] items[i]).0 == i32::MIN,
            Some(b) => b.0 != i32::MIN && items.contains(b) && forall|i: int|
                0 <= i < items.len() ==> (#[trigger] items[i]).0 <= b.0,
        },
    decreases items.len(),
{
    if items.len() > 0 {
        let xs = items.drop_last();
        lemma_fold_best_max(xs);
        assert forall|i: int| 0 <= i < xs.len() implies xs[i] == items[i] by {}
        match fold_best(None, xs) {
            Some(b) => {
                let k = choose|k: int| 0 <= k < xs.len() && xs[k] == b;
                assert(items[k] == b);
            },
            None => {},
        }
        assert(items[items.len() - 1] == items.last());
    }
}

} // verus!
