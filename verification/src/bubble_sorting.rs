use vstd::prelude::*;

verus! {

broadcast use {vstd::seq_lib::group_to_multiset_ensures, vstd::multiset::group_multiset_axioms};

/// `a` may stand before `b`: not greater when ascending, not smaller when
/// descending.
pub open spec fn in_order(a: i32, b: i32, ascending: bool) -> bool {
    if ascending {
        a <= b
    } else {
        a >= b
    }
}

/// Every element of `s` may stand before every later one.
pub open spec fn sorted_by(s: Seq<i32>, ascending: bool) -> bool {
    forall|i: int, j: int| 0 <= i <= j < s.len() ==> in_order(#[trigger] s[i], #[trigger] s[j], ascending)
}

/// Overwriting one element takes the old value out of the multiset of
/// elements and puts the new one in.
proof fn lemma_update_multiset(s: Seq<i32>, i: int, v: i32)
    requires
        0 <= i < s.len(),
    ensures
        s.update(i, v).to_multiset() =~= s.to_multiset().remove(s[i]).insert(v),
{
    let t = s.update(i, v);
    assert(t.remove(i) =~= s.remove(i));
    assert(t[i] == v);
    assert(t.to_multiset().count(v) > 0);
}

/// Exchanging two neighbours keeps the multiset of elements.
proof fn lemma_swap_multiset(s: Seq<i32>, j: int)
    requires
        0 <= j,
        j + 1 < s.len(),
    ensures
        s.update(j, s[j + 1]).update(j + 1, s[j]).to_multiset() =~= s.to_multiset(),
{
    let t = s.update(j, s[j + 1]);
    lemma_update_multiset(s, j, s[j + 1]);
    lemma_update_multiset(t, j + 1, s[j]);
    assert(t[j + 1] == s[j + 1]);
    assert(s.to_multiset().count(s[j]) > 0);
}

/// `s` with neighbours `j` and `j + 1` exchanged when they are out of order.
pub open spec fn settle(s: Seq<i32>, j: int, ascending: bool) -> Seq<i32> {
    if in_order(s[j], s[j + 1], ascending) {
        s
    } else {
        s.update(j, s[j + 1]).update(j + 1, s[j])
    }
}

/// `s` after settling the neighbour pairs at `0, 1, .., m - 1` in turn:
/// one pass of bubble sort over the first `m + 1` elements.
pub open spec fn sweep(s: Seq<i32>, m: int, ascending: bool) -> Seq<i32>
    decreases m,
{
    if m <= 0 {
        s
    } else {
        settle(sweep(s, m - 1, ascending), m - 1, ascending)
    }
}

/// Whether that pass exchanges any pair.
pub open spec fn sweep_exchanges(s: Seq<i32>, m: int, ascending: bool) -> bool
    decreases m,
{
    if m <= 0 {
        false
    } else {
        sweep_exchanges(s, m - 1, ascending) || !in_order(
            sweep(s, m - 1, ascending)[m - 1],
            sweep(s, m - 1, ascending)[m],
            ascending,
        )
    }
}

/// The neighbour comparisons that bubble sort makes on `s` (of length `n`)
/// from pass `i` on: pass `i` compares `n - i - 1` pairs, and the passes
/// stop after one without exchanges, or after the last.
pub open spec fn bubble_steps(s: Seq<i32>, n: int, i: int, ascending: bool) -> nat
    decreases n - i,
{
    if i >= n {
        0
    } else {
        let m = n - i - 1;
        (m + if sweep_exchanges(s, m, ascending) {
            bubble_steps(sweep(s, m, ascending), n, i + 1, ascending)
        } else {
            0
        }) as nat
    }
}

/// Sorts `arr` in place, ascending or descending, by bubbling the outermost
/// element of the unsorted part to its end on each pass; stops early after
/// a pass without exchanges. Gives the number of neighbour comparisons made.
pub fn bubble_sort(arr: &mut [i32], ascending: bool) -> (steps: u128)
    ensures
        final(arr)@.len() == old(arr)@.len(),
        final(arr)@.to_multiset() == old(arr)@.to_multiset(),
        sorted_by(final(arr)@, ascending),
        steps == bubble_steps(old(arr)@, old(arr)@.len() as int, 0, ascending),
{
    let n = arr.len();
    let ghost orig = arr@;
    let mut steps: u128 = 0;
    let mut i: usize = 0;
    while i < n
        invariant_except_break
            i <= n,
            forall|a: int, b: int|
                n - i <= a <= b < n ==> in_order(#[trigger] arr@[a], #[trigger] arr@[b], ascending),
            forall|a: int, b: int|
                0 <= a < n - i <= b < n ==> in_order(#[trigger] arr@[a], #[trigger] arr@[b], ascending),
            bubble_steps(orig, n as int, 0, ascending) == steps + bubble_steps(
                arr@,
                n as int,
                i as int,
                ascending,
            ),
            steps <= i * n,
        invariant
            n == arr@.len(),
            arr@.to_multiset() == orig.to_multiset(),
        ensures
            sorted_by(arr@, ascending),
            steps == bubble_steps(orig, n as int, 0, ascending),
        decreases n - i,
    {
        let ghost start = arr@;
        let ghost start_steps = steps;
        let mut swapped = false;
        let mut j: usize = 0;
        while j < n - i - 1
            invariant
                i < n,
                n == arr@.len(),
                start.len() == n,
                arr@.to_multiset() == orig.to_multiset(),
                j <= n - i - 1,
                forall|a: int, b: int|
                    n - i <= a <= b < n ==> in_order(#[trigger] arr@[a], #[trigger] arr@[b], ascending),
                forall|a: int, b: int|
                    0 <= a < n - i <= b < n ==> in_order(#[trigger] arr@[a], #[trigger] arr@[b], ascending),
                forall|a: int| 0 <= a <= j ==> in_order(#[trigger] arr@[a], arr@[j as int], ascending),
                !swapped ==> forall|a: int, b: int|
                    0 <= a <= b <= j ==> in_order(#[trigger] arr@[a], #[trigger] arr@[b], ascending),
                arr@ == sweep(start, j as int, ascending),
                swapped == sweep_exchanges(start, j as int, ascending),
                steps == start_steps + j,
                start_steps <= i * n,
            decreases n - i - 1 - j,
        {
            let out_of_order = if ascending {
                arr[j] > arr[j + 1]
            } else {
                arr[j] < arr[j + 1]
            };
            let ghost before = arr@;
            if out_of_order {
                let t = arr[j];
                arr[j] = arr[j + 1];
                arr[j + 1] = t;
                proof {
                    assert(arr@ =~= before.update(j as int, before[j + 1]).update(j + 1, before[j as int]));
                    lemma_swap_multiset(before, j as int);
                }
                swapped = true;
            }
            proof {
                assert(arr@ == settle(before, j as int, ascending));
                assert(start_steps + j + 1 <= i * n + n) by (nonlinear_arith)
                    requires
                        start_steps <= i * n,
                        j + 1 <= n,
                ;
                assert(i * n + n <= n * n) by (nonlinear_arith)
                    requires
                        i < n,
                ;
                assert(n * n <= 0xffff_ffff_ffff_ffff * 0xffff_ffff_ffff_ffff) by (nonlinear_arith)
                    requires
                        n <= 0xffff_ffff_ffff_ffff,
                ;
            }
            steps = steps + 1;
            j += 1;
        }
        proof {
            assert(steps <= (i + 1) * n) by (nonlinear_arith)
                requires
                    steps == start_steps + j,
                    start_steps <= i * n,
                    j <= n,
            ;
        }
        if !swapped {
            break;
        }
        i += 1;
    }
    steps
}

/// A multiset of integers has exactly one sorted arrangement in each
/// direction: two sorted sequences with the same elements are equal. So
/// the result of `bubble_sort` is determined by the elements alone, and
/// sorting a sorted array leaves it as it was.
pub proof fn law_sorted_arrangement_unique(s: Seq<i32>, t: Seq<i32>, ascending: bool)
    requires
        sorted_by(s, ascending),
        sorted_by(t, ascending),
        s.to_multiset() == t.to_multiset(),
    ensures
        s == t,
    decreases s.len(),
{
    assert(s.len() == s.to_multiset().len());
    assert(t.len() == t.to_multiset().len());
    if s.len() == 0 {
        assert(s =~= t);
    } else {
        assert(t.to_multiset().count(t[0]) > 0);
        assert(s.contains(t[0]));
        let k = choose|k: int| 0 <= k < s.len() && s[k] == t[0];
        assert(in_order(s[0], s[k], ascending));
        assert(s.to_multiset().count(s[0]) > 0);
        assert(t.contains(s[0]));
        let m = choose|m: int| 0 <= m < t.len() && t[m] == s[0];
        assert(in_order(t[0], t[m], ascending));
        assert(s[0] == t[0]);
        assert(s.remove(0) =~= s.drop_first());
        assert(t.remove(0) =~= t.drop_first());
        assert(s.drop_first().to_multiset() =~= t.drop_first().to_multiset());
        assert forall|i: int, j: int| 0 <= i <= j < s.drop_first().len() implies in_order(
            #[trigger] s.drop_first()[i],
            #[trigger] s.drop_first()[j],
            ascending,
        ) by {
            assert(in_order(s[i + 1], s[j + 1], ascending));
        }
        assert forall|i: int, j: int| 0 <= i <= j < t.drop_first().len() implies in_order(
            #[trigger] t.drop_first()[i],
            #[trigger] t.drop_first()[j],
            ascending,
        ) by {
            assert(in_order(t[i + 1], t[j + 1], ascending));
        }
        law_sorted_arrangement_unique(s.drop_first(), t.drop_first(), ascending);
        assert forall|i: int| 0 <= i < s.len() implies s[i] == t[i] by {
            if i > 0 {
                assert(s[i] == s.drop_first()[i - 1]);
                assert(t[i] == t.drop_first()[i - 1]);
            }
        }
        assert(s =~= t);
    }
}

} // verus!
