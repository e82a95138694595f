use vstd::prelude::*;

verus! {

/// `s` is in ascending order.
pub open spec fn sorted_ascending(s: Seq<i32>) -> bool {
    forall|i: int, j: int| 0 <= i <= j < s.len() ==> s[i] <= s[j]
}

/// The outcome of halving the index range `lo..=hi` of `s` in search of `x`:
/// the middle element is looked at, and the search goes on in the half
/// that can still hold `x`, or stops when the middle is index 0 and too large.
pub open spec fn halving_search(s: Seq<i32>, x: i32, lo: int, hi: int) -> Option<(i32, usize)>
    decreases hi - lo + 1,
{
    if lo > hi || lo < 0 || hi >= s.len() {
        None
    } else {
        let mid = lo + (hi - lo) / 2;
        if s[mid] == x {
            Some((s[mid], mid as usize))
        } else if s[mid] > x {
            if mid == 0 {
                None
            } else {
                halving_search(s, x, lo, mid - 1)
            }
        } else {
            halving_search(s, x, mid + 1, hi)
        }
    }
}

/// What the search finds is `x`, at an index of the range.
pub proof fn lemma_search_sound(s: Seq<i32>, x: i32, lo: int, hi: int)
    requires
        s.len() <= usize::MAX,
    ensures
        halving_search(s, x, lo, hi) matches Some((v, i)) ==> lo <= i <= hi && 0 <= i < s.len()
            && s[i as int] == x && v == x,
    decreases hi - lo + 1,
{
    if !(lo > hi || lo < 0 || hi >= s.len()) {
        let mid = lo + (hi - lo) / 2;
        if s[mid] == x {
        } else if s[mid] > x {
            if mid != 0 {
                lemma_search_sound(s, x, lo, mid - 1);
            }
        } else {
            lemma_search_sound(s, x, mid + 1, hi);
        }
    }
}

/// On an ascending sequence, the search finds `x` whenever the range holds it.
pub proof fn lemma_search_complete(s: Seq<i32>, x: i32, lo: int, hi: int, k: int)
    requires
        sorted_ascending(s),
        0 <= lo <= k <= hi < s.len(),
        s[k] == x,
    ensures
        halving_search(s, x, lo, hi) is Some,
    decreases hi - lo + 1,
{
    let mid = lo + (hi - lo) / 2;
    if s[mid] == x {
    } else if s[mid] > x {
        assert(k < mid);
        lemma_search_complete(s, x, lo, mid - 1, k);
    } else {
        assert(k > mid);
        lemma_search_complete(s, x, mid + 1, hi, k);
    }
}

/// The number of elements that the halving search of `lo..=hi` looks at.
pub open spec fn halving_probes(s: Seq<i32>, x: i32, lo: int, hi: int) -> nat
    decreases hi - lo + 1,
{
    if lo > hi || lo < 0 || hi >= s.len() {
        0
    } else {
        let mid = lo + (hi - lo) / 2;
        if s[mid] == x {
            1
        } else if s[mid] > x {
            if mid == 0 {
                1
            } else {
                1 + halving_probes(s, x, lo, mid - 1)
            }
        } else {
            1 + halving_probes(s, x, mid + 1, hi)
        }
    }
}

/// The number of rounds of the halving search of `lo..=hi` that go on to
/// a smaller range (the rounds that neither find `x` nor give up).
pub open spec fn halving_steps(s: Seq<i32>, x: i32, lo: int, hi: int) -> nat
    decreases hi - lo + 1,
{
    if lo > hi || lo < 0 || hi >= s.len() {
        0
    } else {
        let mid = lo + (hi - lo) / 2;
        if s[mid] == x {
            0
        } else if s[mid] > x {
            if mid == 0 {
                0
            } else {
                1 + halving_steps(s, x, lo, mid - 1)
            }
        } else {
            1 + halving_steps(s, x, mid + 1, hi)
        }
    }
}

proof fn lemma_probe_bound(s: Seq<i32>, x: i32, lo: int, hi: int)
    requires
        0 <= lo <= hi < s.len(),
    ensures
        halving_steps(s, x, lo, hi) <= halving_probes(s, x, lo, hi),
        halving_probes(s, x, lo, hi) <= vstd::arithmetic::logarithm::log(2, hi - lo + 1) + 1,
    decreases hi - lo + 1,
{
    let m = hi - lo + 1;
    let mid = lo + (hi - lo) / 2;
    vstd::arithmetic::logarithm::lemma_log_nonnegative(2, m);
    let (l2, h2) = if s[mid] > x {
        (lo, mid - 1)
    } else {
        (mid + 1, hi)
    };
    assert(h2 - l2 + 1 <= m / 2);
    if s[mid] != x && !(s[mid] > x && mid == 0) && l2 <= h2 {
        lemma_probe_bound(s, x, l2, h2);
        assert(m >= 2);
        vstd::arithmetic::logarithm::lemma_log_s(2, m);
        vstd::arithmetic::logarithm::lemma_log_is_ordered(2, h2 - l2 + 1, m / 2);
    }
}

/// Binary search looks at no more than floor(log2(n)) + 1 of the `n`
/// elements, and goes on to a smaller range at most as often.
pub proof fn law_probe_count(s: Seq<i32>, x: i32)
    requires
        s.len() >= 1,
    ensures
        halving_steps(s, x, 0, s.len() - 1) <= halving_probes(s, x, 0, s.len() - 1),
        halving_probes(s, x, 0, s.len() - 1) <= vstd::arithmetic::logarithm::log(2, s.len() as int)
            + 1,
{
    lemma_probe_bound(s, x, 0, s.len() - 1);
}

/// Binary search for `desired_value` in `arr`, as `bin_search` does, that
/// also gives the number of rounds that went on to a smaller range.
pub fn bin_search_with_steps(arr: &[i32], desired_value: i32) -> (r: (Option<(i32, usize)>, usize))
    requires
        arr@.len() > 0,
    ensures
        r.0 == halving_search(arr@, desired_value, 0, arr@.len() - 1),
        r.1 == halving_steps(arr@, desired_value, 0, arr@.len() - 1),
{
    let n = arr.len();
    let ghost s = arr@;
    let mut low_bound: usize = 0;
    let mut up_bound: usize = n - 1;
    let mut steps: usize = 0;
    while low_bound <= up_bound
        invariant
            s == arr@,
            n == s.len(),
            up_bound < n,
            low_bound <= up_bound + 1,
            steps <= n - (up_bound + 1 - low_bound),
            halving_search(s, desired_value, 0, n - 1) == halving_search(
                s,
                desired_value,
                low_bound as int,
                up_bound as int,
            ),
            halving_steps(s, desired_value, 0, n - 1) == steps + halving_steps(
                s,
                desired_value,
                low_bound as int,
                up_bound as int,
            ),
        decreases up_bound + 1 - low_bound,
    {
        let mid = low_bound + (up_bound - low_bound) / 2;
        let mid_value = arr[mid];
        if mid_value == desired_value {
            return (Some((mid_value, mid)), steps);
        } else if mid_value > desired_value {
            if mid == 0 {
                return (None, steps);
            }
            up_bound = mid - 1;
        } else {
            low_bound = mid + 1;
        }
        steps = steps + 1;
    }
    (None, steps)
}

/// Binary search for `desired_value` in `arr`: its value and index where
/// found. `arr` must not be empty.
pub fn bin_search(arr: &[i32], desired_value: i32) -> (r: Option<(i32, usize)>)
    requires
        arr@.len() > 0,
    ensures
        r == halving_search(arr@, desired_value, 0, arr@.len() - 1),
        r matches Some((v, i)) ==> i < arr@.len() && arr@[i as int] == desired_value && v
            == desired_value,
        sorted_ascending(arr@) ==> (r is Some <==> arr@.contains(desired_value)),
{
    let ghost s = arr@;
    let n = arr.len();
    proof {
        lemma_search_sound(s, desired_value, 0, n - 1);
        if sorted_ascending(s) && s.contains(desired_value) {
            let k = choose|k: int| 0 <= k < s.len() && s[k] == desired_value;
            lemma_search_complete(s, desired_value, 0, n - 1, k);
        }
    }
    bin_search_with_steps(arr, desired_value).0
}

} // verus!
