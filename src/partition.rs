use vstd::prelude::*;

verus! {

/// Start of slice `k` when `n` items are cut into `p` contiguous slices:
/// the first `n % p` slices hold `n / p + 1` items, the others `n / p`.
pub open spec fn slice_start(n: nat, p: nat, k: nat) -> nat {
    k * (n / p) + if k < n % p {
        k
    } else {
        n % p
    }
}

/// End (exclusive) of slice `k`, which is where slice `k + 1` starts.
pub open spec fn slice_end(n: nat, p: nat, k: nat) -> nat {
    slice_start(n, p, k + 1)
}

pub(crate) proof fn lemma_start_step(n: nat, p: nat, k: nat)
    requires
        p > 0,
    ensures
        slice_start(n, p, k) <= slice_end(n, p, k),
{
    let d = n / p;
    assert((k + 1) * d == k * d + d) by (nonlinear_arith);
}

pub(crate) proof fn lemma_start_monotone(n: nat, p: nat, a: nat, b: nat)
    requires
        p > 0,
        a <= b,
    ensures
        slice_start(n, p, a) <= slice_start(n, p, b),
    decreases b - a,
{
    if a < b {
        lemma_start_monotone(n, p, a, (b - 1) as nat);
        lemma_start_step(n, p, (b - 1) as nat);
    }
}

pub(crate) proof fn lemma_start_last(n: nat, p: nat)
    requires
        p > 0,
    ensures
        slice_start(n, p, 0) == 0,
        slice_start(n, p, p) == n,
{
    vstd::arithmetic::div_mod::lemma_fundamental_div_mod(n as int, p as int);
    assert(p * (n / p) == (n / p) * p) by (nonlinear_arith);
    assert(0 * (n / p) == 0);
}

proof fn lemma_some_slice_holds(n: nat, p: nat, i: nat, m: nat)
    requires
        p > 0,
        i < slice_start(n, p, m),
    ensures
        exists|k: nat| k < m && #[trigger] slice_start(n, p, k) <= i < slice_end(n, p, k),
    decreases m,
{
    lemma_start_last(n, p);
    if m > 0 {
        let k = (m - 1) as nat;
        if i >= slice_start(n, p, k) {
            assert(slice_start(n, p, k) <= i < slice_end(n, p, k));
        } else {
            lemma_some_slice_holds(n, p, i, k);
        }
    }
}

/// The `p` slices cover `[0, n)`: every index lies in exactly one of them,
/// and the slices are contiguous and in order.
pub proof fn lemma_partition_covers(n: nat, p: nat, i: nat)
    requires
        p > 0,
        i < n,
    ensures
        exists|k: nat| k < p && #[trigger] slice_start(n, p, k) <= i < slice_end(n, p, k),
        forall|k1: nat, k2: nat|
            k1 < p && k2 < p && #[trigger] slice_start(n, p, k1) <= i < slice_end(n, p, k1) && #[trigger] slice_start(
                n,
                p,
                k2,
            ) <= i < slice_end(n, p, k2) ==> k1 == k2,
        slice_start(n, p, 0) == 0,
        slice_end(n, p, (p - 1) as nat) == n,
{
    lemma_start_last(n, p);
    lemma_some_slice_holds(n, p, i, p);
    assert forall|k1: nat, k2: nat|
        k1 < p && k2 < p && #[trigger] slice_start(n, p, k1) <= i < slice_end(n, p, k1) && #[trigger] slice_start(
            n,
            p,
            k2,
        ) <= i < slice_end(n, p, k2) implies k1 == k2 by {
        if k1 < k2 {
            lemma_start_monotone(n, p, k1 + 1, k2);
        } else if k2 < k1 {
            lemma_start_monotone(n, p, k2 + 1, k1);
        }
    }
}

/// The index ranges `[start, end)` of the `p` slices of a store of `n`
/// particles, in order.
pub fn split_ranges(n: usize, p: usize) -> (r: Vec<(usize, usize)>)
    requires
        p > 0,
    ensures
        r@.len() == p,
        forall|k: int|
            0 <= k < p ==> r@[k].0 == slice_start(n as nat, p as nat, k as nat) && r@[k].1
                == slice_end(n as nat, p as nat, k as nat),
{
    let q: usize = n / p;
    let m: usize = n % p;
    let mut r: Vec<(usize, usize)> = Vec::new();
    let mut start: usize = 0;
    let mut k: usize = 0;
    proof {
        lemma_start_last(n as nat, p as nat);
    }
    while k < p
        invariant
            0 <= k <= p,
            q == n / p,
            m == n % p,
            start == slice_start(n as nat, p as nat, k as nat),
            r@.len() == k,
            forall|j: int|
                0 <= j < k ==> r@[j].0 == slice_start(n as nat, p as nat, j as nat) && r@[j].1
                    == slice_end(n as nat, p as nat, j as nat),
        decreases p - k,
    {
        proof {
            lemma_start_monotone(n as nat, p as nat, (k + 1) as nat, p as nat);
            lemma_start_last(n as nat, p as nat);
            assert((k + 1) * q == k * q + q) by (nonlinear_arith);
        }
        let len: usize = if k < m {
            q + 1
        } else {
            q
        };
        let end: usize = start + len;
        r.push((start, end));
        start = end;
        k = k + 1;
    }
    r
}

} // verus!
