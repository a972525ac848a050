//! Small helpers on indices and slices.

use vstd::prelude::*;

verus! {

/// `dst` with the `n` items from `at` on replaced by `src[from..from + n]`.
pub open spec fn spliced<A>(dst: Seq<A>, at: int, src: Seq<A>, from: int, n: int) -> Seq<A> {
    Seq::new(
        dst.len(),
        |j: int|
            if at <= j < at + n {
                src[from + j - at]
            } else {
                dst[j]
            },
    )
}

/// Distance from index `p` up to index `q`.
pub fn ptr_diff(q: usize, p: usize) -> (d: usize)
    requires
        p <= q,
    ensures
        d == q - p,
{
    q - p
}

/// Copies all of `src` into `tgt`, starting at index `at` of `tgt`.
pub fn copy_from_slice<A: Copy>(tgt: &mut [A], at: usize, src: &[A])
    requires
        at + src@.len() <= old(tgt)@.len(),
    ensures
        final(tgt)@ == spliced(old(tgt)@, at as int, src@, 0, src@.len() as int),
{
    let n = src.len();
    let total = tgt.len();
    assert(tgt@ =~= spliced(old(tgt)@, at as int, src@, 0, 0));
    let mut k: usize = 0;
    while k < n
        invariant
            k <= n,
            n == src@.len(),
            total == tgt@.len(),
            at + n <= total,
            tgt@ == spliced(old(tgt)@, at as int, src@, 0, k as int),
        decreases n - k,
    {
        tgt[at + k] = src[k];
        k = k + 1;
        assert(tgt@ =~= spliced(old(tgt)@, at as int, src@, 0, k as int));
    }
}

/// Fills all of `tgt` from `src`, starting at index `from` of `src`.
pub fn copy_from_ptr<A: Copy>(tgt: &mut [A], src: &[A], from: usize)
    requires
        from + old(tgt)@.len() <= src@.len(),
    ensures
        final(tgt)@ == src@.subrange(from as int, from + old(tgt)@.len()),
{
    let n = tgt.len();
    let total = src.len();
    let mut k: usize = 0;
    while k < n
        invariant
            k <= n,
            n == tgt@.len(),
            total == src@.len(),
            from + n <= total,
            forall|j: int| 0 <= j < k ==> tgt@[j] == src@[from + j],
        decreases n - k,
    {
        tgt[k] = src[from + k];
        k = k + 1;
    }
    assert(tgt@ =~= src@.subrange(from as int, from + n));
}

/// Appends all of `bs` to `out`.
pub fn append(out: &mut Vec<u8>, bs: &[u8])
    ensures
        final(out)@ == old(out)@ + bs@,
{
    let n = bs.len();
    let mut k: usize = 0;
    assert(out@ =~= old(out)@ + bs@.subrange(0, 0));
    while k < n
        invariant
            k <= n,
            n == bs@.len(),
            out@ == old(out)@ + bs@.subrange(0, k as int),
        decreases n - k,
    {
        out.push(bs[k]);
        k = k + 1;
        assert(out@ =~= old(out)@ + bs@.subrange(0, k as int));
    }
    assert(bs@.subrange(0, n as int) =~= bs@);
}

} // verus!
