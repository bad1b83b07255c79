use vstd::prelude::*;

verus! {

/// Number of chunks of size `chunk` needed to cover `total` bytes (rounded up).
pub open spec fn chunk_count(total: int, chunk: int) -> int {
    if chunk <= 0 { 0 } else { (total + chunk - 1) / chunk }
}

/// First byte of the `i`-th chunk.
pub open spec fn chunk_start(chunk: int, i: int) -> int {
    i * chunk
}

/// Last byte (inclusive) of the `i`-th chunk: the chunk stops at `total` at the latest.
pub open spec fn chunk_end(total: int, chunk: int, i: int) -> int {
    if chunk_start(chunk, i) + chunk < total { chunk_start(chunk, i) + chunk - 1 } else { total - 1 }
}

/// Splitting `total` bytes into chunks of `chunk_size` runs without overflow or
/// underflow: either there is nothing to split, or the chunk size is positive and
/// the end of the last full-size chunk still fits in a `u64`.
pub open spec fn split_defined(total: u64, chunk_size: u64) -> bool {
    total == 0 || (chunk_size > 0 && chunk_count(total as int, chunk_size as int) * chunk_size <= u64::MAX)
}

/// `ranges` is exactly the list of inclusive chunk ranges of `total` bytes in
/// chunks of `chunk` bytes, in ascending order.
pub open spec fn is_split_of(ranges: Seq<(u64, u64)>, total: int, chunk: int) -> bool {
    &&& ranges.len() == chunk_count(total, chunk)
    &&& forall|i: int| 0 <= i < ranges.len() ==> {
        &&& #[trigger] ranges[i].0 == chunk_start(chunk, i)
        &&& ranges[i].1 == chunk_end(total, chunk, i)
    }
}

/// `k` chunks start before `total` exactly when `k` is below the chunk count.
proof fn lemma_chunk_count(total: int, chunk: int, k: int)
    requires
        total >= 0,
        chunk > 0,
        k >= 0,
    ensures
        k < chunk_count(total, chunk) <==> k * chunk < total,
        chunk_count(total, chunk) >= 0,
{
    let n = chunk_count(total, chunk);
    assert(n == (total + chunk - 1) / chunk);
    vstd::arithmetic::div_mod::lemma_fundamental_div_mod(total + chunk - 1, chunk);
    let r = (total + chunk - 1) % chunk;
    assert(0 <= r < chunk) by {
        vstd::arithmetic::div_mod::lemma_mod_bound(total + chunk - 1, chunk);
    }
    assert(total + chunk - 1 == chunk * n + r);
    assert(n >= 0) by {
        vstd::arithmetic::div_mod::lemma_div_pos_is_pos(total + chunk - 1, chunk);
    }
    if k < n {
        assert(k * chunk <= (n - 1) * chunk) by (nonlinear_arith)
            requires k <= n - 1, chunk > 0;
        assert((n - 1) * chunk == chunk * n - chunk) by (nonlinear_arith);
    } else {
        assert(k * chunk >= n * chunk) by (nonlinear_arith)
            requires k >= n, chunk > 0;
        assert(n * chunk == chunk * n) by (nonlinear_arith);
    }
}

/// Splits `total` bytes into consecutive inclusive `(start, end)` ranges of at most
/// `chunk_size` bytes each, in ascending order.
pub fn split_ranges(total: u64, chunk_size: u64) -> (out: Vec<(u64, u64)>)
    requires
        split_defined(total, chunk_size),
    ensures
        is_split_of(out@, total as int, chunk_size as int),
{
    let mut out: Vec<(u64, u64)> = Vec::new();
    let mut start: u64 = 0;
    proof {
        assert(0 * chunk_size == 0) by (nonlinear_arith);
        if chunk_size > 0 {
            lemma_chunk_count(total as int, chunk_size as int, 0);
        }
    }
    while start < total
        invariant
            split_defined(total, chunk_size),
            total > 0 ==> chunk_size > 0,
            start <= total,
            start as int == out@.len() * chunk_size || (start == total && out@.len()
                == chunk_count(total as int, chunk_size as int)),
            out@.len() <= chunk_count(total as int, chunk_size as int) || total == 0,
            start < total ==> out@.len() < chunk_count(total as int, chunk_size as int),
            out@.len() > 0 ==> (out@.len() - 1) * chunk_size < total,
            forall|i: int| 0 <= i < out@.len() ==> {
                &&& #[trigger] out@[i].0 == chunk_start(chunk_size as int, i)
                &&& out@[i].1 == chunk_end(total as int, chunk_size as int, i)
            },
        decreases total - start,
    {
        let ghost k = out@.len() as int;
        let ghost n = chunk_count(total as int, chunk_size as int);
        assert(start as int == k * chunk_size);
        assert((k + 1) * chunk_size <= n * chunk_size) by (nonlinear_arith)
            requires k + 1 <= n, chunk_size >= 0;
        assert((k + 1) * chunk_size == k * chunk_size + chunk_size) by (nonlinear_arith);
        let next = start + chunk_size;
        let stop = if next < total { next } else { total };
        let end = stop - 1;
        out.push((start, end));
        start = end + 1;
        proof {
            lemma_chunk_count(total as int, chunk_size as int, k + 1);
            assert(chunk_start(chunk_size as int, k) == k * chunk_size);
            assert(out@[k].0 == chunk_start(chunk_size as int, k));
            assert(out@[k].1 == chunk_end(total as int, chunk_size as int, k));
        }
    }
    proof {
        if total > 0 && out@.len() > 0 {
            lemma_chunk_count(total as int, chunk_size as int, out@.len() as int);
            lemma_chunk_count(total as int, chunk_size as int, out@.len() - 1);
        }
    }
    out
}

/// Whether `split_ranges(total, chunk_size)` may be called: it runs without
/// arithmetic overflow or underflow exactly when this returns `true`.
pub fn can_split(total: u64, chunk_size: u64) -> (ok: bool)
    ensures
        ok == split_defined(total, chunk_size),
{
    if total == 0 {
        return true;
    }
    if chunk_size == 0 {
        return false;
    }
    // ceil(total / chunk_size) computed without overflow
    let q = total / chunk_size;
    proof {
        vstd::arithmetic::div_mod::lemma_fundamental_div_mod(total as int, chunk_size as int);
        vstd::arithmetic::div_mod::lemma_mod_bound(total as int, chunk_size as int);
        if total % chunk_size != 0 {
            assert(chunk_size >= 2);
            assert(q * chunk_size <= total) by (nonlinear_arith)
                requires total == chunk_size * q + total % chunk_size, total % chunk_size >= 0;
            assert(q < u64::MAX) by (nonlinear_arith)
                requires q * chunk_size <= total, chunk_size >= 2, total <= u64::MAX;
        }
    }
    let n = if total % chunk_size == 0 { q } else { q + 1 };
    proof {
        let t = total as int;
        let c = chunk_size as int;
        vstd::arithmetic::div_mod::lemma_fundamental_div_mod(t, c);
        vstd::arithmetic::div_mod::lemma_mod_bound(t, c);
        assert(t == c * q + t % c);
        if t % c == 0 {
            assert(q * c == c * q) by (nonlinear_arith);
            assert(t + c - 1 == q * c + (c - 1));
            vstd::arithmetic::div_mod::lemma_fundamental_div_mod_converse_div(t + c - 1, c, q as int, c - 1);
        } else {
            assert((q + 1) * c == c * q + c) by (nonlinear_arith);
            assert(t + c - 1 == (q + 1) * c + (t % c - 1));
            vstd::arithmetic::div_mod::lemma_fundamental_div_mod_converse_div(t + c - 1, c, (q + 1) as int, t % c - 1);
        }
        assert(n == chunk_count(t, c));
        let m = u64::MAX as int;
        vstd::arithmetic::div_mod::lemma_fundamental_div_mod(m, c);
        vstd::arithmetic::div_mod::lemma_mod_bound(m, c);
        let mq = m / c;
        if n <= mq {
            assert(n * c <= c * mq) by (nonlinear_arith)
                requires n <= mq, c > 0;
        } else {
            assert(n * c >= c * mq + c) by (nonlinear_arith)
                requires n >= mq + 1, c > 0;
        }
    }
    n <= u64::MAX / chunk_size
}

/// The ranges produced for a download partition its bytes: there are none exactly
/// when the file is empty, each is non-empty and at most one chunk long, all but the
/// last are exactly one chunk long, they start at byte 0, each begins right after the
/// previous one ends, and the last ends at the final byte.
pub proof fn lemma_split_ranges_partition(ranges: Seq<(u64, u64)>, total: u64, chunk_size: u64)
    requires
        split_defined(total, chunk_size),
        is_split_of(ranges, total as int, chunk_size as int),
    ensures
        ranges.len() == 0 <==> total == 0,
        ranges.len() > 0 ==> ranges[0].0 == 0 && ranges[ranges.len() - 1].1 == total - 1,
        forall|i: int| 0 <= i < ranges.len() ==> {
            &&& #[trigger] ranges[i].0 <= ranges[i].1
            &&& ranges[i].1 < total
            &&& ranges[i].1 - ranges[i].0 + 1 <= chunk_size
            &&& i + 1 < ranges.len() ==> ranges[i].1 - ranges[i].0 + 1 == chunk_size
        },
        forall|i: int| 0 <= i < ranges.len() - 1 ==> #[trigger] ranges[i + 1].0 == ranges[i].1 + 1,
{
    let c = chunk_size as int;
    let t = total as int;
    if total == 0 {
        if chunk_size > 0 {
            lemma_chunk_count(t, c, 0);
        }
        return;
    }
    lemma_chunk_count(t, c, 0);
    assert(0 * c == 0) by (nonlinear_arith);
    assert forall|i: int| 0 <= i < ranges.len() implies {
        &&& #[trigger] ranges[i].0 <= ranges[i].1
        &&& ranges[i].1 < total
        &&& ranges[i].1 - ranges[i].0 + 1 <= chunk_size
        &&& i + 1 < ranges.len() ==> ranges[i].1 - ranges[i].0 + 1 == chunk_size
    } by {
        lemma_chunk_count(t, c, i);
        lemma_chunk_count(t, c, i + 1);
        assert((i + 1) * c == i * c + c) by (nonlinear_arith);
    }
    assert forall|i: int| 0 <= i < ranges.len() - 1 implies #[trigger] ranges[i + 1].0
        == ranges[i].1 + 1 by {
        lemma_chunk_count(t, c, i + 1);
        assert((i + 1) * c == i * c + c) by (nonlinear_arith);
        assert(ranges[i + 1].0 == chunk_start(c, i + 1));
        assert(ranges[i].0 == chunk_start(c, i));
        assert(chunk_start(c, i) + c < t);
    }
    let last = ranges.len() - 1;
    lemma_chunk_count(t, c, last + 1);
    assert((last + 1) * c == last * c + c) by (nonlinear_arith);
    assert(ranges[0].0 == chunk_start(c, 0));
    assert(ranges[last].0 == chunk_start(c, last));
}

} // verus!
