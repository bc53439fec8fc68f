//! Cutting a length into chunks of a fixed size, the last one shorter where
//! the size does not divide the length: the content into pieces, a piece
//! into blocks.

use vstd::prelude::*;

verus! {

/// The number of chunks of `size` bytes that `len` bytes are cut into: whole
/// chunks, and one more for a remainder.
pub open spec fn chunk_count(len: int, size: int) -> int {
    len / size + if len % size != 0 {
        1int
    } else {
        0int
    }
}

/// The offset at which chunk `i` begins.
pub open spec fn chunk_begin(i: int, size: int) -> int {
    i * size
}

/// The length of chunk `i`: `size`, but for the last chunk, which holds
/// what is left.
pub open spec fn chunk_length(len: int, size: int, i: int) -> int {
    if i == chunk_count(len, size) - 1 {
        len - i * size
    } else {
        size
    }
}

/// The chunks of `len` bytes lie end to end: the first begins at 0, each
/// begins where the one before it ends, none is empty, and the last ends at
/// `len`. So no two overlap, and together they cover `[0, len)` exactly. The
/// last chunk holds the remainder of `len` by `size`, or a whole chunk where
/// the remainder is zero.
pub proof fn lemma_chunks_partition(len: int, size: int)
    requires
        len >= 0,
        size > 0,
    ensures
        chunk_count(len, size) >= 0,
        len == 0 <==> chunk_count(len, size) == 0,
        len > 0 ==> chunk_begin(0, size) == 0,
        forall|i: int|
            0 <= i < chunk_count(len, size) ==> 0 < #[trigger] chunk_length(
                len,
                size,
                i,
            ) <= size,
        forall|i: int|
            0 <= i < chunk_count(len, size) - 1 ==> #[trigger] chunk_begin(i, size)
                + chunk_length(len, size, i) == chunk_begin(i + 1, size),
        forall|i: int, j: int|
            0 <= i < j < chunk_count(len, size) ==> #[trigger] chunk_begin(i, size)
                + chunk_length(len, size, i) <= #[trigger] chunk_begin(j, size),
        len > 0 ==> chunk_begin(chunk_count(len, size) - 1, size) + chunk_length(
            len,
            size,
            chunk_count(len, size) - 1,
        ) == len,
        forall|k: int|
            0 <= k < len ==> 0 <= k / size < chunk_count(len, size) && chunk_begin(
                k / size,
                size,
            ) <= k < chunk_begin(k / size, size) + chunk_length(
                len,
                size,
                #[trigger] (k / size),
            ),
        len > 0 ==> chunk_length(len, size, chunk_count(len, size) - 1) == (if len
            % size != 0 {
            len - (len / size) * size
        } else {
            size
        }),
{
    let n = chunk_count(len, size);
    let q = len / size;
    let r = len % size;
    vstd::arithmetic::div_mod::lemma_fundamental_div_mod(len, size);
    vstd::arithmetic::div_mod::lemma_mod_bound(len, size);
    vstd::arithmetic::mul::lemma_mul_is_commutative(size, q);
    assert(len == q * size + r);
    assert(q >= 0) by (nonlinear_arith)
        requires
            len == q * size + r,
            0 <= r < size,
            len >= 0,
            size > 0,
    ;
    assert(len == 0 <==> n == 0) by (nonlinear_arith)
        requires
            len == q * size + r,
            0 <= r < size,
            q >= 0,
            n == q + if r != 0 {
                1int
            } else {
                0int
            },
    ;
    assert forall|i: int| 0 <= i < n implies 0 < #[trigger] chunk_length(len, size, i)
        <= size by {
        if i == n - 1 {
            assert(0 < len - i * size <= size) by (nonlinear_arith)
                requires
                    len == q * size + r,
                    0 <= r < size,
                    i == q + (if r != 0 {
                        1int
                    } else {
                        0int
                    }) - 1,
                    i >= 0,
            ;
        }
    }
    assert forall|i: int| 0 <= i < n - 1 implies #[trigger] chunk_begin(i, size)
        + chunk_length(len, size, i) == chunk_begin(i + 1, size) by {
        assert(i * size + size == (i + 1) * size) by (nonlinear_arith);
    }
    assert forall|i: int, j: int| 0 <= i < j < n implies #[trigger] chunk_begin(i, size)
        + chunk_length(len, size, i) <= #[trigger] chunk_begin(j, size) by {
        assert(i * size + size <= j * size) by (nonlinear_arith)
            requires
                i < j,
                size > 0,
        ;
    }
    assert forall|k: int| 0 <= k < len implies 0 <= k / size < n && chunk_begin(
        k / size,
        size,
    ) <= k < chunk_begin(k / size, size) + chunk_length(
        len,
        size,
        #[trigger] (k / size),
    ) by {
        let c = k / size;
        let d = k % size;
        vstd::arithmetic::div_mod::lemma_fundamental_div_mod(k, size);
        vstd::arithmetic::div_mod::lemma_mod_bound(k, size);
        vstd::arithmetic::mul::lemma_mul_is_commutative(size, c);
        assert(0 <= c < n && c * size <= k && (c < n - 1 ==> k < c * size
            + size)) by (nonlinear_arith)
            requires
                k == c * size + d,
                0 <= d < size,
                0 <= k < len,
                len == q * size + r,
                0 <= r < size,
                n == q + if r != 0 {
                    1int
                } else {
                    0int
                },
        ;
    }
    if len > 0 {
        if r != 0 {
            assert(n - 1 == q);
        } else {
            assert(len - (q - 1) * size == size) by (nonlinear_arith)
                requires
                    len == q * size + r,
                    r == 0,
            ;
        }
    }
}

/// Every chunk lies inside the `len` bytes, and none is empty.
pub proof fn lemma_chunk_inside(len: int, size: int, k: int)
    requires
        len >= 0,
        size > 0,
        0 <= k < chunk_count(len, size),
    ensures
        0 <= chunk_begin(k, size),
        0 < chunk_length(len, size, k) <= size,
        chunk_begin(k, size) + chunk_length(len, size, k) <= len,
{
    lemma_chunks_partition(len, size);
    assert(chunk_begin(k, size) >= 0) by (nonlinear_arith)
        requires
            k >= 0,
            size > 0,
    ;
    assert(chunk_length(len, size, k) > 0);
    let last = chunk_count(len, size) - 1;
    if k < last {
        assert(chunk_begin(k, size) + chunk_length(len, size, k) <= chunk_begin(
            last,
            size,
        ));
    }
}

/// There are no more chunks than bytes.
pub proof fn lemma_whole_chunks(len: int, size: int)
    requires
        len >= 0,
        size > 0,
    ensures
        chunk_count(len, size) <= len,
{
    let q = len / size;
    let r = len % size;
    vstd::arithmetic::div_mod::lemma_fundamental_div_mod(len, size);
    vstd::arithmetic::div_mod::lemma_mod_bound(len, size);
    vstd::arithmetic::mul::lemma_mul_is_commutative(size, q);
    assert(q + (if r != 0 {
        1int
    } else {
        0int
    }) <= len) by (nonlinear_arith)
        requires
            len == q * size + r,
            0 <= r < size,
            len >= 0,
    ;
}

} // verus!
