//! Byte gathers for tensor-parallel sharding.
//!
//! A row-major tensor sliced along an axis decomposes into `rows` rows of
//! `cols` blocks of `blk` bytes: slicing along axis 0 is the case `rows ==
//! 1`, slicing along axis 1 the case `rows == extent 0`. A shard takes the
//! blocks `[start, stop)` of every row, in row order.

use vstd::prelude::*;
use vstd::arithmetic::mul::{lemma_mul_inequality, lemma_mul_is_distributive_add_other_way};

verus! {

/// The bytes of blocks `[start, stop)` of row `i`.
pub open spec fn row_part(
    data: Seq<u8>,
    i: int,
    cols: int,
    blk: int,
    start: int,
    stop: int,
) -> Seq<u8> {
    data.subrange((i * cols + start) * blk, (i * cols + stop) * blk)
}

/// The bytes of blocks `[start, stop)` of every row below `rows`, in row
/// order.
pub open spec fn gather(
    data: Seq<u8>,
    rows: int,
    cols: int,
    blk: int,
    start: int,
    stop: int,
) -> Seq<u8>
    decreases rows,
{
    if rows <= 0 {
        Seq::empty()
    } else {
        gather(data, rows - 1, cols, blk, start, stop) + row_part(
            data,
            rows - 1,
            cols,
            blk,
            start,
            stop,
        )
    }
}

/// Copy blocks `[start, stop)` of every row.
pub fn gather_bytes(data: &[u8], rows: usize, cols: usize, blk: usize, start: usize, stop: usize)
    -> (r: Vec<u8>)
    requires
        start <= stop <= cols,
        rows * cols <= usize::MAX,
        data@.len() == rows * cols * blk,
    ensures
        r@ == gather(data@, rows as int, cols as int, blk as int, start as int, stop as int),
{
    let total = data.len();
    let mut out: Vec<u8> = Vec::new();
    let mut i: usize = 0;
    while i < rows
        invariant
            i <= rows,
            start <= stop <= cols,
            rows * cols <= usize::MAX,
            data@.len() == rows * cols * blk,
            data@.len() == total,
            out@ == gather(data@, i as int, cols as int, blk as int, start as int, stop as int),
        decreases rows - i,
    {
        proof {
            lemma_mul_is_distributive_add_other_way(cols as int, i as int, 1);
            lemma_mul_inequality(i as int + 1, rows as int, cols as int);
            lemma_mul_inequality(
                i as int * cols as int + start as int,
                rows as int * cols as int,
                blk as int,
            );
            lemma_mul_inequality(
                i as int * cols as int + stop as int,
                rows as int * cols as int,
                blk as int,
            );
            lemma_mul_inequality(
                i as int * cols as int + start as int,
                i as int * cols as int + stop as int,
                blk as int,
            );
        }
        let base = (i * cols + start) * blk;
        let end = (i * cols + stop) * blk;
        proof {
            assert(base <= end <= data@.len());
        }
        let mut k: usize = base;
        while k < end
            invariant
                base <= k <= end,
                end <= data@.len(),
                out@ == gather(
                    data@,
                    i as int,
                    cols as int,
                    blk as int,
                    start as int,
                    stop as int,
                ) + data@.subrange(base as int, k as int),
            decreases end - k,
        {
            let b = data[k];
            out.push(b);
            proof {
                assert(data@.subrange(base as int, k + 1) =~= data@.subrange(
                    base as int,
                    k as int,
                ).push(data@[k as int]));
            }
            k = k + 1;
        }
        proof {
            assert(out@ =~= gather(
                data@,
                i as int + 1,
                cols as int,
                blk as int,
                start as int,
                stop as int,
            ));
        }
        i = i + 1;
    }
    out
}

/// The length of a gather: `rows` rows of `stop - start` blocks.
pub proof fn lemma_gather_len(
    data: Seq<u8>,
    rows: int,
    cols: int,
    blk: int,
    start: int,
    stop: int,
)
    requires
        0 <= start <= stop <= cols,
        0 <= blk,
        0 <= rows,
        data.len() == rows * cols * blk,
    ensures
        gather(data, rows, cols, blk, start, stop).len() == rows * (stop - start) * blk,
    decreases rows,
{
    if rows > 0 {
        lemma_gather_len_inner(data, rows, rows, cols, blk, start, stop);
    } else {
        assert(rows * (stop - start) * blk == 0) by (nonlinear_arith)
            requires
                rows == 0,
        ;
    }
}

proof fn lemma_gather_len_inner(
    data: Seq<u8>,
    r: int,
    rows: int,
    cols: int,
    blk: int,
    start: int,
    stop: int,
)
    requires
        0 <= start <= stop <= cols,
        0 <= blk,
        0 <= r <= rows,
        data.len() == rows * cols * blk,
    ensures
        gather(data, r, cols, blk, start, stop).len() == r * (stop - start) * blk,
    decreases r,
{
    if r > 0 {
        lemma_gather_len_inner(data, r - 1, rows, cols, blk, start, stop);
        assert(((r - 1) * cols + stop) * blk <= rows * cols * blk) by (nonlinear_arith)
            requires
                0 <= blk,
                0 < r <= rows,
                0 <= stop <= cols,
        ;
        assert(0 <= ((r - 1) * cols + start) * blk <= ((r - 1) * cols + stop) * blk)
            by (nonlinear_arith)
            requires
                0 <= blk,
                0 < r,
                0 <= start <= stop <= cols,
        ;
        assert(row_part(data, r - 1, cols, blk, start, stop).len() == (stop - start) * blk)
            by (nonlinear_arith)
            requires
                data.len() == rows * cols * blk,
                row_part(data, r - 1, cols, blk, start, stop).len() == ((r - 1) * cols + stop)
                    * blk - ((r - 1) * cols + start) * blk,
        ;
        assert(r * (stop - start) * blk == (r - 1) * (stop - start) * blk + (stop - start) * blk)
            by (nonlinear_arith);
    } else {
        assert(r * (stop - start) * blk == 0) by (nonlinear_arith)
            requires
                r == 0,
        ;
    }
}

/// Gathering every block of every row gives back the whole buffer.
pub proof fn lemma_gather_all(data: Seq<u8>, rows: int, cols: int, blk: int)
    requires
        0 <= rows,
        0 <= cols,
        0 <= blk,
        data.len() == rows * cols * blk,
    ensures
        gather(data, rows, cols, blk, 0, cols) == data,
{
    lemma_gather_all_inner(data, rows, rows, cols, blk);
    assert(gather(data, rows, cols, blk, 0, cols) =~= data);
}

proof fn lemma_gather_all_inner(data: Seq<u8>, r: int, rows: int, cols: int, blk: int)
    requires
        0 <= r <= rows,
        0 <= cols,
        0 <= blk,
        data.len() == rows * cols * blk,
    ensures
        gather(data, r, cols, blk, 0, cols) == data.subrange(0, r * cols * blk),
    decreases r,
{
    if r <= 0 {
        assert(gather(data, r, cols, blk, 0, cols) =~= data.subrange(0, 0));
        assert(r * cols * blk == 0) by (nonlinear_arith)
            requires
                r == 0,
        ;
    } else {
        lemma_gather_all_inner(data, r - 1, rows, cols, blk);
        assert(0 <= (r - 1) * cols * blk <= r * cols * blk <= rows * cols * blk)
            by (nonlinear_arith)
            requires
                0 < r <= rows,
                0 <= cols,
                0 <= blk,
        ;
        assert(((r - 1) * cols + 0) * blk == (r - 1) * cols * blk) by (nonlinear_arith);
        assert(((r - 1) * cols + cols) * blk == r * cols * blk) by (nonlinear_arith);
        assert(gather(data, r, cols, blk, 0, cols) =~= data.subrange(0, r * cols * blk));
    }
}

/// A gather over an empty block range takes nothing.
pub proof fn lemma_gather_empty_range(data: Seq<u8>, rows: int, cols: int, blk: int)
    requires
        0 <= rows,
        0 <= cols,
        0 <= blk,
        data.len() == rows * cols * blk,
    ensures
        gather(data, rows, cols, blk, 0, 0) == Seq::<u8>::empty(),
    decreases rows,
{
    if rows > 0 {
        lemma_gather_empty_range_inner(data, rows, rows, cols, blk);
    }
}

proof fn lemma_gather_empty_range_inner(data: Seq<u8>, r: int, rows: int, cols: int, blk: int)
    requires
        0 <= r <= rows,
        0 <= cols,
        0 <= blk,
        data.len() == rows * cols * blk,
    ensures
        gather(data, r, cols, blk, 0, 0) == Seq::<u8>::empty(),
    decreases r,
{
    if r > 0 {
        lemma_gather_empty_range_inner(data, r - 1, rows, cols, blk);
        assert(0 <= ((r - 1) * cols + 0) * blk <= data.len()) by (nonlinear_arith)
            requires
                data.len() == rows * cols * blk,
                0 < r <= rows,
                0 <= cols,
                0 <= blk,
        ;
        assert(row_part(data, r - 1, cols, blk, 0, 0) =~= Seq::<u8>::empty());
        assert(gather(data, r, cols, blk, 0, 0) =~= Seq::<u8>::empty());
    }
}

/// A gather over zero-byte blocks takes nothing.
pub proof fn lemma_gather_zero_blk(data: Seq<u8>, rows: int, cols: int, start: int, stop: int)
    requires
        0 <= rows,
    ensures
        gather(data, rows, cols, 0, start, stop) == Seq::<u8>::empty(),
    decreases rows,
{
    if rows > 0 {
        lemma_gather_zero_blk(data, rows - 1, cols, start, stop);
        assert(((rows - 1) * cols + start) * 0 == 0) by (nonlinear_arith);
        assert(((rows - 1) * cols + stop) * 0 == 0) by (nonlinear_arith);
        assert(row_part(data, rows - 1, cols, 0, start, stop) =~= Seq::<u8>::empty());
        assert(gather(data, rows, cols, 0, start, stop) =~= Seq::<u8>::empty());
    }
}

/// Splitting one row's block range at `mid` splits its bytes.
pub proof fn lemma_row_part_split(
    data: Seq<u8>,
    i: int,
    cols: int,
    blk: int,
    start: int,
    mid: int,
    stop: int,
)
    requires
        0 <= start <= mid <= stop <= cols,
        0 <= blk,
        0 <= i,
        (i * cols + stop) * blk <= data.len(),
    ensures
        row_part(data, i, cols, blk, start, stop) == row_part(data, i, cols, blk, start, mid)
            + row_part(data, i, cols, blk, mid, stop),
{
    assert(0 <= (i * cols + start) * blk <= (i * cols + mid) * blk <= (i * cols + stop) * blk)
        by (nonlinear_arith)
        requires
            0 <= start <= mid <= stop,
            0 <= blk,
            0 <= i,
            0 <= cols,
    ;
    assert(row_part(data, i, cols, blk, start, stop) =~= row_part(data, i, cols, blk, start, mid)
        + row_part(data, i, cols, blk, mid, stop));
}

/// One row's shares from ranks `0` to `r`, concatenated in rank order: what
/// concatenating shards along the sharded dimension holds of each row.
pub open spec fn rank_row_cat(
    data: Seq<u8>,
    i: int,
    cols: int,
    blk: int,
    b: int,
    r: int,
) -> Seq<u8>
    decreases r,
{
    if r <= 0 {
        Seq::empty()
    } else {
        rank_row_cat(data, i, cols, blk, b, r - 1) + row_part(
            data,
            i,
            cols,
            blk,
            (r - 1) * b,
            r * b,
        )
    }
}

/// Concatenating, in rank order, one row's share from every one of
/// `world_size` ranks reconstructs that row of the original buffer exactly.
/// Together with [`lemma_gather_row`], which cuts each share back out of
/// its shard, and [`lemma_gather_all`], which assembles the rows, this says
/// that concatenating all shards in rank order along the sharded dimension
/// reconstructs the original tensor.
pub proof fn lemma_shards_reconstruct_row(
    data: Seq<u8>,
    i: int,
    cols: int,
    blk: int,
    b: int,
    ws: int,
)
    requires
        0 <= i,
        0 <= b,
        0 <= blk,
        1 <= ws,
        cols == ws * b,
        (i * cols + cols) * blk <= data.len(),
    ensures
        rank_row_cat(data, i, cols, blk, b, ws) == row_part(data, i, cols, blk, 0, cols),
{
    lemma_rank_row_cat_inner(data, i, cols, blk, b, ws, ws);
    assert(ws * b == cols);
}

proof fn lemma_rank_row_cat_inner(
    data: Seq<u8>,
    i: int,
    cols: int,
    blk: int,
    b: int,
    ws: int,
    r: int,
)
    requires
        0 <= i,
        0 <= b,
        0 <= blk,
        1 <= ws,
        0 <= r <= ws,
        cols == ws * b,
        (i * cols + cols) * blk <= data.len(),
    ensures
        rank_row_cat(data, i, cols, blk, b, r) == row_part(data, i, cols, blk, 0, r * b),
    decreases r,
{
    assert(0 <= i * cols) by (nonlinear_arith)
        requires
            0 <= i,
            0 <= cols,
    ;
    assert(0 <= (i * cols) * blk <= (i * cols + cols) * blk) by (nonlinear_arith)
        requires
            0 <= i * cols,
            0 <= cols,
            0 <= blk,
    ;
    if r == 0 {
        assert(r * b == 0) by (nonlinear_arith)
            requires
                r == 0,
        ;
        assert((i * cols + 0) * blk == (i * cols) * blk);
        assert(row_part(data, i, cols, blk, 0, 0) =~= Seq::<u8>::empty());
    } else {
        lemma_rank_row_cat_inner(data, i, cols, blk, b, ws, r - 1);
        assert(0 <= (r - 1) * b <= r * b <= ws * b) by (nonlinear_arith)
            requires
                0 < r <= ws,
                0 <= b,
        ;
        assert((r - 1) * b + b == r * b) by (nonlinear_arith);
        assert((i * cols + r * b) * blk <= (i * cols + cols) * blk) by (nonlinear_arith)
            requires
                r * b <= cols,
                0 <= blk,
                0 <= i,
                0 <= cols,
        ;
        lemma_row_part_split(data, i, cols, blk, 0, (r - 1) * b, r * b);
    }
}

/// Concatenating all shards of a buffer sharded along dimension 0, in rank
/// order, reconstructs the buffer exactly: with one row, each rank's share
/// is one contiguous block range, and the ranges tile the buffer.
pub proof fn lemma_shards_reconstruct_dim0(data: Seq<u8>, cols: int, blk: int, b: int, ws: int)
    requires
        0 <= b,
        0 <= blk,
        1 <= ws,
        cols == ws * b,
        data.len() == cols * blk,
    ensures
        rank_row_cat(data, 0, cols, blk, b, ws) == data,
{
    assert((0 * cols + cols) * blk == cols * blk) by (nonlinear_arith);
    assert(0 <= cols) by (nonlinear_arith)
        requires
            1 <= ws,
            0 <= b,
            cols == ws * b,
    ;
    lemma_shards_reconstruct_row(data, 0, cols, blk, b, ws);
    assert((0 * cols + 0) * blk == 0) by (nonlinear_arith);
    assert(row_part(data, 0, cols, blk, 0, cols) =~= data);
}

/// Whole shard buffers of ranks `0` to `r`, concatenated in rank order.
/// For a shard along dimension 0 each summand is one full shard result.
pub open spec fn shards_cat(
    data: Seq<u8>,
    rows: int,
    cols: int,
    blk: int,
    b: int,
    r: int,
) -> Seq<u8>
    decreases r,
{
    if r <= 0 {
        Seq::empty()
    } else {
        shards_cat(data, rows, cols, blk, b, r - 1) + gather(
            data,
            rows,
            cols,
            blk,
            (r - 1) * b,
            r * b,
        )
    }
}

/// The reconstruction theorem along dimension 0: concatenating the whole
/// shard buffers of all `world_size` ranks, in rank order, gives back the
/// original buffer exactly. Each summand is the byte gather that a
/// dimension-0 sharded read returns.
pub proof fn lemma_shards_cat_dim0(data: Seq<u8>, cols: int, blk: int, b: int, ws: int)
    requires
        0 <= b,
        0 <= blk,
        1 <= ws,
        cols == ws * b,
        data.len() == cols * blk,
    ensures
        shards_cat(data, 1, cols, blk, b, ws) == data,
{
    lemma_shards_cat_one_row(data, cols, blk, b, ws, ws);
    lemma_shards_reconstruct_dim0(data, cols, blk, b, ws);
}

proof fn lemma_shards_cat_one_row(data: Seq<u8>, cols: int, blk: int, b: int, ws: int, r: int)
    requires
        0 <= r <= ws,
    ensures
        shards_cat(data, 1, cols, blk, b, r) == rank_row_cat(data, 0, cols, blk, b, r),
    decreases r,
{
    if r > 0 {
        lemma_shards_cat_one_row(data, cols, blk, b, ws, r - 1);
        assert(gather(data, 0, cols, blk, (r - 1) * b, r * b) == Seq::<u8>::empty());
        assert(gather(data, 1, cols, blk, (r - 1) * b, r * b) == Seq::<u8>::empty() + row_part(
            data,
            0,
            cols,
            blk,
            (r - 1) * b,
            r * b,
        ));
        assert(gather(data, 1, cols, blk, (r - 1) * b, r * b) =~= row_part(
            data,
            0,
            cols,
            blk,
            (r - 1) * b,
            r * b,
        ));
    }
}

/// Rows `0` to `r` of the dimension-1 reconstruction: each row is its
/// shares from every rank, in rank order; the rows follow in row order.
pub open spec fn rows_of_shards(
    data: Seq<u8>,
    cols: int,
    blk: int,
    b: int,
    ws: int,
    r: int,
) -> Seq<u8>
    decreases r,
{
    if r <= 0 {
        Seq::empty()
    } else {
        rows_of_shards(data, cols, blk, b, ws, r - 1) + rank_row_cat(
            data,
            r - 1,
            cols,
            blk,
            b,
            ws,
        )
    }
}

/// The reconstruction theorem along dimension 1: taking, row by row, each
/// row's share from every one of `world_size` ranks in rank order gives
/// back the original buffer exactly. Row `i`'s share of rank `r` is cut
/// out of that rank's shard buffer by [`lemma_gather_row`].
pub proof fn lemma_shards_cat_dim1(data: Seq<u8>, rows: int, cols: int, blk: int, b: int, ws: int)
    requires
        0 <= rows,
        0 <= b,
        0 <= blk,
        1 <= ws,
        cols == ws * b,
        data.len() == rows * cols * blk,
    ensures
        rows_of_shards(data, cols, blk, b, ws, rows) == data,
{
    lemma_rows_of_shards_inner(data, rows, rows, cols, blk, b, ws);
    assert(rows_of_shards(data, cols, blk, b, ws, rows) =~= data);
}

proof fn lemma_rows_of_shards_inner(
    data: Seq<u8>,
    r: int,
    rows: int,
    cols: int,
    blk: int,
    b: int,
    ws: int,
)
    requires
        0 <= r <= rows,
        0 <= b,
        0 <= blk,
        1 <= ws,
        cols == ws * b,
        data.len() == rows * cols * blk,
    ensures
        rows_of_shards(data, cols, blk, b, ws, r) == data.subrange(0, r * cols * blk),
    decreases r,
{
    assert(0 <= cols) by (nonlinear_arith)
        requires
            1 <= ws,
            0 <= b,
            cols == ws * b,
    ;
    if r <= 0 {
        assert(r * cols * blk == 0) by (nonlinear_arith)
            requires
                r == 0,
        ;
        assert(rows_of_shards(data, cols, blk, b, ws, r) =~= data.subrange(0, 0));
    } else {
        lemma_rows_of_shards_inner(data, r - 1, rows, cols, blk, b, ws);
        assert(0 <= (r - 1) * cols * blk <= r * cols * blk <= rows * cols * blk)
            by (nonlinear_arith)
            requires
                0 < r <= rows,
                0 <= cols,
                0 <= blk,
        ;
        assert(((r - 1) * cols + cols) * blk <= data.len()) by (nonlinear_arith)
            requires
                0 < r <= rows,
                0 <= cols,
                0 <= blk,
                data.len() == rows * cols * blk,
        ;
        lemma_shards_reconstruct_row(data, r - 1, cols, blk, b, ws);
        assert(((r - 1) * cols + 0) * blk == (r - 1) * cols * blk) by (nonlinear_arith);
        assert(((r - 1) * cols + cols) * blk == r * cols * blk) by (nonlinear_arith);
        assert(rows_of_shards(data, cols, blk, b, ws, r) =~= data.subrange(0, r * cols * blk));
    }
}

/// One row of a gather, cut back out of it: row `i` of the shard holds
/// blocks `[start, stop)` of row `i` of the buffer.
pub proof fn lemma_gather_row(
    data: Seq<u8>,
    rows: int,
    cols: int,
    blk: int,
    start: int,
    stop: int,
    i: int,
)
    requires
        0 <= start <= stop <= cols,
        0 <= blk,
        0 <= i < rows,
        data.len() == rows * cols * blk,
    ensures
        gather(data, rows, cols, blk, start, stop).subrange(
            i * (stop - start) * blk,
            (i + 1) * (stop - start) * blk,
        ) == row_part(data, i, cols, blk, start, stop),
{
    lemma_gather_row_inner(data, rows, rows, cols, blk, start, stop, i);
}

proof fn lemma_gather_row_inner(
    data: Seq<u8>,
    r: int,
    rows: int,
    cols: int,
    blk: int,
    start: int,
    stop: int,
    i: int,
)
    requires
        0 <= start <= stop <= cols,
        0 <= blk,
        0 <= i < r <= rows,
        data.len() == rows * cols * blk,
    ensures
        gather(data, r, cols, blk, start, stop).subrange(
            i * (stop - start) * blk,
            (i + 1) * (stop - start) * blk,
        ) == row_part(data, i, cols, blk, start, stop),
    decreases r,
{
    lemma_gather_len_inner(data, r, rows, cols, blk, start, stop);
    lemma_gather_len_inner(data, r - 1, rows, cols, blk, start, stop);
    assert(0 <= (i * cols + start) * blk <= (i * cols + stop) * blk <= data.len())
        by (nonlinear_arith)
        requires
            data.len() == rows * cols * blk,
            0 <= start <= stop <= cols,
            0 <= blk,
            0 <= i < rows,
    ;
    assert((i * cols + stop) * blk - (i * cols + start) * blk == (stop - start) * blk)
        by (nonlinear_arith);
    if i == r - 1 {
        assert(i * (stop - start) * blk + (stop - start) * blk == (i + 1) * (stop - start) * blk)
            by (nonlinear_arith);
        assert(gather(data, r, cols, blk, start, stop).subrange(
            i * (stop - start) * blk,
            (i + 1) * (stop - start) * blk,
        ) =~= row_part(data, i, cols, blk, start, stop));
    } else {
        lemma_gather_row_inner(data, r - 1, rows, cols, blk, start, stop, i);
        assert(0 <= i * (stop - start) * blk <= (i + 1) * (stop - start) * blk <= (r - 1) * (stop
            - start) * blk) by (nonlinear_arith)
            requires
                0 <= start <= stop,
                0 <= blk,
                0 <= i < r - 1,
        ;
        assert(gather(data, r, cols, blk, start, stop).subrange(
            i * (stop - start) * blk,
            (i + 1) * (stop - start) * blk,
        ) =~= gather(data, r - 1, cols, blk, start, stop).subrange(
            i * (stop - start) * blk,
            (i + 1) * (stop - start) * blk,
        ));
    }
}

} // verus!
