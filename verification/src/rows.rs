//! Row-major buffers: copying, gathering and scattering whole rows.

use vstd::arithmetic::mul::{lemma_mul_inequality, lemma_mul_is_distributive_add_other_way};
use vstd::prelude::*;

verus! {

/// `base` with the elements from `at` on replaced by `block`.
pub open spec fn spliced<T>(base: Seq<T>, at: int, block: Seq<T>) -> Seq<T> {
    Seq::new(
        base.len(),
        |i: int| if at <= i < at + block.len() { block[i - at] } else { base[i] },
    )
}

/// Row `r` of a buffer whose rows are `width` wide.
pub open spec fn row<T>(buf: Seq<T>, r: int, width: int) -> Seq<T> {
    buf.subrange(r * width, (r + 1) * width)
}

/// `n` rows of a buffer, from row `r` on.
pub open spec fn row_block<T>(buf: Seq<T>, r: int, n: int, width: int) -> Seq<T> {
    buf.subrange(r * width, (r + n) * width)
}

/// `buf` holds exactly `n` rows.
pub open spec fn has_rows<T>(buf: Seq<T>, n: int, width: int) -> bool {
    buf.len() == n * width
}

/// The rows `idx[0], idx[1], ..` of `src`, one after the other.
pub open spec fn gathered<T>(src: Seq<T>, idx: Seq<usize>, width: int) -> Seq<T>
    decreases idx.len(),
{
    if idx.len() == 0 {
        Seq::empty()
    } else {
        gathered(src, idx.drop_last(), width) + row(src, idx.last() as int, width)
    }
}

/// `dst` after row `j` of `src` was written to row `idx[j]`, for each `j` in turn.
pub open spec fn scattered<T>(dst: Seq<T>, idx: Seq<usize>, src: Seq<T>, width: int) -> Seq<T>
    decreases idx.len(),
{
    if idx.len() == 0 {
        dst
    } else {
        spliced(
            scattered(dst, idx.drop_last(), src, width),
            idx.last() * width,
            row(src, idx.len() - 1, width),
        )
    }
}

/// Every index names one of `n` rows.
pub open spec fn rows_within(idx: Seq<usize>, n: int) -> bool {
    forall|j: int| 0 <= j < idx.len() ==> #[trigger] idx[j] < n
}

/// A row that exists lies inside the buffer.
pub proof fn lemma_row_bounds(r: int, n: int, width: int)
    requires
        0 <= r < n,
        0 <= width,
    ensures
        0 <= r * width,
        r * width + width == (r + 1) * width,
        (r + 1) * width <= n * width,
{
    lemma_mul_is_distributive_add_other_way(width, r, 1);
    lemma_mul_inequality(r + 1, n, width);
    lemma_mul_inequality(0, r, width);
}

/// Copies `src[from .. from + len)` over `dst[at .. at + len)`.
pub fn splice<T: Copy>(dst: &mut Vec<T>, at: usize, src: &Vec<T>, from: usize, len: usize)
    requires
        at + len <= old(dst)@.len(),
        from + len <= src@.len(),
    ensures
        final(dst)@ == spliced(
            old(dst)@,
            at as int,
            src@.subrange(from as int, from + len),
        ),
{
    let ghost start = dst@;
    let mut i: usize = 0;
    while i < len
        invariant
            i <= len,
            at + len <= dst.len(),
            from + len <= src.len(),
            dst@.len() == start.len(),
            dst@ =~= spliced(start, at as int, src@.subrange(from as int, from + i)),
        decreases len - i,
    {
        dst[at + i] = src[from + i];
        i = i + 1;
    }
}

/// The rows `idx[0], idx[1], ..` of `src` as one batch.
pub fn gather<T: Copy>(src: &Vec<T>, idx: &Vec<usize>, width: usize) -> (r: Vec<T>)
    requires
        exists|n: int| #[trigger] has_rows(src@, n, width as int) && rows_within(idx@, n),
    ensures
        r@ == gathered(src@, idx@, width as int),
        r@.len() == idx@.len() * width,
{
    let ghost n = choose|n: int|
        #[trigger] has_rows(src@, n, width as int) && rows_within(idx@, n);
    let mut out: Vec<T> = Vec::new();
    let mut j: usize = 0;
    assert(idx@.subrange(0, 0) =~= Seq::empty());
    while j < idx.len()
        invariant
            j <= idx.len(),
            has_rows(src@, n, width as int),
            rows_within(idx@, n),
            out@ == gathered(src@, idx@.subrange(0, j as int), width as int),
            out@.len() == j * width,
        decreases idx.len() - j,
    {
        let a: usize = idx[j];
        proof {
            assert(idx@[j as int] < n);
            lemma_row_bounds(a as int, n, width as int);
            assert(src.len() == n * width);
        }
        let start: usize = a * width;
        let ghost done = out@;
        let mut c: usize = 0;
        while c < width
            invariant
                c <= width,
                start == a * width,
                start + width <= src.len(),
                out@ =~= done + src@.subrange(start as int, start + c),
            decreases width - c,
        {
            out.push(src[start + c]);
            c = c + 1;
        }
        proof {
            let before = idx@.subrange(0, j as int);
            let after = idx@.subrange(0, j + 1);
            assert(after.drop_last() =~= before);
            assert(after.last() == a);
            assert(out@ =~= done + row(src@, a as int, width as int));
            lemma_mul_is_distributive_add_other_way(width as int, j as int, 1);
        }
        j = j + 1;
    }
    assert(idx@.subrange(0, j as int) =~= idx@);
    out
}

/// Scattering keeps the length of the buffer.
pub proof fn lemma_scattered_len<T>(dst: Seq<T>, idx: Seq<usize>, src: Seq<T>, width: int)
    ensures
        scattered(dst, idx, src, width).len() == dst.len(),
    decreases idx.len(),
{
    if idx.len() > 0 {
        lemma_scattered_len(dst, idx.drop_last(), src, width);
    }
}

/// Writes row `j` of `src` to row `idx[j]` of `dst`, for every `j` in turn.
pub fn scatter<T: Copy>(dst: &mut Vec<T>, idx: &Vec<usize>, src: &Vec<T>, width: usize)
    requires
        exists|n: int| #[trigger] has_rows(old(dst)@, n, width as int) && rows_within(idx@, n),
        has_rows(src@, idx@.len() as int, width as int),
    ensures
        final(dst)@ == scattered(old(dst)@, idx@, src@, width as int),
{
    let ghost n = choose|n: int|
        #[trigger] has_rows(dst@, n, width as int) && rows_within(idx@, n);
    let ghost start = dst@;
    let mut j: usize = 0;
    assert(idx@.subrange(0, 0) =~= Seq::empty());
    while j < idx.len()
        invariant
            j <= idx.len(),
            has_rows(start, n, width as int),
            rows_within(idx@, n),
            has_rows(src@, idx@.len() as int, width as int),
            dst@ == scattered(start, idx@.subrange(0, j as int), src@, width as int),
            dst@.len() == start.len(),
        decreases idx.len() - j,
    {
        let a: usize = idx[j];
        proof {
            assert(idx@[j as int] < n);
            lemma_row_bounds(a as int, n, width as int);
            lemma_row_bounds(j as int, idx@.len() as int, width as int);
            assert(dst.len() == n * width);
            assert(src.len() == idx@.len() * width);
        }
        splice(dst, a * width, src, j * width, width);
        proof {
            let after = idx@.subrange(0, j + 1);
            assert(after.drop_last() =~= idx@.subrange(0, j as int));
            assert(after.last() == a);
        }
        j = j + 1;
    }
    assert(idx@.subrange(0, j as int) =~= idx@);
}

/// Row `j` of a gathered batch is row `idx[j]` of the source.
pub proof fn lemma_gathered_row<T>(src: Seq<T>, idx: Seq<usize>, width: int, n: int, j: int)
    requires
        0 <= width,
        has_rows(src, n, width),
        rows_within(idx, n),
        0 <= j < idx.len(),
    ensures
        gathered(src, idx, width).len() == idx.len() * width,
        row(gathered(src, idx, width), j, width) == row(src, idx[j] as int, width),
    decreases idx.len(),
{
    lemma_gathered_len(src, idx, width, n);
    let last = idx.len() - 1;
    let head = idx.drop_last();
    lemma_gathered_len(src, head, width, n);
    lemma_row_bounds(j, idx.len() as int, width);
    assert(idx[last] < n);
    lemma_row_bounds(idx[last] as int, n, width);
    if j < last {
        lemma_gathered_row(src, head, width, n, j);
        lemma_row_bounds(j, last, width);
        assert(row(gathered(src, idx, width), j, width) =~= row(
            gathered(src, head, width),
            j,
            width,
        ));
        assert(head[j] == idx[j]);
    } else {
        assert(row(gathered(src, idx, width), j, width) =~= row(src, idx[j] as int, width));
    }
}

/// A gathered batch has one row per index.
pub proof fn lemma_gathered_len<T>(src: Seq<T>, idx: Seq<usize>, width: int, n: int)
    requires
        0 <= width,
        has_rows(src, n, width),
        rows_within(idx, n),
    ensures
        gathered(src, idx, width).len() == idx.len() * width,
    decreases idx.len(),
{
    if idx.len() > 0 {
        let head = idx.drop_last();
        assert forall|j: int| 0 <= j < head.len() implies #[trigger] head[j] < n by {
            assert(head[j] == idx[j]);
        }
        lemma_gathered_len(src, head, width, n);
        assert(idx[idx.len() - 1] < n);
        lemma_row_bounds(idx.last() as int, n, width);
        lemma_mul_is_distributive_add_other_way(width, idx.len() - 1, 1);
    }
}

/// Where no two indices agree, row `idx[j]` of a scattered buffer is row `j` of
/// the source, and the rows that are not named keep their contents.
pub proof fn lemma_scattered_rows<T>(
    dst: Seq<T>,
    idx: Seq<usize>,
    src: Seq<T>,
    width: int,
    n: int,
)
    requires
        0 <= width,
        has_rows(dst, n, width),
        has_rows(src, idx.len() as int, width),
        rows_within(idx, n),
        idx.no_duplicates(),
    ensures
        forall|j: int|
            0 <= j < idx.len() ==> row(
                scattered(dst, idx, src, width),
                #[trigger] idx[j] as int,
                width,
            ) == row(src, j, width),
        forall|a: usize|
            a < n && !idx.contains(a) ==> #[trigger] row(
                scattered(dst, idx, src, width),
                a as int,
                width,
            ) == row(dst, a as int, width),
    decreases idx.len(),
{
    lemma_scattered_len(dst, idx, src, width);
    if idx.len() > 0 {
        let head = idx.drop_last();
        let last = idx.len() - 1;
        let short = src.subrange(0, last * width);
        assert forall|j: int| 0 <= j < head.len() implies #[trigger] head[j] < n by {
            assert(head[j] == idx[j]);
        }
        lemma_row_bounds(last, idx.len() as int, width);
        lemma_scattered_prefix(dst, head, src, short, width);
        lemma_scattered_rows(dst, head, short, width, n);
        lemma_scattered_len(dst, head, src, width);
        let before = scattered(dst, head, src, width);
        let after = scattered(dst, idx, src, width);
        assert(idx[last] < n);
        lemma_row_bounds(idx[last] as int, n, width);
        assert(row(after, idx[last] as int, width) =~= row(src, last, width));
        assert forall|a: usize| a < n && a != idx[last] implies #[trigger] row(
            after,
            a as int,
            width,
        ) == row(before, a as int, width) by {
            lemma_row_bounds(a as int, n, width);
            if a < idx[last] {
                lemma_mul_inequality(a + 1, idx[last] as int, width);
            } else {
                lemma_mul_inequality(idx[last] + 1, a as int, width);
            }
            assert(row(after, a as int, width) =~= row(before, a as int, width));
        }
        assert forall|j: int| 0 <= j < idx.len() implies row(
            after,
            #[trigger] idx[j] as int,
            width,
        ) == row(src, j, width) by {
            if j < last {
                assert(head[j] == idx[j]);
                lemma_row_bounds(j, last, width);
                assert(row(short, j, width) =~= row(src, j, width));
            }
        }
        assert forall|a: usize| a < n && !idx.contains(a) implies #[trigger] row(
            after,
            a as int,
            width,
        ) == row(dst, a as int, width) by {
            assert(idx[last] != a);
            assert(!head.contains(a)) by {
                if head.contains(a) {
                    let j = choose|j: int| 0 <= j < head.len() && head[j] == a;
                    assert(idx[j] == a);
                }
            }
        }
    }
}

/// Scattering reads no more of the source than there are indices.
proof fn lemma_scattered_prefix<T>(
    dst: Seq<T>,
    idx: Seq<usize>,
    src: Seq<T>,
    short: Seq<T>,
    width: int,
)
    requires
        0 <= width,
        src.len() >= idx.len() * width,
        short == src.subrange(0, idx.len() * width),
    ensures
        scattered(dst, idx, src, width) == scattered(dst, idx, short, width),
    decreases idx.len(),
{
    if idx.len() > 0 {
        let last = idx.len() - 1;
        lemma_row_bounds(last, idx.len() as int, width);
        let shorter = src.subrange(0, last * width);
        lemma_scattered_prefix(dst, idx.drop_last(), src, shorter, width);
        assert(shorter =~= short.subrange(0, last * width));
        lemma_scattered_prefix(dst, idx.drop_last(), short, shorter, width);
        assert(row(src, last, width) =~= row(short, last, width));
    }
}

/// `n` copies of `v`.
pub open spec fn repeated<T>(v: T, n: int) -> Seq<T> {
    Seq::new(n as nat, |i: int| v)
}

/// A buffer of `n` copies of `v`.
pub fn filled<T: Copy>(v: T, n: usize) -> (r: Vec<T>)
    ensures
        r@ == repeated(v, n as int),
{
    let mut out: Vec<T> = Vec::new();
    let mut i: usize = 0;
    while i < n
        invariant
            i <= n,
            out@ =~= repeated(v, i as int),
        decreases n - i,
    {
        out.push(v);
        i = i + 1;
    }
    out
}

/// Records the rows `idx` of `src` as step `t` of a buffer with one row per
/// index in every step.
pub fn record_rows<T: Copy>(
    buf: &mut Vec<T>,
    t: usize,
    steps: usize,
    idx: &Vec<usize>,
    src: &Vec<T>,
    width: usize,
)
    requires
        t < steps,
        has_rows(old(buf)@, steps * idx@.len(), width as int),
        steps * idx@.len() <= usize::MAX,
        exists|n: int| #[trigger] has_rows(src@, n, width as int) && rows_within(idx@, n),
    ensures
        final(buf)@ == spliced(
            old(buf)@,
            t * idx@.len() * width,
            gathered(src@, idx@, width as int),
        ),
{
    let batch: Vec<T> = gather(src, idx, width);
    let n: usize = idx.len();
    proof {
        lemma_row_bounds(t as int, steps as int, n as int);
        lemma_mul_inequality(t * n + n, steps * n, width as int);
        lemma_mul_inequality(0, t * n, width as int);
        lemma_mul_is_distributive_add_other_way(width as int, t * n, n as int);
        assert(buf.len() == steps * n * width);
        assert(batch@.subrange(0, n * width) =~= batch@);
    }
    let len: usize = batch.len();
    splice(buf, t * n * width, &batch, 0, len);
}

/// One step of several buffers set side by side: worker by worker the rows of
/// step `t`, where worker `w` has `ns[w]` rows per step.
pub open spec fn step_side_by_side<T>(
    parts: Seq<Seq<T>>,
    ns: Seq<usize>,
    t: int,
    k: int,
    w: int,
) -> Seq<T>
    decreases w,
{
    if w <= 0 {
        Seq::empty()
    } else {
        step_side_by_side(parts, ns, t, k, w - 1) + row_block(
            parts[w - 1],
            t * ns[w - 1],
            ns[w - 1] as int,
            k,
        )
    }
}

/// The first `steps` steps of several buffers set side by side.
pub open spec fn side_by_side<T>(
    parts: Seq<Seq<T>>,
    ns: Seq<usize>,
    steps: int,
    k: int,
) -> Seq<T>
    decreases steps,
{
    if steps <= 0 {
        Seq::empty()
    } else {
        side_by_side(parts, ns, steps - 1, k) + step_side_by_side(
            parts,
            ns,
            steps - 1,
            k,
            parts.len() as int,
        )
    }
}

/// Appends `src[from .. from + len)`.
pub fn append_range<T: Copy>(dst: &mut Vec<T>, src: &Vec<T>, from: usize, len: usize)
    requires
        from + len <= src@.len(),
    ensures
        final(dst)@ == old(dst)@ + src@.subrange(from as int, from + len),
{
    let ghost start = dst@;
    let mut i: usize = 0;
    while i < len
        invariant
            i <= len,
            from + len <= src.len(),
            dst@ =~= start + src@.subrange(from as int, from + i),
        decreases len - i,
    {
        dst.push(src[from + i]);
        i = i + 1;
    }
}

} // verus!
