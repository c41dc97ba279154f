//! A whole pool file: what the loader makes of its bytes, piece by piece, is what
//! it makes of its lines.

use crate::reset_pool::{
    acceptable, after_chunk, after_line, after_lines, chunk_of, ends_line, fresh_loader,
    law_sample_is_of_the_file, law_small_pools_are_kept_whole, Chunk,
    LoaderView, RejectCounts, ResetState, MAX_LINE_BYTES, NEWLINE,
};
use crate::scalar::Scalar;
use vstd::prelude::*;

verus! {

/// How many bytes lie before the end of the first line, counted from `from`: up
/// to and with the newline, or up to the end of the file.
pub open spec fn line_len(bytes: Seq<u8>, from: int) -> int
    decreases bytes.len() - from,
{
    if from < 0 || from >= bytes.len() {
        bytes.len() as int
    } else if bytes[from] == NEWLINE {
        from + 1
    } else {
        line_len(bytes, from + 1)
    }
}

/// How many bytes the next piece has: those of the line, up to the greatest
/// length.
pub open spec fn piece_len(bytes: Seq<u8>) -> int {
    if line_len(bytes, 0) < MAX_LINE_BYTES {
        line_len(bytes, 0)
    } else {
        MAX_LINE_BYTES as int
    }
}

proof fn lemma_line_len(bytes: Seq<u8>, from: int)
    requires
        0 <= from < bytes.len(),
    ensures
        from < line_len(bytes, from) <= bytes.len(),
        forall|i: int| from <= i < line_len(bytes, from) - 1 ==> #[trigger] bytes[i] != NEWLINE,
        bytes[line_len(bytes, from) - 1] == NEWLINE || line_len(bytes, from) == bytes.len(),
    decreases bytes.len() - from,
{
    reveal_with_fuel(line_len, 2);
    if bytes[from] != NEWLINE && from + 1 < bytes.len() {
        lemma_line_len(bytes, from + 1);
    }
}

/// A line found by what it ends with is the first line.
proof fn lemma_line_len_unique(bytes: Seq<u8>, from: int, k: int)
    requires
        0 <= from < k <= bytes.len(),
        forall|i: int| from <= i < k - 1 ==> #[trigger] bytes[i] != NEWLINE,
        bytes[k - 1] == NEWLINE || k == bytes.len(),
    ensures
        line_len(bytes, from) == k,
    decreases k - from,
{
    if from < k - 1 {
        assert(bytes[from] != NEWLINE);
        lemma_line_len_unique(bytes, from + 1, k);
    } else if bytes[from] != NEWLINE {
        assert(line_len(bytes, from + 1) == bytes.len());
    }
}

/// The lines of a file, each with its newline.
pub open spec fn lines_of(bytes: Seq<u8>) -> Seq<Seq<u8>>
    decreases bytes.len(),
    via lines_shrink
{
    if bytes.len() == 0 {
        Seq::empty()
    } else {
        seq![bytes.take(line_len(bytes, 0))] + lines_of(bytes.skip(line_len(bytes, 0)))
    }
}

/// A line is too long: the first piece of it does not end it.
pub open spec fn too_long(line: Seq<u8>) -> bool {
    line.len() > MAX_LINE_BYTES || (line.len() == MAX_LINE_BYTES && !ends_line(line))
}

/// What a line is taken for: what it parses to, nothing where it is too long.
pub open spec fn taken_for<F>(
    line: Seq<u8>,
    parse: spec_fn(Seq<u8>) -> Option<ResetState<F>>,
) -> Option<ResetState<F>> {
    if too_long(line) {
        None
    } else {
        parse(line)
    }
}

/// What the lines of a file are taken for, in order.
pub open spec fn file_states<F>(
    bytes: Seq<u8>,
    parse: spec_fn(Seq<u8>) -> Option<ResetState<F>>,
) -> Seq<Option<ResetState<F>>> {
    lines_of(bytes).map_values(|line: Seq<u8>| taken_for(line, parse))
}

/// The loader after one piece, parsed where it asks for that.
pub open spec fn after_piece<F: Scalar, S: Fn(F) -> F>(
    l: LoaderView<F>,
    raw: Seq<u8>,
    parse: spec_fn(Seq<u8>) -> Option<ResetState<F>>,
    sqrt: S,
) -> LoaderView<F> {
    if chunk_of(l, raw) == Chunk::Parse {
        after_line(after_chunk(l, raw), parse(raw), sqrt)
    } else {
        after_chunk(l, raw)
    }
}

/// The loader after all pieces of a file.
pub open spec fn after_file<F: Scalar, S: Fn(F) -> F>(
    l: LoaderView<F>,
    bytes: Seq<u8>,
    parse: spec_fn(Seq<u8>) -> Option<ResetState<F>>,
    sqrt: S,
) -> LoaderView<F>
    decreases bytes.len(),
    via pieces_shrink::<F, S>
{
    if bytes.len() == 0 {
        l
    } else {
        let k = piece_len(bytes);
        after_file(after_piece(l, bytes.take(k), parse, sqrt), bytes.skip(k), parse, sqrt)
    }
}

#[via_fn]
proof fn lines_shrink(bytes: Seq<u8>) {
    if bytes.len() > 0 {
        lemma_line_len(bytes, 0);
    }
}

#[via_fn]
proof fn pieces_shrink<F: Scalar, S: Fn(F) -> F>(
    l: LoaderView<F>,
    bytes: Seq<u8>,
    parse: spec_fn(Seq<u8>) -> Option<ResetState<F>>,
    sqrt: S,
) {
    if bytes.len() > 0 {
        lemma_line_len(bytes, 0);
    }
}

/// The rest of a line that is too long is passed over.
proof fn lemma_skips_line<F: Scalar, S: Fn(F) -> F>(
    l: LoaderView<F>,
    bytes: Seq<u8>,
    parse: spec_fn(Seq<u8>) -> Option<ResetState<F>>,
    sqrt: S,
)
    requires
        l.skipping,
        bytes.len() > 0,
    ensures
        ({
            let k = line_len(bytes, 0);
            let on = LoaderView { skipping: !ends_line(bytes.take(k)), ..l };
            after_file(l, bytes, parse, sqrt) == after_file(on, bytes.skip(k), parse, sqrt)
        }),
    decreases bytes.len(),
{
    let k = line_len(bytes, 0);
    lemma_line_len(bytes, 0);
    if k > MAX_LINE_BYTES {
        let p = MAX_LINE_BYTES as int;
        let piece = bytes.take(p);
        let rest = bytes.skip(p);
        assert(piece.last() == bytes[p - 1]);
        assert(after_piece(l, piece, parse, sqrt) == l);
        assert forall|i: int| 0 <= i < k - p - 1 implies #[trigger] rest[i] != NEWLINE by {
            assert(rest[i] == bytes[p + i]);
        }
        assert(rest[k - p - 1] == bytes[k - 1]);
        lemma_line_len_unique(rest, 0, k - p);
        lemma_skips_line(l, rest, parse, sqrt);
        assert(rest.skip(k - p) =~= bytes.skip(k));
        assert(rest.take(k - p).last() == bytes.take(k).last());
    }
}

/// The loader after one line: it is counted, and judged by what it is taken for.
pub open spec fn after_one<F: Scalar, S: Fn(F) -> F>(
    l: LoaderView<F>,
    st: Option<ResetState<F>>,
    sqrt: S,
) -> LoaderView<F> {
    let read = RejectCounts { read: (l.counts.read + 1) as usize, ..l.counts };
    after_line(LoaderView { counts: read, ..l }, st, sqrt)
}

/// The loader takes a line for what it parses to, or passes over it where it is
/// too long.
proof fn lemma_takes_line<F: Scalar, S: Fn(F) -> F>(
    l: LoaderView<F>,
    bytes: Seq<u8>,
    parse: spec_fn(Seq<u8>) -> Option<ResetState<F>>,
    sqrt: S,
)
    requires
        !l.skipping,
        bytes.len() > 0,
    ensures
        ({
            let k = line_len(bytes, 0);
            let line = bytes.take(k);
            let next = after_one(l, taken_for(line, parse), sqrt);
            let on = LoaderView { skipping: too_long(line) && !ends_line(line), ..next };
            after_file(l, bytes, parse, sqrt) == after_file(on, bytes.skip(k), parse, sqrt)
        }),
{
    let k = line_len(bytes, 0);
    lemma_line_len(bytes, 0);
    let line = bytes.take(k);
    let next = after_one(l, taken_for(line, parse), sqrt);
    let on = LoaderView { skipping: too_long(line) && !ends_line(line), ..next };
    assert(!next.skipping);
    if k > MAX_LINE_BYTES {
        let p = MAX_LINE_BYTES as int;
        let piece = bytes.take(p);
        let rest = bytes.skip(p);
        assert(piece.last() == bytes[p - 1]);
        let inside = LoaderView { skipping: true, ..next };
        assert(after_piece(l, piece, parse, sqrt) == inside);
        assert forall|i: int| 0 <= i < k - p - 1 implies #[trigger] rest[i] != NEWLINE by {
            assert(rest[i] == bytes[p + i]);
        }
        assert(rest[k - p - 1] == bytes[k - 1]);
        lemma_line_len_unique(rest, 0, k - p);
        lemma_skips_line(inside, rest, parse, sqrt);
        assert(rest.skip(k - p) =~= bytes.skip(k));
        assert(rest.take(k - p).last() == line.last());
    } else {
        assert(after_piece(l, line, parse, sqrt) == on);
    }
}

/// Lines may be taken from the front.
proof fn lemma_lines_from_front<F: Scalar, S: Fn(F) -> F>(
    l: LoaderView<F>,
    st: Option<ResetState<F>>,
    lines: Seq<Option<ResetState<F>>>,
    sqrt: S,
)
    ensures
        after_lines(l, seq![st] + lines, sqrt) == after_lines(after_one(l, st, sqrt), lines, sqrt),
    decreases lines.len(),
{
    let all = seq![st] + lines;
    if lines.len() == 0 {
        assert(all.drop_last() =~= Seq::empty());
        assert(after_lines(l, all.drop_last(), sqrt) == l);
    } else {
        assert(all.drop_last() =~= seq![st] + lines.drop_last());
        lemma_lines_from_front(l, st, lines.drop_last(), sqrt);
    }
}

/// Reading a file piece by piece comes to the same as judging its lines one after
/// the other, where a line that is too long is taken for nothing: the same states
/// are kept, and the counts are the same.
pub proof fn law_pieces_are_lines<F: Scalar, S: Fn(F) -> F>(
    l: LoaderView<F>,
    bytes: Seq<u8>,
    parse: spec_fn(Seq<u8>) -> Option<ResetState<F>>,
    sqrt: S,
)
    requires
        !l.skipping,
    ensures
        (LoaderView { skipping: false, ..after_file(l, bytes, parse, sqrt) }) == after_lines(
            l,
            file_states(bytes, parse),
            sqrt,
        ),
    decreases bytes.len(),
{
    let states = file_states(bytes, parse);
    if bytes.len() == 0 {
        assert(states =~= Seq::empty());
    } else {
        let k = line_len(bytes, 0);
        lemma_line_len(bytes, 0);
        lemma_takes_line(l, bytes, parse, sqrt);
        let line = bytes.take(k);
        let rest = bytes.skip(k);
        let st = taken_for(line, parse);
        let next = after_one(l, st, sqrt);
        assert(states =~= seq![st] + file_states(rest, parse));
        lemma_lines_from_front(l, st, file_states(rest, parse), sqrt);
        assert(!next.skipping);
        assert(line.last() == bytes[k - 1]);
        if ends_line(line) {
            law_pieces_are_lines(next, rest, parse, sqrt);
        } else {
            assert(rest.len() == 0);
            assert(file_states(rest, parse) =~= Seq::empty());
        }
    }
}

/// How many lines of a file are counted, and to what end each came.
proof fn lemma_lines_counted<F: Scalar, S: Fn(F) -> F>(
    max_states: usize,
    lines: Seq<Option<ResetState<F>>>,
    sqrt: S,
)
    requires
        lines.len() < usize::MAX,
    ensures
        ({
            let l = after_lines(fresh_loader::<F>(max_states), lines, sqrt);
            &&& l.counts.read == lines.len()
            &&& l.balanced()
        }),
    decreases lines.len(),
{
    if lines.len() > 0 {
        lemma_lines_counted(max_states, lines.drop_last(), sqrt);
    }
}

/// A pool file as a whole. Every line is counted, and came to exactly one end: it
/// was accepted, dropped for a reason, or malformed. The kept states are lines of
/// the file that were accepted, as many as there are up to the limit, and all of
/// them in the order of the file where they fit.
pub proof fn law_pool_is_made_of_the_file<F: Scalar, S: Fn(F) -> F>(
    max_states: usize,
    bytes: Seq<u8>,
    parse: spec_fn(Seq<u8>) -> Option<ResetState<F>>,
    sqrt: S,
)
    requires
        lines_of(bytes).len() < usize::MAX,
    ensures
        ({
            let l = after_file(fresh_loader::<F>(max_states), bytes, parse, sqrt);
            let good = acceptable(file_states(bytes, parse), sqrt);
            &&& l.counts.read == lines_of(bytes).len()
            &&& l.counts.read == good.len() + l.counts.malformed + l.counts.dropped()
            &&& l.kept.len() == if max_states == 0 || good.len() < max_states {
                good.len()
            } else {
                max_states as nat
            }
            &&& forall|i: int| 0 <= i < l.kept.len() ==> good.contains(#[trigger] l.kept[i])
            &&& max_states == 0 || good.len() <= max_states ==> l.kept == good
        }),
{
    let states = file_states(bytes, parse);
    law_pieces_are_lines(fresh_loader::<F>(max_states), bytes, parse, sqrt);
    lemma_lines_counted(max_states, states, sqrt);
    law_sample_is_of_the_file(max_states, states, sqrt);
    if max_states == 0 || acceptable(states, sqrt).len() <= max_states {
        law_small_pools_are_kept_whole(max_states, states, sqrt);
    }
}

} // verus!
