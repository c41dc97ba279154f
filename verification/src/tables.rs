//! What holds of the action tables as lists.

use crate::actions::{
    aerial_distinct, aerial_handbrake, aerial_kept, aerial_row, aerial_rows, base_table,
    clean_jump_rows, digit, ground_kept, ground_row, ground_rows, immortal_table, lemma_table_sizes,
    sign_digit, stall_rows, v1_air_table, v1_table, wide_rows, AERIAL_COMBOS, GROUND_COMBOS, TABLE_SIZE,
    TABLE_SIZE_IMMORTAL, TABLE_SIZE_V1,
};
use vstd::prelude::*;

verus! {

/// The ground combination that a row stands for.
pub open spec fn ground_code(row: Seq<int>) -> int {
    (row[0] + 1) * 12 + (row[1] + 1) * 4 + row[6] * 2 + row[7]
}

/// The aerial combination that a row stands for: the place of pitch, yaw, roll,
/// jump and boost in lexicographic order.
pub open spec fn aerial_code(row: Seq<int>) -> int {
    (row[2] + 1) * 36 + (row[3] + 1) * 12 + (row[4] + 1) * 4 + row[5] * 2 + row[6]
}

/// The row neither rotates the car in the air nor jumps.
pub open spec fn stays_down(row: Seq<int>) -> bool {
    row[2] == 0 && row[4] == 0 && row[5] == 0
}

/// No two rows are the same.
pub open spec fn all_distinct(table: Seq<Seq<int>>) -> bool {
    forall|i: int, j: int| 0 <= i < j < table.len() ==> #[trigger] table[i] != #[trigger] table[j]
}

/// Rows whose codes ascend and stay below `n`.
pub open spec fn codes_ascend(rows: Seq<Seq<int>>, code: spec_fn(Seq<int>) -> int, n: int) -> bool {
    &&& forall|i: int| 0 <= i < rows.len() ==> code(#[trigger] rows[i]) < n
    &&& forall|i: int, j: int|
        0 <= i < j < rows.len() ==> code(#[trigger] rows[i]) < code(#[trigger] rows[j])
}

proof fn lemma_ground_decodes(n: int)
    requires
        0 <= n < GROUND_COMBOS,
        ground_kept(n),
    ensures
        ground_code(ground_row(n)) == n,
        stays_down(ground_row(n)),
{
}

proof fn lemma_aerial_decodes(n: int, handbrake: int)
    requires
        0 <= n < AERIAL_COMBOS,
    ensures
        aerial_code(aerial_row(n, handbrake)) == n,
        stays_down(aerial_row(n, handbrake)) == !aerial_distinct(n),
{
}

proof fn lemma_ground_codes(n: int)
    requires
        0 <= n <= GROUND_COMBOS,
    ensures
        codes_ascend(ground_rows(n), |r: Seq<int>| ground_code(r), n),
        forall|i: int| 0 <= i < ground_rows(n).len() ==> stays_down(#[trigger] ground_rows(n)[i]),
    decreases n,
{
    if n > 0 {
        lemma_ground_codes(n - 1);
        if ground_kept(n - 1) {
            lemma_ground_decodes(n - 1);
        }
    }
}

proof fn lemma_aerial_codes(n: int)
    requires
        0 <= n <= AERIAL_COMBOS,
    ensures
        codes_ascend(aerial_rows(n), |r: Seq<int>| aerial_code(r), n),
        forall|i: int| 0 <= i < aerial_rows(n).len() ==> !stays_down(#[trigger] aerial_rows(n)[i]),
    decreases n,
{
    if n > 0 {
        lemma_aerial_codes(n - 1);
        lemma_aerial_decodes(n - 1, aerial_handbrake(n - 1));
    }
}

proof fn lemma_wide_codes(n: int)
    requires
        0 <= n <= AERIAL_COMBOS,
    ensures
        codes_ascend(wide_rows(n), |r: Seq<int>| aerial_code(r), n),
        forall|i: int| 0 <= i < wide_rows(n).len() ==> !stays_down(#[trigger] wide_rows(n)[i]),
        forall|i: int| 0 <= i < wide_rows(n).len() ==> (#[trigger] wide_rows(n)[i])[7] == 1,
    decreases n,
{
    if n > 0 {
        lemma_wide_codes(n - 1);
        lemma_aerial_decodes(n - 1, 1);
    }
}

proof fn lemma_distinct(ground: Seq<Seq<int>>, air: Seq<Seq<int>>)
    requires
        codes_ascend(ground, |r: Seq<int>| ground_code(r), GROUND_COMBOS as int),
        codes_ascend(air, |r: Seq<int>| aerial_code(r), AERIAL_COMBOS as int),
        forall|i: int| 0 <= i < ground.len() ==> stays_down(#[trigger] ground[i]),
        forall|i: int| 0 <= i < air.len() ==> !stays_down(#[trigger] air[i]),
    ensures
        all_distinct(ground + air),
{
    let table = ground + air;
    let g = |r: Seq<int>| ground_code(r);
    let a = |r: Seq<int>| aerial_code(r);
    let n = ground.len() as int;
    assert forall|i: int, j: int| 0 <= i < j < table.len() implies #[trigger] table[i]
        != #[trigger] table[j] by {
        if j < n {
            assert(g(ground[i]) < g(ground[j]));
        } else if i >= n {
            assert(a(air[i - n]) < a(air[j - n]));
        } else {
            assert(stays_down(ground[i]) && !stays_down(air[j - n]));
        }
    }
}

/// No row of the base table or of the wide table occurs twice.
pub proof fn law_rows_are_distinct()
    ensures
        base_table().len() == TABLE_SIZE,
        all_distinct(base_table()),
        immortal_table().len() == TABLE_SIZE_IMMORTAL,
        all_distinct(immortal_table()),
{
    lemma_table_sizes();
    lemma_ground_codes(GROUND_COMBOS as int);
    lemma_aerial_codes(AERIAL_COMBOS as int);
    lemma_wide_codes(AERIAL_COMBOS as int);
    lemma_distinct(ground_rows(GROUND_COMBOS as int), aerial_rows(AERIAL_COMBOS as int));
    lemma_distinct(ground_rows(GROUND_COMBOS as int), wide_rows(AERIAL_COMBOS as int));
}

/// The wide table begins with the ground rows of the base table. Its other rows
/// all have the handbrake, rotate the car or jump, and come in lexicographic order
/// of pitch, yaw, roll, jump and boost.
pub proof fn law_wide_rows_have_the_handbrake(i: int)
    requires
        24 <= i < immortal_table().len(),
    ensures
        immortal_table().take(24) == base_table().take(24),
        immortal_table()[i][7] == 1,
        !stays_down(immortal_table()[i]),
        i > 24 ==> aerial_code(immortal_table()[i - 1]) < aerial_code(immortal_table()[i]),
{
    lemma_table_sizes();
    lemma_wide_codes(AERIAL_COMBOS as int);
    let wide = wide_rows(AERIAL_COMBOS as int);
    let ground = ground_rows(GROUND_COMBOS as int);
    assert(immortal_table().take(24) =~= ground);
    assert(base_table().take(24) =~= ground);
    assert(immortal_table()[i] == wide[i - 24]);
    if i > 24 {
        let code = |r: Seq<int>| aerial_code(r);
        assert(immortal_table()[i - 1] == wide[i - 25]);
        assert(code(wide[i - 25]) < code(wide[i - 24]));
    }
}

/// How many of the first `n` rows jump.
pub open spec fn jumps_among(rows: Seq<Seq<int>>, n: int) -> int
    decreases n,
{
    if n <= 0 {
        0
    } else {
        jumps_among(rows, n - 1) + if rows[n - 1][5] == 1 {
            1int
        } else {
            0
        }
    }
}

/// The row jumps without yaw, roll or handbrake.
pub open spec fn clean_jump(row: Seq<int>) -> bool {
    row[5] == 1 && row[3] == 0 && row[4] == 0 && row[7] == 0
}

/// How many of the first `n` rows are clean jumps.
pub open spec fn clean_jumps_among(rows: Seq<Seq<int>>, n: int) -> int
    decreases n,
{
    if n <= 0 {
        0
    } else {
        clean_jumps_among(rows, n - 1) + if clean_jump(rows[n - 1]) {
            1int
        } else {
            0
        }
    }
}

proof fn lemma_counts_local(a: Seq<Seq<int>>, b: Seq<Seq<int>>, n: int)
    requires
        n <= a.len(),
        n <= b.len(),
        forall|i: int| 0 <= i < n ==> a[i] == b[i],
    ensures
        jumps_among(a, n) == jumps_among(b, n),
        clean_jumps_among(a, n) == clean_jumps_among(b, n),
    decreases n,
{
    if n > 0 {
        lemma_counts_local(a, b, n - 1);
    }
}

proof fn lemma_counts_concat(a: Seq<Seq<int>>, b: Seq<Seq<int>>, n: int)
    requires
        0 <= n <= b.len(),
    ensures
        jumps_among(a + b, a.len() + n) == jumps_among(a, a.len() as int) + jumps_among(b, n),
        clean_jumps_among(a + b, a.len() + n) == clean_jumps_among(a, a.len() as int)
            + clean_jumps_among(b, n),
    decreases n,
{
    if n == 0 {
        lemma_counts_local(a + b, a, a.len() as int);
    } else {
        lemma_counts_concat(a, b, n - 1);
        assert((a + b)[a.len() + n - 1] == b[n - 1]);
    }
}

proof fn lemma_no_jumps(rows: Seq<Seq<int>>, n: int)
    requires
        n <= rows.len(),
        forall|i: int| 0 <= i < n ==> stays_down(#[trigger] rows[i]),
    ensures
        jumps_among(rows, n) == 0,
        clean_jumps_among(rows, n) == 0,
    decreases n,
{
    if n > 0 {
        lemma_no_jumps(rows, n - 1);
        assert(stays_down(rows[n - 1]));
    }
}

proof fn lemma_all_clean(rows: Seq<Seq<int>>, n: int)
    requires
        0 <= n <= rows.len(),
        forall|i: int| 0 <= i < n ==> clean_jump(#[trigger] rows[i]),
    ensures
        jumps_among(rows, n) == n,
        clean_jumps_among(rows, n) == n,
    decreases n,
{
    if n > 0 {
        lemma_all_clean(rows, n - 1);
        assert(clean_jump(rows[n - 1]));
    }
}

/// How many rows the first `n` aerial combinations have in the base table, how
/// many of them jump, and how many are clean jumps.
spec fn aerial_counts(n: int) -> (int, int, int)
    decreases n,
{
    if n <= 0 {
        (0, 0, 0)
    } else {
        let c = aerial_counts(n - 1);
        if !aerial_kept(n - 1) {
            c
        } else if digit(n - 1, 2, 2) != 1 {
            (c.0 + 1, c.1, c.2)
        } else if sign_digit(n - 1, 36) != 0 || sign_digit(n - 1, 4) != 0 {
            (c.0 + 1, c.1 + 1, c.2)
        } else {
            (c.0 + 1, c.1 + 1, c.2 + 1)
        }
    }
}

proof fn lemma_aerial_counts(n: int)
    requires
        0 <= n,
    ensures
        ({
            let rows = aerial_rows(n);
            let len = rows.len() as int;
            aerial_counts(n) == (len, jumps_among(rows, len), clean_jumps_among(rows, len))
        }),
    decreases n,
{
    if n > 0 {
        lemma_aerial_counts(n - 1);
        let before = aerial_rows(n - 1);
        lemma_counts_local(aerial_rows(n), before, before.len() as int);
    }
}

proof fn lemma_aerial_totals()
    ensures
        aerial_counts(54).0 == 32,
        aerial_counts(108) == (66int, 18int, 2int),
{
    assert(aerial_counts(12) == (6int, 0int, 0int)) by {
        reveal_with_fuel(aerial_counts, 13);
    }
    assert(aerial_counts(24) == (18int, 6int, 0int)) by {
        reveal_with_fuel(aerial_counts, 13);
    }
    assert(aerial_counts(36) == (24int, 6int, 0int)) by {
        reveal_with_fuel(aerial_counts, 13);
    }
    assert(aerial_counts(48) == (28int, 6int, 0int)) by {
        reveal_with_fuel(aerial_counts, 13);
    }
    assert(aerial_counts(54).0 == 32) by {
        reveal_with_fuel(aerial_counts, 7);
    }
    assert(aerial_counts(60) == (38int, 12int, 2int)) by {
        reveal_with_fuel(aerial_counts, 13);
    }
    assert(aerial_counts(72) == (42int, 12int, 2int)) by {
        reveal_with_fuel(aerial_counts, 13);
    }
    assert(aerial_counts(84) == (48int, 12int, 2int)) by {
        reveal_with_fuel(aerial_counts, 13);
    }
    assert(aerial_counts(96) == (60int, 18int, 2int)) by {
        reveal_with_fuel(aerial_counts, 13);
    }
    assert(aerial_counts(108) == (66int, 18int, 2int)) by {
        reveal_with_fuel(aerial_counts, 13);
    }
}

/// Of the rows of the longest table 32 jump, 14 of them cleanly.
pub proof fn law_longest_table_jumps()
    ensures
        v1_air_table().len() == 104,
        jumps_among(v1_air_table(), 104) == 32,
        clean_jumps_among(v1_air_table(), 104) == 14,
{
    lemma_table_sizes();
    let ground = ground_rows(GROUND_COMBOS as int);
    let air = aerial_rows(AERIAL_COMBOS as int);
    let stalls = stall_rows();
    let clean = clean_jump_rows(12);
    lemma_ground_codes(GROUND_COMBOS as int);
    lemma_no_jumps(ground, 24);
    lemma_aerial_counts(AERIAL_COMBOS as int);
    lemma_aerial_totals();
    reveal_with_fuel(jumps_among, 3);
    reveal_with_fuel(clean_jumps_among, 3);
    assert(jumps_among(stalls, 2) == 2);
    assert(clean_jumps_among(stalls, 2) == 0);
    lemma_all_clean(clean, 12);
    lemma_counts_concat(ground, air, 66);
    lemma_counts_concat(base_table(), stalls, 2);
    lemma_counts_concat(v1_table(), clean, 12);
}

/// The clean jumps of the longest table are listed twice, once after the other,
/// and two of them are rows of the base table.
pub proof fn law_clean_jumps_are_listed_twice(i: int)
    requires
        0 <= i < 6,
    ensures
        v1_air_table()[TABLE_SIZE_V1 + i] == v1_air_table()[TABLE_SIZE_V1 + 6 + i],
        v1_air_table()[TABLE_SIZE_V1 + i] == seq![i % 2, 0, i / 2 - 1, 0, 0, 1, i % 2, 0],
        v1_air_table()[94] == v1_air_table()[56],
        v1_air_table()[95] == v1_air_table()[57],
{
    lemma_table_sizes();
    let clean = clean_jump_rows(12);
    assert(v1_air_table()[TABLE_SIZE_V1 + i] == clean[i]);
    assert(v1_air_table()[TABLE_SIZE_V1 + 6 + i] == clean[6 + i]);
    assert((6 + i) / 2 == 3 + i / 2);
    assert(clean[i] =~= seq![i % 2, 0, i / 2 - 1, 0, 0, 1, i % 2, 0]);
    assert(clean[6 + i] =~= seq![i % 2, 0, i / 2 - 1, 0, 0, 1, i % 2, 0]);
    lemma_aerial_counts(54);
    lemma_aerial_totals();
    lemma_aerial_prefix(56, AERIAL_COMBOS as int);
    let rows = aerial_rows(56);
    assert(aerial_rows(55) == aerial_rows(54).push(aerial_row(54, 0)));
    assert(rows == aerial_rows(55).push(aerial_row(55, 0)));
    assert(v1_air_table()[56] == rows[32]);
    assert(v1_air_table()[57] == rows[33]);
    assert(rows[32] =~= clean[2]);
    assert(rows[33] =~= clean[3]);
}

proof fn lemma_aerial_prefix(m: int, n: int)
    requires
        0 <= m <= n,
    ensures
        aerial_rows(m).len() <= aerial_rows(n).len(),
        forall|i: int|
            0 <= i < aerial_rows(m).len() ==> #[trigger] aerial_rows(n)[i] == aerial_rows(m)[i],
    decreases n,
{
    if m < n {
        lemma_aerial_prefix(m, n - 1);
    }
}

/// A row that drives on the ground: steering goes with yaw, nothing rotates the car
/// or jumps, and boost goes with full throttle.
pub open spec fn drives(r: Seq<int>) -> bool {
    &&& -1 <= r[0] <= 1 && -1 <= r[1] <= 1
    &&& r[3] == r[1] && r[2] == 0 && r[4] == 0 && r[5] == 0
    &&& r[6] == 0 || (r[6] == 1 && r[0] == 1)
    &&& r[7] == 0 || r[7] == 1
}

/// A row that flies: it pitches, rolls or jumps; throttle goes with boost and
/// steering with yaw.
pub open spec fn flies(r: Seq<int>) -> bool {
    &&& -1 <= r[2] <= 1 && -1 <= r[3] <= 1 && -1 <= r[4] <= 1
    &&& r[5] == 0 || r[5] == 1
    &&& r[6] == 0 || r[6] == 1
    &&& r[0] == r[6] && r[1] == r[3]
    &&& r[2] != 0 || r[4] != 0 || r[5] == 1
}

proof fn lemma_ground_members(n: int, r: Seq<int>)
    requires
        0 <= n <= GROUND_COMBOS,
        r.len() == 8,
    ensures
        ground_rows(n).contains(r) <==> drives(r) && ground_code(r) < n,
    decreases n,
{
    if n > 0 {
        lemma_ground_members(n - 1, r);
        let before = ground_rows(n - 1);
        let row = ground_row(n - 1);
        if ground_kept(n - 1) {
            lemma_pushed(before, row, r);
            lemma_ground_decodes(n - 1);
            assert(drives(row));
            if drives(r) && ground_code(r) == n - 1 {
                assert(r =~= row);
            }
        } else {
            if drives(r) && ground_code(r) == n - 1 {
                lemma_ground_kept(r);
            }
        }
    }
}

proof fn lemma_pushed(before: Seq<Seq<int>>, row: Seq<int>, r: Seq<int>)
    ensures
        before.push(row).contains(r) <==> before.contains(r) || r == row,
{
    let all = before.push(row);
    if before.contains(r) {
        let i = choose|i: int| 0 <= i < before.len() && before[i] == r;
        assert(all[i] == r);
    }
    if r == row {
        assert(all[before.len() as int] == r);
    }
    if all.contains(r) {
        let i = choose|i: int| 0 <= i < all.len() && all[i] == r;
        if i < before.len() {
            assert(before[i] == r);
        }
    }
}

proof fn lemma_ground_kept(r: Seq<int>)
    requires
        drives(r),
    ensures
        ground_kept(ground_code(r)),
        0 <= ground_code(r) < GROUND_COMBOS,
{
}

proof fn lemma_aerial_members(n: int, r: Seq<int>)
    requires
        0 <= n <= AERIAL_COMBOS,
        r.len() == 8,
    ensures
        aerial_rows(n).contains(r) <==> flies(r) && (r[5] == 1 ==> r[3] == 0) && r[7] == (if r[5]
            == 1 && (r[2] != 0 || r[4] != 0) {
            1int
        } else {
            0
        }) && aerial_code(r) < n,
        wide_rows(n).contains(r) <==> flies(r) && r[7] == 1 && aerial_code(r) < n,
    decreases n,
{
    if n > 0 {
        lemma_aerial_members(n - 1, r);
        let a = aerial_row(n - 1, aerial_handbrake(n - 1));
        let w = aerial_row(n - 1, 1);
        lemma_aerial_decodes(n - 1, aerial_handbrake(n - 1));
        lemma_aerial_decodes(n - 1, 1);
        lemma_pushed(aerial_rows(n - 1), a, r);
        lemma_pushed(wide_rows(n - 1), w, r);
        if flies(r) && aerial_code(r) == n - 1 {
            lemma_aerial_digits(r);
            if r[7] == 1 {
                assert(r =~= w);
            }
            if r[7] == aerial_handbrake(n - 1) {
                assert(r =~= a);
            }
        }
    }
}

proof fn lemma_aerial_digits(r: Seq<int>)
    requires
        flies(r),
    ensures
        ({
            let n = aerial_code(r);
            &&& 0 <= n < AERIAL_COMBOS
            &&& sign_digit(n, 36) == r[2]
            &&& sign_digit(n, 12) == r[3]
            &&& sign_digit(n, 4) == r[4]
            &&& digit(n, 2, 2) == r[5]
            &&& digit(n, 1, 2) == r[6]
        }),
{
}

/// What is in the tables. The base table has the rows that drive, and of those that
/// fly the ones that do not yaw while they jump, with the handbrake exactly where a
/// jump pitches or rolls. The wide table has the rows that drive, and all that fly
/// with the handbrake.
pub proof fn law_what_is_in_the_tables(r: Seq<int>)
    requires
        r.len() == 8,
    ensures
        base_table().contains(r) <==> drives(r) || (flies(r) && (r[5] == 1 ==> r[3] == 0) && r[7]
            == (if r[5] == 1 && (r[2] != 0 || r[4] != 0) {
            1int
        } else {
            0
        })),
        immortal_table().contains(r) <==> drives(r) || (flies(r) && r[7] == 1),
{
    lemma_ground_members(GROUND_COMBOS as int, r);
    lemma_aerial_members(AERIAL_COMBOS as int, r);
    if drives(r) {
        lemma_ground_kept(r);
    }
    if flies(r) {
        lemma_aerial_digits(r);
    }
    let g = ground_rows(GROUND_COMBOS as int);
    lemma_joined(g, aerial_rows(AERIAL_COMBOS as int), r);
    lemma_joined(g, wide_rows(AERIAL_COMBOS as int), r);
}

proof fn lemma_joined(a: Seq<Seq<int>>, b: Seq<Seq<int>>, r: Seq<int>)
    ensures
        (a + b).contains(r) <==> a.contains(r) || b.contains(r),
{
    let all = a + b;
    if a.contains(r) {
        let i = choose|i: int| 0 <= i < a.len() && a[i] == r;
        assert(all[i] == r);
    }
    if b.contains(r) {
        let i = choose|i: int| 0 <= i < b.len() && b[i] == r;
        assert(all[a.len() + i] == r);
    }
    if all.contains(r) {
        let i = choose|i: int| 0 <= i < all.len() && all[i] == r;
        if i < a.len() {
            assert(a[i] == r);
        } else {
            assert(b[i - a.len()] == r);
        }
    }
}

/// In what order the rows stand. The base table has the rows that drive first, by
/// throttle, steering, boost and handbrake, then those that fly, by pitch, yaw,
/// roll, jump and boost. The table with stalls appends the two jumps that yaw
/// against their roll.
pub proof fn law_order_of_the_tables(i: int)
    requires
        0 <= i,
        i + 1 < 90,
    ensures
        ({
            let t = base_table();
            &&& i < 24 <==> stays_down(t[i])
            &&& i + 1 < 24 ==> ground_code(t[i]) < ground_code(t[i + 1])
            &&& 24 <= i ==> aerial_code(t[i]) < aerial_code(t[i + 1])
            &&& v1_table()[90] == seq![0, 0, 0, 1, -1, 1, 0, 1]
            &&& v1_table()[91] == seq![0, 0, 0, -1, 1, 1, 0, 1]
        }),
{
    lemma_table_sizes();
    lemma_ground_codes(GROUND_COMBOS as int);
    lemma_aerial_codes(AERIAL_COMBOS as int);
    let g = ground_rows(GROUND_COMBOS as int);
    let a = aerial_rows(AERIAL_COMBOS as int);
    let t = base_table();
    let gc = |r: Seq<int>| ground_code(r);
    let ac = |r: Seq<int>| aerial_code(r);
    if i < 24 {
        assert(t[i] == g[i]);
        if i + 1 < 24 {
            assert(t[i + 1] == g[i + 1]);
            assert(gc(g[i]) < gc(g[i + 1]));
        }
    } else {
        assert(t[i] == a[i - 24]);
        assert(t[i + 1] == a[i + 1 - 24]);
        assert(ac(a[i - 24]) < ac(a[i + 1 - 24]));
    }
    assert(v1_table()[90] == stall_rows()[0]);
    assert(v1_table()[91] == stall_rows()[1]);
}

} // verus!
