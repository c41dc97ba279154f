//! Discrete action tables.
//!
//! A row is `[throttle, steer, pitch, yaw, roll, jump, boost, handbrake]`; every
//! entry is -1, 0 or 1. A table lists combinations in lexicographic order, the
//! last named input varying fastest, and skips the ones it has no use for.
//! Longer tables only append to shorter ones, so an index keeps its meaning.

use crate::scalar::{num, ordered, same, whole, Scalar};
use vstd::prelude::*;

verus! {

/// Rows of the base table.
pub const TABLE_SIZE: usize = 90;

/// Rows of the table with stalls.
pub const TABLE_SIZE_V1: usize = 92;

/// Rows of the table with stalls and clean jumps.
pub const TABLE_SIZE_V1_AIR: usize = 104;

/// Rows of the wide table.
pub const TABLE_SIZE_IMMORTAL: usize = 126;

/// Combinations of throttle, steer, boost and handbrake.
pub const GROUND_COMBOS: i16 = 36;

/// Combinations of pitch, yaw, roll, jump and boost.
pub const AERIAL_COMBOS: i16 = 108;

/// Digit of `n` worth `unit` in a system of the given base.
pub open spec fn digit(n: int, unit: int, base: int) -> int {
    n / unit % base
}

/// Digit of `n` worth `unit`, from -1 to 1.
pub open spec fn sign_digit(n: int, unit: int) -> int {
    digit(n, unit, 3) - 1
}

/// Whether ground combination `n` has a row: boosting goes with full throttle only.
pub open spec fn ground_kept(n: int) -> bool {
    digit(n, 2, 2) == 1 ==> sign_digit(n, 12) == 1
}

/// The row of ground combination `n`. Boosting without throttle sets throttle.
pub open spec fn ground_row(n: int) -> Seq<int> {
    let throttle = sign_digit(n, 12);
    let steer = sign_digit(n, 4);
    let boost = digit(n, 2, 2);
    seq![
        if throttle != 0 {
            throttle
        } else {
            boost
        },
        steer,
        0,
        steer,
        0,
        0,
        boost,
        digit(n, 1, 2),
    ]
}

/// Whether the aerial inputs rotate the car or jump; without that the row is a
/// ground row.
pub open spec fn aerial_distinct(n: int) -> bool {
    sign_digit(n, 36) != 0 || sign_digit(n, 4) != 0 || digit(n, 2, 2) == 1
}

/// Whether aerial combination `n` has a row in the base table: a jump with yaw
/// is left out.
pub open spec fn aerial_kept(n: int) -> bool {
    aerial_distinct(n) && (digit(n, 2, 2) == 1 ==> sign_digit(n, 12) == 0)
}

/// The handbrake of aerial combination `n` in the base table: set on a jump
/// that rotates.
pub open spec fn aerial_handbrake(n: int) -> int {
    if digit(n, 2, 2) == 1 && (sign_digit(n, 36) != 0 || sign_digit(n, 12) != 0 || sign_digit(
        n,
        4,
    ) != 0) {
        1
    } else {
        0
    }
}

/// The row of aerial combination `n` with the given handbrake.
pub open spec fn aerial_row(n: int, handbrake: int) -> Seq<int> {
    let boost = digit(n, 1, 2);
    let yaw = sign_digit(n, 12);
    seq![
        boost,
        yaw,
        sign_digit(n, 36),
        yaw,
        sign_digit(n, 4),
        digit(n, 2, 2),
        boost,
        handbrake,
    ]
}

/// The rows of the first `n` ground combinations.
pub open spec fn ground_rows(n: int) -> Seq<Seq<int>>
    decreases n,
{
    if n <= 0 {
        Seq::empty()
    } else if ground_kept(n - 1) {
        ground_rows(n - 1).push(ground_row(n - 1))
    } else {
        ground_rows(n - 1)
    }
}

/// The rows of the first `n` aerial combinations in the base table.
pub open spec fn aerial_rows(n: int) -> Seq<Seq<int>>
    decreases n,
{
    if n <= 0 {
        Seq::empty()
    } else if aerial_kept(n - 1) {
        aerial_rows(n - 1).push(aerial_row(n - 1, aerial_handbrake(n - 1)))
    } else {
        aerial_rows(n - 1)
    }
}

/// The rows of the first `n` aerial combinations in the wide table.
pub open spec fn wide_rows(n: int) -> Seq<Seq<int>>
    decreases n,
{
    if n <= 0 {
        Seq::empty()
    } else if aerial_distinct(n - 1) {
        wide_rows(n - 1).push(aerial_row(n - 1, 1))
    } else {
        wide_rows(n - 1)
    }
}

/// The two stalls: a jump with yaw against roll.
pub open spec fn stall_rows() -> Seq<Seq<int>> {
    seq![seq![0, 0, 0, 1, -1, 1, 0, 1], seq![0, 0, 0, -1, 1, 1, 0, 1]]
}

/// The first `n` clean jumps: pitch by boost, the grid repeated.
pub open spec fn clean_jump_rows(n: int) -> Seq<Seq<int>> {
    Seq::new(
        n as nat,
        |i: int|
            seq![digit(i, 1, 2), 0, sign_digit(i, 2), 0, 0, 1, digit(i, 1, 2), 0],
    )
}

/// The base table.
pub open spec fn base_table() -> Seq<Seq<int>> {
    ground_rows(GROUND_COMBOS as int) + aerial_rows(AERIAL_COMBOS as int)
}

/// The table with stalls.
pub open spec fn v1_table() -> Seq<Seq<int>> {
    base_table() + stall_rows()
}

/// The table with stalls and clean jumps.
pub open spec fn v1_air_table() -> Seq<Seq<int>> {
    v1_table() + clean_jump_rows(12)
}

/// The wide table.
pub open spec fn immortal_table() -> Seq<Seq<int>> {
    ground_rows(GROUND_COMBOS as int) + wide_rows(AERIAL_COMBOS as int)
}

/// An action row as numbers.
pub open spec fn reads<F: Scalar>(row: [F; 8], ints: Seq<int>) -> bool {
    &&& ints.len() == 8
    &&& row@ == ints.map_values(|v: int| num::<F>(v))
}

/// A table as numbers.
pub open spec fn table_reads<F: Scalar>(rows: Seq<[F; 8]>, table: Seq<Seq<int>>) -> bool {
    &&& rows.len() == table.len()
    &&& forall|i: int| 0 <= i < rows.len() ==> reads(#[trigger] rows[i], table[i])
}

fn make_row<F: Scalar>(
    throttle: i16,
    steer: i16,
    pitch: i16,
    yaw: i16,
    roll: i16,
    jump: i16,
    boost: i16,
    handbrake: i16,
) -> (row: [F; 8])
    requires
        ordered::<F>(),
    ensures
        reads(
            row,
            seq![
                throttle as int,
                steer as int,
                pitch as int,
                yaw as int,
                roll as int,
                jump as int,
                boost as int,
                handbrake as int,
            ],
        ),
{
    let row: [F; 8] = [
        whole(throttle),
        whole(steer),
        whole(pitch),
        whole(yaw),
        whole(roll),
        whole(jump),
        whole(boost),
        whole(handbrake),
    ];
    assert(row@ =~= seq![
        throttle as int,
        steer as int,
        pitch as int,
        yaw as int,
        roll as int,
        jump as int,
        boost as int,
        handbrake as int,
    ].map_values(|v: int| num::<F>(v)));
    row
}

/// The ground rows.
fn make_ground_rows<F: Scalar>() -> (rows: Vec<[F; 8]>)
    requires
        ordered::<F>(),
    ensures
        table_reads(rows@, ground_rows(GROUND_COMBOS as int)),
{
    let mut rows: Vec<[F; 8]> = Vec::new();
    let mut n: i16 = 0;
    while n < GROUND_COMBOS
        invariant
            0 <= n <= GROUND_COMBOS,
            ordered::<F>(),
            table_reads(rows@, ground_rows(n as int)),
        decreases GROUND_COMBOS - n,
    {
        let throttle: i16 = n / 12 % 3 - 1;
        let steer: i16 = n / 4 % 3 - 1;
        let boost: i16 = n / 2 % 2;
        let handbrake: i16 = n % 2;
        if !(boost == 1 && throttle != 1) {
            let t: i16 = if throttle != 0 {
                throttle
            } else {
                boost
            };
            rows.push(make_row(t, steer, 0, steer, 0, 0, boost, handbrake));
        }
        n = n + 1;
    }
    rows
}

/// Appends the aerial rows of the base table, or of the wide one.
fn push_aerial_rows<F: Scalar>(rows: &mut Vec<[F; 8]>, wide: bool)
    requires
        ordered::<F>(),
    ensures
        forall|before: Seq<Seq<int>>|
            #[trigger] table_reads(old(rows)@, before) ==> table_reads(
                final(rows)@,
                before + if wide {
                    wide_rows(AERIAL_COMBOS as int)
                } else {
                    aerial_rows(AERIAL_COMBOS as int)
                },
            ),
{
    let ghost start = rows@;
    let mut n: i16 = 0;
    proof {
        assert forall|before: Seq<Seq<int>>| #[trigger]
            table_reads(start, before) implies table_reads(
            rows@,
            before + if wide {
                wide_rows(0)
            } else {
                aerial_rows(0)
            },
        ) by {
            assert(before + Seq::<Seq<int>>::empty() =~= before);
        }
    }
    while n < AERIAL_COMBOS
        invariant
            0 <= n <= AERIAL_COMBOS,
            ordered::<F>(),
            forall|before: Seq<Seq<int>>|
                #[trigger] table_reads(start, before) ==> table_reads(
                    rows@,
                    before + if wide {
                        wide_rows(n as int)
                    } else {
                        aerial_rows(n as int)
                    },
                ),
        decreases AERIAL_COMBOS - n,
    {
        let pitch: i16 = n / 36 % 3 - 1;
        let yaw: i16 = n / 12 % 3 - 1;
        let roll: i16 = n / 4 % 3 - 1;
        let jump: i16 = n / 2 % 2;
        let boost: i16 = n % 2;
        let skipped: bool = (!wide && jump == 1 && yaw != 0) || (pitch == 0 && roll == 0 && jump
            == 0);
        if !skipped {
            let handbrake: i16 = if wide || (jump == 1 && (pitch != 0 || yaw != 0 || roll != 0)) {
                1
            } else {
                0
            };
            rows.push(make_row(boost, yaw, pitch, yaw, roll, jump, boost, handbrake));
        }
        n = n + 1;
    }
}

/// The base table.
pub fn make_lookup_table<F: Scalar>() -> (rows: Vec<[F; 8]>)
    requires
        ordered::<F>(),
    ensures
        table_reads(rows@, base_table()),
        rows@.len() == TABLE_SIZE,
{
    let mut rows: Vec<[F; 8]> = make_ground_rows();
    push_aerial_rows(&mut rows, false);
    proof {
        lemma_table_sizes();
    }
    rows
}

/// The base table followed by two stalls.
pub fn make_lookup_table_v1<F: Scalar>() -> (rows: Vec<[F; 8]>)
    requires
        ordered::<F>(),
    ensures
        table_reads(rows@, v1_table()),
        rows@.len() == TABLE_SIZE_V1,
{
    let mut rows: Vec<[F; 8]> = make_lookup_table();
    rows.push(make_row(0, 0, 0, 1, -1, 1, 0, 1));
    rows.push(make_row(0, 0, 0, -1, 1, 1, 0, 1));
    rows
}

/// The table with stalls followed by the grid of clean jumps, twice.
pub fn make_lookup_table_v1_air<F: Scalar>() -> (rows: Vec<[F; 8]>)
    requires
        ordered::<F>(),
    ensures
        table_reads(rows@, v1_air_table()),
        rows@.len() == TABLE_SIZE_V1_AIR,
{
    let mut rows: Vec<[F; 8]> = make_lookup_table_v1();
    let mut i: i16 = 0;
    assert(v1_table() + clean_jump_rows(0) =~= v1_table());
    while i < 12
        invariant
            0 <= i <= 12,
            ordered::<F>(),
            rows@.len() == TABLE_SIZE_V1 + i,
            table_reads(rows@, v1_table() + clean_jump_rows(i as int)),
        decreases 12 - i,
    {
        let pitch: i16 = i / 2 % 3 - 1;
        let boost: i16 = i % 2;
        rows.push(make_row(boost, 0, pitch, 0, 0, 1, boost, 0));
        i = i + 1;
    }
    rows
}

/// The wide table.
pub fn make_immortal_table<F: Scalar>() -> (rows: Vec<[F; 8]>)
    requires
        ordered::<F>(),
    ensures
        table_reads(rows@, immortal_table()),
        rows@.len() == TABLE_SIZE_IMMORTAL,
{
    let mut rows: Vec<[F; 8]> = make_ground_rows();
    push_aerial_rows(&mut rows, true);
    proof {
        lemma_table_sizes();
    }
    rows
}

/// How many of the first `n` combinations are kept on the ground, in the air,
/// and in the air of the wide table.
spec fn kept_counts(n: int) -> (int, int, int)
    decreases n,
{
    if n <= 0 {
        (0, 0, 0)
    } else {
        let c = kept_counts(n - 1);
        (
            c.0 + if ground_kept(n - 1) {
                1int
            } else {
                0
            },
            c.1 + if aerial_kept(n - 1) {
                1int
            } else {
                0
            },
            c.2 + if aerial_distinct(n - 1) {
                1int
            } else {
                0
            },
        )
    }
}

proof fn lemma_counts_are_sizes(n: int)
    requires
        0 <= n,
    ensures
        ground_rows(n).len() == kept_counts(n).0,
        aerial_rows(n).len() == kept_counts(n).1,
        wide_rows(n).len() == kept_counts(n).2,
    decreases n,
{
    if n > 0 {
        lemma_counts_are_sizes(n - 1);
    }
}

/// The number of rows of each part of the tables.
pub proof fn lemma_table_sizes()
    ensures
        ground_rows(GROUND_COMBOS as int).len() == 24,
        aerial_rows(AERIAL_COMBOS as int).len() == 66,
        wide_rows(AERIAL_COMBOS as int).len() == 102,
{
    lemma_counts_are_sizes(GROUND_COMBOS as int);
    lemma_counts_are_sizes(AERIAL_COMBOS as int);
    reveal_with_fuel(kept_counts, 13);
    assert(kept_counts(12) == (6int, 6int, 12int));
    assert(kept_counts(24) == (12int, 18int, 24int));
    assert(kept_counts(36) == (24int, 24int, 36int));
    assert(kept_counts(48).1 == 28 && kept_counts(48).2 == 46);
    assert(kept_counts(60).1 == 38 && kept_counts(60).2 == 56);
    assert(kept_counts(72).1 == 42 && kept_counts(72).2 == 66);
    assert(kept_counts(84).1 == 48 && kept_counts(84).2 == 78);
    assert(kept_counts(96).1 == 60 && kept_counts(96).2 == 90);
}

/// Longer tables start with the shorter ones, so an index keeps its meaning.
pub proof fn law_tables_append_only()
    ensures
        base_table().len() == TABLE_SIZE,
        v1_table().len() == TABLE_SIZE_V1,
        v1_air_table().len() == TABLE_SIZE_V1_AIR,
        v1_table().take(TABLE_SIZE as int) == base_table(),
        v1_air_table().take(TABLE_SIZE_V1 as int) == v1_table(),
{
    lemma_table_sizes();
    assert(v1_table().take(TABLE_SIZE as int) =~= base_table());
    assert(v1_air_table().take(TABLE_SIZE_V1 as int) =~= v1_table());
}

/// Every row of a table has entries in range.
pub open spec fn table_ok(table: Seq<Seq<int>>) -> bool {
    forall|i: int| 0 <= i < table.len() ==> entries_ok(#[trigger] table[i])
}

/// In every table each entry is -1, 0 or 1, and the last three are 0 or 1.
pub proof fn law_entries_in_range()
    ensures
        table_ok(base_table()),
        table_ok(v1_table()),
        table_ok(v1_air_table()),
        table_ok(immortal_table()),
{
    lemma_entries_in_range(GROUND_COMBOS as int);
    lemma_entries_in_range(AERIAL_COMBOS as int);
    lemma_entries_in_range(12);
}

proof fn lemma_entries_in_range(n: int)
    requires
        0 <= n,
    ensures
        forall|i: int| 0 <= i < ground_rows(n).len() ==> entries_ok(#[trigger] ground_rows(n)[i]),
        forall|i: int| 0 <= i < aerial_rows(n).len() ==> entries_ok(#[trigger] aerial_rows(n)[i]),
        forall|i: int| 0 <= i < wide_rows(n).len() ==> entries_ok(#[trigger] wide_rows(n)[i]),
        forall|i: int| 0 <= i < 2 ==> entries_ok(#[trigger] stall_rows()[i]),
        forall|i: int| 0 <= i < n ==> entries_ok(#[trigger] clean_jump_rows(n)[i]),
    decreases n,
{
    if n > 0 {
        lemma_entries_in_range(n - 1);
        assert forall|i: int| 0 <= i < ground_rows(n).len() implies entries_ok(#[trigger] ground_rows(n)[i]) by {
            if i < ground_rows(n - 1).len() {
                assert(ground_rows(n)[i] == ground_rows(n - 1)[i]);
            }
        }
        assert forall|i: int| 0 <= i < aerial_rows(n).len() implies entries_ok(#[trigger] aerial_rows(n)[i]) by {
            if i < aerial_rows(n - 1).len() {
                assert(aerial_rows(n)[i] == aerial_rows(n - 1)[i]);
            }
        }
        assert forall|i: int| 0 <= i < wide_rows(n).len() implies entries_ok(#[trigger] wide_rows(n)[i]) by {
            if i < wide_rows(n - 1).len() {
                assert(wide_rows(n)[i] == wide_rows(n - 1)[i]);
            }
        }
    }
}

/// Eight entries from -1 to 1, the last three not negative.
pub open spec fn entries_ok(row: Seq<int>) -> bool {
    &&& row.len() == 8
    &&& forall|j: int| 0 <= j < 8 ==> -1 <= #[trigger] row[j] <= 1
    &&& 0 <= row[5] && 0 <= row[6] && 0 <= row[7]
}

/// The row does not jump.
pub open spec fn grounded(row: Seq<int>) -> bool {
    row[5] == 0
}

/// A jump has no yaw, and has the handbrake exactly when it pitches or rolls.
pub open spec fn jump_is_tidy(row: Seq<int>) -> bool {
    row[5] == 1 ==> row[3] == 0 && (row[7] == 1 <==> row[2] != 0 || row[4] != 0)
}

/// In the base table a jump never comes with yaw, and it comes with the
/// handbrake exactly when it pitches or rolls; the rows that the longest table
/// appends jump without yaw, roll or handbrake.
pub proof fn law_jump_rows(i: int)
    ensures
        0 <= i < base_table().len() ==> jump_is_tidy(base_table()[i]),
        TABLE_SIZE_V1 <= i < v1_air_table().len() ==> {
            let r = v1_air_table()[i];
            r[5] == 1 && r[3] == 0 && r[4] == 0 && r[7] == 0
        },
{
    lemma_table_sizes();
    lemma_jump_rows(GROUND_COMBOS as int);
    lemma_jump_rows(AERIAL_COMBOS as int);
    lemma_jump_rows(12);
    let g = ground_rows(GROUND_COMBOS as int);
    let a = aerial_rows(AERIAL_COMBOS as int);
    if 0 <= i < base_table().len() {
        if i < g.len() {
            assert(base_table()[i] == g[i]);
        } else {
            assert(base_table()[i] == a[i - g.len()]);
        }
    }
    if TABLE_SIZE_V1 <= i < v1_air_table().len() {
        assert(v1_air_table()[i] == clean_jump_rows(12)[i - TABLE_SIZE_V1]);
    }
}

proof fn lemma_jump_rows(n: int)
    requires
        0 <= n,
    ensures
        forall|i: int|
            0 <= i < aerial_rows(n).len() ==> jump_is_tidy(#[trigger] aerial_rows(n)[i]),
        forall|i: int| 0 <= i < ground_rows(n).len() ==> grounded(#[trigger] ground_rows(n)[i]),
        forall|i: int|
            0 <= i < n ==> {
                let r = #[trigger] clean_jump_rows(n)[i];
                r[5] == 1 && r[3] == 0 && r[4] == 0 && r[7] == 0
            },
    decreases n,
{
    if n > 0 {
        lemma_jump_rows(n - 1);
        assert forall|i: int| 0 <= i < ground_rows(n).len() implies grounded(#[trigger] ground_rows(n)[i]) by {
            if i < ground_rows(n - 1).len() {
                assert(ground_rows(n)[i] == ground_rows(n - 1)[i]);
            }
        }
        assert forall|i: int| 0 <= i < aerial_rows(n).len() implies jump_is_tidy(#[trigger] aerial_rows(n)[i]) by {
            if i < aerial_rows(n - 1).len() {
                assert(aerial_rows(n)[i] == aerial_rows(n - 1)[i]);
            }
        }
    }
}

/// Inputs of one car.
#[derive(Debug)]
pub struct CarControls<F> {
    pub throttle: F,
    pub steer: F,
    pub pitch: F,
    pub yaw: F,
    pub roll: F,
    pub jump: bool,
    pub boost: bool,
    pub handbrake: bool,
}

impl<F: Copy> Clone for CarControls<F> {
    fn clone(&self) -> (r: Self)
        ensures
            r == *self,
    {
        *self
    }
}

impl<F: Copy> Copy for CarControls<F> {

}

/// The inputs that an action row stands for: the last three are buttons, down
/// when not zero.
pub open spec fn controls_of<F: Scalar>(row: [F; 8]) -> CarControls<F> {
    CarControls {
        throttle: row[0],
        steer: row[1],
        pitch: row[2],
        yaw: row[3],
        roll: row[4],
        jump: !same(row[5], num::<F>(0)),
        boost: !same(row[6], num::<F>(0)),
        handbrake: !same(row[7], num::<F>(0)),
    }
}

/// The inputs that an action row stands for: the last three are buttons, down
/// when not zero.
pub fn to_controls<F: Scalar>(row: &[F; 8]) -> (c: CarControls<F>)
    requires
        ordered::<F>(),
    ensures
        c == controls_of(*row),
        c.throttle == row[0],
        c.steer == row[1],
        c.pitch == row[2],
        c.yaw == row[3],
        c.roll == row[4],
        c.jump == !same(row[5], num::<F>(0)),
        c.boost == !same(row[6], num::<F>(0)),
        c.handbrake == !same(row[7], num::<F>(0)),
{
    let zero: F = whole(0);
    CarControls {
        throttle: row[0],
        steer: row[1],
        pitch: row[2],
        yaw: row[3],
        roll: row[4],
        jump: row[5] != zero,
        boost: row[6] != zero,
        handbrake: row[7] != zero,
    }
}

} // verus!
