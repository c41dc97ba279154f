use construct_engine::actions::{
    make_immortal_table, make_lookup_table, make_lookup_table_v1, make_lookup_table_v1_air,
    to_controls, TABLE_SIZE, TABLE_SIZE_IMMORTAL, TABLE_SIZE_V1, TABLE_SIZE_V1_AIR,
};

#[test]
fn table_has_90_rows() {
    assert_eq!(make_lookup_table::<f32>().len(), TABLE_SIZE);
}

#[test]
fn first_ground_row_matches_rlgym_reference() {
    assert_eq!(make_lookup_table::<f32>()[0], [-1., -1., 0., -1., 0., 0., 0., 0.]);
}

#[test]
fn ground_rows_count_24() {
    let n = make_lookup_table::<f32>().iter().take(24).count();
    assert_eq!(n, 24);
    let t = make_lookup_table::<f32>();
    assert!(t[24][5] != 0.0 || t[24][2] != 0.0 || t[24][4] != 0.0);
    for r in t.iter().take(24) {
        assert!(r[2] == 0.0 && r[4] == 0.0 && r[5] == 0.0);
    }
}

#[test]
fn to_controls_maps_booleans() {
    let c = to_controls(&[1.0f32, 0., 0., 0., 0., 1., 1., 0.]);
    assert_eq!(c.throttle, 1.0);
    assert!(c.jump && c.boost && !c.handbrake);
}

#[test]
fn v1_table_appends_stalls_only() {
    let v0 = make_lookup_table::<f32>();
    let v1 = make_lookup_table_v1::<f32>();
    assert_eq!(v1.len(), TABLE_SIZE_V1);
    assert_eq!(TABLE_SIZE_V1, 92);
    assert_eq!(&v1[..90], &v0[..]);
    assert_eq!(v1[90], [0., 0., 0., 1., -1., 1., 0., 1.]);
    assert_eq!(v1[91], [0., 0., 0., -1., 1., 1., 0., 1.]);
}

#[test]
fn v1_air_appends_12_and_prefix_is_v1() {
    let v1 = make_lookup_table_v1::<f32>();
    let air = make_lookup_table_v1_air::<f32>();
    assert_eq!(air.len(), TABLE_SIZE_V1_AIR);
    assert_eq!(TABLE_SIZE_V1_AIR, 104);
    assert_eq!(&air[..TABLE_SIZE_V1], &v1[..]);
}

#[test]
fn v1_air_row_values() {
    let air = make_lookup_table_v1_air::<f32>();
    for base in [92usize, 98] {
        assert_eq!(air[base], [0., 0., -1., 0., 0., 1., 0., 0.]);
        assert_eq!(air[base + 1], [1., 0., -1., 0., 0., 1., 1., 0.]);
        assert_eq!(air[base + 2], [0., 0., 0., 0., 0., 1., 0., 0.]);
        assert_eq!(air[base + 3], [1., 0., 0., 0., 0., 1., 1., 0.]);
        assert_eq!(air[base + 4], [0., 0., 1., 0., 0., 1., 0., 0.]);
        assert_eq!(air[base + 5], [1., 0., 1., 0., 0., 1., 1., 0.]);
    }
    assert_eq!(air[94], air[56]);
    assert_eq!(air[95], air[57]);
    assert_eq!(air[100], air[56]);
    assert_eq!(air[101], air[57]);
    for r in &air[TABLE_SIZE_V1..] {
        assert_eq!(r[3], 0.0, "yaw must be 0: a jump with yaw is a side dodge");
        assert_eq!(r[4], 0.0, "roll must be 0");
        assert_eq!(r[7], 0.0, "handbrake airborne IS air roll -- must be 0");
        assert_eq!(r[5], 1.0, "every appended row is a jump row");
    }
}

#[test]
fn clean_jump_share_is_14_of_104() {
    let clean = |t: &Vec<[f32; 8]>| {
        t.iter()
            .filter(|r| r[5] != 0.0 && r[3] == 0.0 && r[4] == 0.0 && r[7] == 0.0)
            .count()
    };
    let v1 = make_lookup_table_v1();
    let air = make_lookup_table_v1_air();
    assert_eq!(clean(&v1), 2);
    assert_eq!(clean(&air), 14);
    let jumps = |t: &Vec<[f32; 8]>| t.iter().filter(|r| r[5] != 0.0).count();
    assert_eq!(jumps(&v1), 20);
    assert_eq!(jumps(&air), 32);
    let rollers = |t: &Vec<[f32; 8]>| t.iter().filter(|r| r[5] != 0.0 && r[7] != 0.0).count();
    assert_eq!(rollers(&v1), 18);
    assert_eq!(rollers(&air), 18);
}

#[test]
fn duplicate_multiplicities() {
    let air = make_lookup_table_v1_air::<f32>();
    let count = |row: [f32; 8]| air.iter().filter(|r| **r == row).count();
    assert_eq!(count([0., 0., 0., 0., 0., 1., 0., 0.]), 3);
    assert_eq!(count([1., 0., 0., 0., 0., 1., 1., 0.]), 3);
    assert_eq!(count([0., 0., -1., 0., 0., 1., 0., 0.]), 2);
    assert_eq!(count([1., 0., -1., 0., 0., 1., 1., 0.]), 2);
    assert_eq!(count([0., 0., 1., 0., 0., 1., 0., 0.]), 2);
    assert_eq!(count([1., 0., 1., 0., 0., 1., 1., 0.]), 2);
}

#[test]
fn every_entry_is_minus_one_zero_or_one() {
    for t in [
        make_lookup_table::<f32>(),
        make_lookup_table_v1_air(),
        make_immortal_table(),
    ] {
        for r in &t {
            for (j, x) in r.iter().enumerate() {
                assert!(*x == 0.0 || *x == 1.0 || (*x == -1.0 && j < 5));
            }
        }
    }
}

#[test]
fn rows_of_the_base_and_wide_tables_do_not_repeat() {
    for t in [make_lookup_table::<f32>(), make_immortal_table()] {
        for i in 0..t.len() {
            for j in 0..i {
                assert_ne!(t[i], t[j], "rows {j} and {i}");
            }
        }
    }
    let air = make_lookup_table_v1_air::<f32>();
    assert_eq!(air[92..98], air[98..104]);
    assert_eq!((air[94], air[95]), (air[56], air[57]));
}

#[test]
fn boosting_needs_full_throttle_on_the_ground() {
    for r in make_lookup_table::<f32>().iter().take(24) {
        assert!(r[6] == 0.0 || r[0] == 1.0);
        assert_eq!(r[1], r[3], "steering is written twice");
    }
}

#[test]
fn jumps_of_the_base_table_have_no_yaw() {
    for r in make_lookup_table::<f32>().iter().filter(|r| r[5] == 1.0) {
        assert_eq!(r[3], 0.0);
        assert_eq!(r[7] == 1.0, r[2] != 0.0 || r[4] != 0.0);
    }
}

#[test]
fn wide_table_has_126_rows_and_always_brakes_in_the_air() {
    let t = make_immortal_table::<f32>();
    assert_eq!(t.len(), TABLE_SIZE_IMMORTAL);
    assert_eq!(&t[..24], &make_lookup_table::<f32>()[..24]);
    assert_eq!(t[24], [0., -1., -1., -1., -1., 0., 0., 1.]);
    assert_eq!(t[125], [1., 1., 1., 1., 1., 1., 1., 1.]);
    for r in &t[24..] {
        assert_eq!(r[7], 1.0);
    }
}

#[test]
fn to_controls_keeps_the_analog_inputs() {
    let c = to_controls(&[-1.0f32, 0.5, 0.25, -0.5, 0.75, 0., 0., 1.]);
    assert_eq!((c.throttle, c.steer, c.pitch, c.yaw, c.roll), (-1.0, 0.5, 0.25, -0.5, 0.75));
    assert!(!c.jump && !c.boost && c.handbrake);
}
