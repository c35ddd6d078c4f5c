use glam::features::{resolve_sets, ALL_FEATURES, FEATURE_SETS, FEATURE_SET_COUNT, MSRV_FEATURES};

#[test]
fn all_sets_when_no_index() {
    let sets = resolve_sets(None);
    assert_eq!(sets.len(), FEATURE_SET_COUNT);
    assert_eq!(sets, &FEATURE_SETS[..]);
    assert_eq!(sets[0], "all-types");
    assert_eq!(sets[1], "all-types scalar-math");
    assert_eq!(sets[6], "f64");
    assert_eq!(sets[7], "i32 u32");
}

#[test]
fn one_set_by_position() {
    assert_eq!(resolve_sets(Some(1)), &["all-types"]);
    assert_eq!(resolve_sets(Some(7)), &["f64"]);
    assert_eq!(resolve_sets(Some(8)), &["i32 u32"]);
}

#[test]
fn single_set_is_the_listed_entry() {
    for i in 1..=FEATURE_SET_COUNT {
        let one = resolve_sets(Some(i));
        assert_eq!(one.len(), 1);
        assert_eq!(one[0], resolve_sets(None)[i - 1]);
    }
}

#[test]
fn integration_sets_spell_out_the_dependencies() {
    assert_eq!(FEATURE_SETS[2], ALL_FEATURES);
    assert_eq!(FEATURE_SETS[3], format!("all-types {}", ALL_FEATURES));
    assert_eq!(FEATURE_SETS[4], format!("all-types scalar-math {}", ALL_FEATURES));
    assert_eq!(FEATURE_SETS[5], format!("all-types glam-assert {}", ALL_FEATURES));
    assert_eq!(MSRV_FEATURES, "all-types arbitrary approx mint speedy debug-glam-assert");
}
