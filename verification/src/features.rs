//! The feature sets that the CI test matrix builds.
use vstd::prelude::*;

verus! {

/// The number of feature sets in [`FEATURE_SETS`].
pub const FEATURE_SET_COUNT: usize = 8;

/// Every feature set the CI builds, in the order it builds them.
///
/// 1. the default build;
/// 2. the scalar reference used by the differential test (never shipped);
/// 3. the integrations on their own;
/// 4. the integrations with every type;
/// 5. the integrations with every type and scalar math;
/// 6. assertions on in a release build;
/// 7. a narrow type set;
/// 8. another narrow type set, to check that the per-type features still compile.
pub const FEATURE_SETS: [&'static str; 8] = [
    "all-types",
    "all-types scalar-math",
    "arbitrary approx bytemuck encase mint rand rkyv bytecheck serde speedy zerocopy debug-glam-assert",
    "all-types arbitrary approx bytemuck encase mint rand rkyv bytecheck serde speedy zerocopy debug-glam-assert",
    "all-types scalar-math arbitrary approx bytemuck encase mint rand rkyv bytecheck serde speedy zerocopy debug-glam-assert",
    "all-types glam-assert arbitrary approx bytemuck encase mint rand rkyv bytecheck serde speedy zerocopy debug-glam-assert",
    "f64",
    "i32 u32",
];

/// A reduced set for the minimum supported rustc: some optional dependencies need a newer one.
pub const MSRV_FEATURES: &'static str = "all-types arbitrary approx mint speedy debug-glam-assert";

/// All optional dependencies, as used by clippy, doc and coverage.
pub const ALL_FEATURES: &'static str = "arbitrary approx bytemuck encase mint rand rkyv bytecheck serde speedy zerocopy debug-glam-assert";

/// The feature sets that `index` selects: all of them for `None`, and the
/// one set at 1-based position `i` for `Some(i)`.
pub open spec fn selected_sets(index: Option<usize>) -> Seq<&'static str> {
    match index {
        None => FEATURE_SETS@,
        Some(i) => FEATURE_SETS@.subrange(i - 1, i as int),
    }
}

/// Whether `index` names a feature set: `None` (all of them) or a 1-based
/// position within [`FEATURE_SETS`].
pub open spec fn valid_set_index(index: Option<usize>) -> bool {
    match index {
        None => true,
        Some(i) => 1 <= i <= FEATURE_SET_COUNT,
    }
}

/// Returns the feature sets to build: all of them when `index` is `None`,
/// otherwise the single set at 1-based position `i`.
///
/// An index of 0 or past the last set is a caller error (the command line
/// reports it as out of range), so it is excluded here.
pub fn resolve_sets(index: Option<usize>) -> (sets: &'static [&'static str])
    requires
        valid_set_index(index),
    ensures
        sets@ == selected_sets(index),
{
    match index {
        Some(i) => {
            let all: &'static [&'static str] = &FEATURE_SETS;
            &all[i - 1..i]
        },
        None => &FEATURE_SETS,
    }
}

/// Selecting one set by its position gives exactly that entry of the full
/// list: the single-set run builds what the same position of the full run
/// builds.
pub proof fn law_single_set_is_listed(i: usize)
    requires
        1 <= i <= FEATURE_SET_COUNT,
    ensures
        selected_sets(Some(i)).len() == 1,
        selected_sets(Some(i))[0] == selected_sets(None)[i - 1],
        selected_sets(None).len() == FEATURE_SET_COUNT,
{
}

} // verus!
