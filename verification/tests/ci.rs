use glam::ci::Ci;

#[test]
fn suite_runs_lints_then_features_then_msrv() {
    let cmds = Ci {}.prepare(
        vec!["fmt", "clippy"],
        vec!["test all-types", "test f64"],
        vec!["msrv"],
    );
    assert_eq!(cmds, vec!["fmt", "clippy", "test all-types", "test f64", "msrv"]);
}

#[test]
fn empty_groups() {
    let cmds: Vec<u8> = Ci {}.prepare(vec![], vec![1], vec![]);
    assert_eq!(cmds, vec![1]);
}
