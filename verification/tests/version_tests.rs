use ro_control::version::compare_versions;

#[test]
fn numeric_not_lexicographic() {
    // "550.10" is numerically greater than "550.2" even though it is
    // lexicographically smaller.
    assert_eq!(compare_versions("550.10", "550.2"), 1);
    assert_eq!(compare_versions("9.0", "10.0"), -1);
}

#[test]
fn equal_versions() {
    assert_eq!(compare_versions("550.2", "550.2"), 0);
    // Missing trailing segments read as zero.
    assert_eq!(compare_versions("550", "550.0.0"), 0);
}

#[test]
fn antisymmetric_on_samples() {
    let samples = ["550.10", "550.2", "1.0", "10.0", "565.57.01", "abc", "1.x.2"];
    for a in samples.iter() {
        for b in samples.iter() {
            assert_eq!(compare_versions(a, b), -compare_versions(b, a));
        }
        assert_eq!(compare_versions(a, a), 0);
    }
}

#[test]
fn unparsable_segments_are_absent() {
    // "1.x.2" parses as [1, 2]: the bad segment collapses, it is not zero.
    assert_eq!(compare_versions("1.x.2", "1.2"), 0);
    assert_eq!(compare_versions("1.x.2", "1.0.2"), 1);
}
