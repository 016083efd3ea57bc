use spbuild::version_tools::version_check;

#[test]
fn exact_match_without_modifier() {
    assert!(version_check("1.2.3", "1.2.3"));
    assert!(!version_check("1.2.3", "1.2.4"));
}

#[test]
fn caret_compatible_same_major() {
    assert!(version_check("^1.2.3", "1.0.0"));
    assert!(version_check("^1.2.3", "1.999.999"));
    assert!(!version_check("^1.2.3", "2.0.0"));
}

#[test]
fn tilde_approximately_same_major_and_minor() {
    assert!(version_check("~1.2.3", "1.2.0"));
    assert!(version_check("~1.2.3", "1.2.999"));
    assert!(!version_check("~1.2.3", "1.3.0"));
    assert!(!version_check("~1.2.3", "2.2.3"));
}

#[test]
fn greater_than() {
    assert!(!version_check(">1.2.3", "1.2.2"));
    assert!(!version_check(">1.2.3", "1.2.3"));
    assert!(version_check(">1.2.3", "1.2.4"));
}

#[test]
fn less_than() {
    assert!(!version_check("<1.2.3", "1.2.3"));
    assert!(!version_check("<1.2.3", "1.2.4"));
    assert!(version_check("<1.2.3", "1.2.2"));
}

#[test]
fn greater_than_or_equal() {
    assert!(version_check(">=1.2.3", "1.2.3"));
    assert!(!version_check(">=1.2.3", "1.2.2"));
    assert!(version_check(">=1.2.3", "1.2.4"));
}

#[test]
fn less_than_or_equal() {
    assert!(version_check("<=1.2.3", "1.2.3"));
    assert!(version_check("<=1.2.3", "1.2.2"));
    assert!(!version_check("<=1.2.3", "1.2.4"));
}

#[test]
fn missing_majors_minors() {
    assert!(!version_check(">1", "0.9.9"));
    assert!(!version_check(">1", "1.0.0"));
    assert!(version_check(">1", "1.0.1"));
}

#[test]
fn caret_same_major_boundaries() {
    assert!(version_check("^1.2.3", "1.9.9"));
    assert!(!version_check("^1.2.3", "2.0.0"));
}

#[test]
fn tilde_same_major_and_minor_boundaries() {
    assert!(version_check("~1.2.3", "1.2.9"));
    assert!(!version_check("~1.2.3", "1.3.0"));
}

#[test]
fn ordinal_on_equal_triples() {
    assert!(version_check(">=1.2.3", "1.2.3"));
    assert!(!version_check("<1.2.3", "1.2.3"));
}

#[test]
fn empty_requirement_satisfies_nothing() {
    assert!(!version_check("", "1.0.0"));
    assert!(!version_check("", ""));
}

#[test]
fn missing_components_default_to_zero() {
    assert!(version_check(">=1", "1.0.0"));
    assert!(version_check("~1.2", "1.2.9"));
    assert!(version_check("^2", "2.7.1"));
}

#[test]
fn non_numeric_components_compare_as_zero() {
    assert!(version_check(">=1.x.0", "1.0.0"));
    assert!(!version_check(">1.abc", "1.0.0"));
    assert!(version_check("<1.2.junk", "1.1.9"));
}

#[test]
fn overlong_numeric_component_compares_as_zero() {
    assert!(version_check("<0.0.1", "99999999999.0.0"));
    assert!(version_check(">=4294967295", "4294967295.0.0"));
}
