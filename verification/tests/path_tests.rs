use trust_platform::paths::{manual_normalize, validate_path};
use trust_platform::protocol::{INVALID_PARAMS, PATH_ESCAPE};

const ESCAPE_ROOT: &str = "/tmp/trust-hir-cli-test-escape";
const VALID_ROOT: &str = "/tmp/trust-hir-cli-test-valid";
const ABS_ROOT: &str = "/tmp/trust-hir-cli-test-abs";
const NULL_ROOT: &str = "/tmp/trust-hir-cli-test-null";

#[test]
fn path_escape_detected() {
    let result = validate_path("../../etc/passwd", ESCAPE_ROOT);
    assert!(result.is_err());
    assert_eq!(result.unwrap_err().code, PATH_ESCAPE);
}

#[test]
fn normalized_path_within_workspace_passes() {
    let result = validate_path("src/main.st", VALID_ROOT);
    assert!(result.is_ok());
    assert_eq!(result.unwrap(), "/tmp/trust-hir-cli-test-valid/src/main.st");
}

#[test]
fn absolute_path_within_workspace_passes() {
    let abs = format!("{}/{}", ABS_ROOT, "src/main.st");
    let result = validate_path(&abs, ABS_ROOT);
    assert!(result.is_ok());
    assert_eq!(result.unwrap(), abs);
}

#[test]
fn null_bytes_in_path_rejected() {
    let result = validate_path("foo\0bar", NULL_ROOT);
    assert!(result.is_err());
    let e = result.unwrap_err();
    assert_eq!(e.code, INVALID_PARAMS);
    assert_eq!(e.message, "Path contains null bytes");
}

#[test]
fn escape_message() {
    let e = validate_path("/etc/passwd", "/work/proj").unwrap_err();
    assert_eq!(e.code, PATH_ESCAPE);
    assert_eq!(e.message, "Path escapes workspace root");
}

#[test]
fn dot_dot_inside_root_is_resolved() {
    assert_eq!(validate_path("src/../lib/./a.st", "/work/proj").unwrap(), "/work/proj/lib/a.st");
}

#[test]
fn sibling_with_common_prefix_escapes() {
    assert_eq!(validate_path("../proj2/a.st", "/work/proj").unwrap_err().code, PATH_ESCAPE);
}

#[test]
fn validated_path_revalidates_to_itself() {
    let first = validate_path("a/../b//c.st", "/work/proj").unwrap();
    let second = validate_path(&first, "/work/proj").unwrap();
    assert_eq!(first, second);
}

#[test]
fn manual_normalize_resolves_components() {
    assert_eq!(manual_normalize("/a/./b/../c//d"), "/a/c/d");
    assert_eq!(manual_normalize("/.."), "/");
    assert_eq!(manual_normalize("a/../../b"), "b");
    assert_eq!(manual_normalize(""), "");
}
