use trust_platform::hmi_toml::{
    collect_hmi_toml_diagnostics, collect_hmi_toml_parse_diagnostics, collect_hmi_toml_semantic_diagnostics,
    infer_hmi_root_from_path, is_config_uri, is_hmi_toml_uri, parse_failure_diagnostics,
};
use trust_platform::project::Severity;

#[test]
fn config_files_are_recognized_by_name() {
    let names = vec!["trust-lsp.toml".to_string(), ".trust-lsp.toml".to_string()];
    assert!(is_config_uri(Some("/work/proj/trust-lsp.toml"), &names));
    assert!(is_config_uri(Some("/work/proj/.trust-lsp.toml/."), &names));
    assert!(!is_config_uri(Some("/work/proj/other.toml"), &names));
    assert!(!is_config_uri(Some("/work/proj/trust-lsp.toml/.."), &names));
    assert!(!is_config_uri(None, &names));
}

#[test]
fn hmi_toml_files() {
    assert!(is_hmi_toml_uri(Some("/work/proj/hmi/overview.toml")));
    assert!(is_hmi_toml_uri(Some("/work/hmi/sub/page.toml")));
    assert!(!is_hmi_toml_uri(Some("/work/proj/hmi/overview.json")));
    assert!(!is_hmi_toml_uri(Some("/work/proj/ui/overview.toml")));
    assert!(!is_hmi_toml_uri(Some("/work/hmi/.toml")));
    assert!(!is_hmi_toml_uri(Some("/work/hmix/a.toml")));
    assert!(!is_hmi_toml_uri(None));
}

#[test]
fn hmi_root_is_inferred_from_the_hmi_directory() {
    assert_eq!(infer_hmi_root_from_path("/work/proj/hmi/overview.toml"), Some("/work/proj".to_string()));
    assert_eq!(infer_hmi_root_from_path("hmi/overview.toml"), Some("".to_string()));
    assert_eq!(infer_hmi_root_from_path("./hmi/overview.toml"), Some(".".to_string()));
    assert_eq!(infer_hmi_root_from_path("./a/hmi/x.toml"), Some("./a".to_string()));
    assert_eq!(infer_hmi_root_from_path("/hmi/x.toml"), Some("/".to_string()));
    assert_eq!(infer_hmi_root_from_path("/work/proj/ui/overview.toml"), None);
    assert_eq!(infer_hmi_root_from_path("overview.toml"), None);
}

#[test]
fn valid_toml_has_no_diagnostics() {
    assert!(collect_hmi_toml_parse_diagnostics("[page]\ntitle = \"Overview\"\n").is_empty());
    assert!(collect_hmi_toml_diagnostics(Some("/p/hmi/a.toml"), None, "a = 1").is_empty());
}

#[test]
fn invalid_toml_gives_one_error() {
    let content = "[page\ntitle = 1";
    let diags = collect_hmi_toml_parse_diagnostics(content);
    assert_eq!(diags.len(), 1);
    let d = &diags[0];
    assert_eq!(d.severity, Severity::Error);
    assert_eq!(d.code, "HMI_TOML_PARSE");
    assert_eq!(d.source, "trust-lsp");
    assert!(!d.message.is_empty());
    let expected = toml::from_str::<toml::Value>(content).unwrap_err();
    assert_eq!(d.message, expected.to_string());
    assert_eq!(d.span, expected.span().map(|s| (s.start, s.end)));
    let again = collect_hmi_toml_diagnostics(Some("/p/hmi/a.toml"), Some("/p"), content);
    assert_eq!(again.len(), 1);
    assert_eq!(again[0].message, d.message);
}

#[test]
fn failures_render_as_diagnostics() {
    assert!(parse_failure_diagnostics(None).is_empty());
    let d = parse_failure_diagnostics(Some((Some((3, 5)), "bad key".to_string())));
    assert_eq!(d.len(), 1);
    assert_eq!(d[0].span, Some((3, 5)));
    assert_eq!(d[0].message, "bad key");
    assert!(collect_hmi_toml_semantic_diagnostics("/p", "/p/hmi/a.toml", "a = 1").is_empty());
}
