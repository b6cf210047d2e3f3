use json_eval_rs::paths::{normalize_ref_path, normalize_to_json_pointer, ref_path_to_dotted};
use json_eval_rs::RLogicConfig;

#[test]
fn config_presets() {
    let d = RLogicConfig::new();
    assert!(d.enable_tracking);
    assert!(!d.safe_nan_handling);
    assert_eq!(d.recursion_limit, 1000);
    assert_eq!(d.timezone_offset, None);
    let p = RLogicConfig::performance();
    assert!(!p.enable_tracking && !p.safe_nan_handling);
    let s = RLogicConfig::safe();
    assert!(s.enable_tracking && s.safe_nan_handling);
    let m = RLogicConfig::minimal();
    assert!(!m.enable_tracking && !m.safe_nan_handling);
}

#[test]
fn config_builders() {
    let c = RLogicConfig::new()
        .with_tracking(false)
        .with_safe_nan(true)
        .with_recursion_limit(200)
        .with_timezone_offset(-300);
    assert!(!c.enable_tracking);
    assert!(c.safe_nan_handling);
    assert_eq!(c.recursion_limit, 200);
    assert_eq!(c.timezone_offset, Some(-300));
    assert_eq!(RLogicConfig::default().recursion_limit, 1000);
}

#[test]
fn json_pointer_forms() {
    assert_eq!(normalize_to_json_pointer(""), "");
    assert_eq!(normalize_to_json_pointer("#/a/b"), "/a/b");
    assert_eq!(normalize_to_json_pointer("/a/b"), "/a/b");
    assert_eq!(normalize_to_json_pointer("a.b.c"), "/a/b/c");
    assert_eq!(normalize_ref_path("user.name"), "/user/name");
}

#[test]
fn dotted_ref_forms() {
    for p in ["field", "/field", "#/field", "properties.field", "/properties/field", "#/properties/field"] {
        assert_eq!(ref_path_to_dotted(p), "field", "path {}", p);
    }
    assert_eq!(ref_path_to_dotted("#/properties/user/properties/active"), "user.active");
    assert_eq!(ref_path_to_dotted("a..b."), "a.b");
}
