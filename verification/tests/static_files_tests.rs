use fnk0085_smart_car_backend::static_files::{
    content_type_for_essence, guess_content_type, lookup_candidates, static_plan, trim_slashes,
};

#[test]
fn content_types() {
    assert_eq!(guess_content_type("index.html"), "text/html; charset=utf-8");
    assert_eq!(guess_content_type("assets/app.css"), "text/css; charset=utf-8");
    assert_eq!(guess_content_type("logo.png"), "image/png");
    assert_eq!(guess_content_type("data.unknownext"), "application/octet-stream");
    assert_eq!(content_type_for_essence("application/wasm"), "application/wasm");
    assert_eq!(content_type_for_essence("video/mp4"), "application/octet-stream");
}

#[test]
fn candidates_for_paths() {
    assert_eq!(trim_slashes("//a/b"), "a/b");
    assert_eq!(lookup_candidates("/"), vec!["index.html".to_string()]);
    assert_eq!(lookup_candidates(""), vec!["index.html".to_string()]);
    assert_eq!(
        lookup_candidates("/settings"),
        vec!["settings".to_string(), "settings/index.html".to_string()]
    );
}

#[test]
fn static_plans() {
    assert!(static_plan("/api/devices").is_none());
    let p = static_plan("/assets/app.js").unwrap();
    assert!(p.cacheable);
    assert!(!p.spa_fallback);
    let q = static_plan("/control").unwrap();
    assert!(!q.cacheable);
    assert!(q.spa_fallback);
}
