use fnk0085_smart_car_backend::config::{
    default_max_bytes, default_max_frame_bytes, strip_jsonc_comments, AuthConfig, Config, HttpConfig,
    VideoConfig,
};

#[test]
fn strip_comments_keeps_strings() {
    let input = r#"{
            // 注释 1
            "a": "http://x/y", /* 块注释 */
            "b": "/* not comment */"
        }"#;
    let out = strip_jsonc_comments(input);
    assert!(out.contains("\"http://x/y\""));
    assert!(out.contains("\"/* not comment */\""));
    assert!(!out.contains("注释 1"));
    assert!(!out.contains("块注释"));
}

#[test]
fn strip_keeps_escaped_quote_inside_string() {
    let out = strip_jsonc_comments(r#"{"a": "x\"//y"} // tail"#);
    assert_eq!(out, "{\"a\": \"x\\\"//y\"} ");
}

#[test]
fn strip_leaves_plain_json_unchanged() {
    let input = r#"{"http": {"host": "0.0.0.0", "port": 8080}}"#;
    assert_eq!(strip_jsonc_comments(input), input);
}

#[test]
fn strip_line_comment_keeps_newline() {
    assert_eq!(strip_jsonc_comments("a // c\nb"), "a \nb");
    assert_eq!(strip_jsonc_comments("a /* c */b"), "a b");
}

#[test]
fn default_sizes() {
    assert_eq!(default_max_bytes(), 4 * 1024 * 1024);
    assert_eq!(default_max_frame_bytes(), 256 * 1024);
}

#[test]
fn http_addr_joins_host_and_port() {
    let cfg = Config {
        http: HttpConfig { host: "0.0.0.0".to_string(), port: 8080 },
        video: VideoConfig {
            cache_seconds: 1,
            max_devices: 32,
            max_bytes: default_max_bytes(),
            max_frame_bytes: default_max_frame_bytes(),
        },
        auth: AuthConfig {
            token: "change-me-please".to_string(),
            frontend_password: "admin1234".to_string(),
        },
        log_level: "info".to_string(),
    };
    assert_eq!(cfg.http_addr(), "0.0.0.0:8080");
}

#[test]
fn strip_keeps_non_ascii_text() {
    assert_eq!(strip_jsonc_comments("{\"a\": \"é\"} // x"), "{\"a\": \"é\"} ");
    assert_eq!(strip_jsonc_comments("名 /* 注释 */字"), "名 字");
}

#[test]
fn strip_twice_is_strip_once() {
    let input = "a/*x*//b // c\n\"//s\" /";
    let once = strip_jsonc_comments(input);
    assert_eq!(strip_jsonc_comments(&once), once);
}
