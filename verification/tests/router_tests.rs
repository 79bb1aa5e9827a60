use statiker::config::{Config, Proxy, Route, TimeSpan};
use statiker::router::{
    build_compression, build_cors, build_router, confirm_fallback, dispatch, mount_static_route,
    spa_fallback, CompressionPlan, Handler, Mount,
};

#[test]
fn test_build_compression_disabled() {
    let cfg = Config::default();
    assert!(build_compression(&cfg).is_none());
}

#[test]
fn test_build_compression_enabled() {
    let mut cfg = Config::default();
    cfg.compression.enable = true;
    cfg.compression.gzip = true;
    assert!(build_compression(&cfg).is_some());
}

#[test]
fn test_build_compression_enabled_but_no_methods() {
    let mut cfg = Config::default();
    cfg.compression.enable = true;
    cfg.compression.gzip = false;
    cfg.compression.br = false;
    assert!(build_compression(&cfg).is_none());
}

#[test]
fn test_build_cors_disabled() {
    let cfg = Config::default();
    assert!(build_cors(&cfg).is_none());
}

#[test]
fn test_build_cors_enabled_no_origins() {
    let mut cfg = Config::default();
    cfg.security.cors.enabled = true;
    assert!(build_cors(&cfg).is_some());
}

#[test]
fn test_build_cors_enabled_with_origins() {
    let mut cfg = Config::default();
    cfg.security.cors.enabled = true;
    cfg.security.cors.allowed_origins.push("https://example.com".to_string());
    assert!(build_cors(&cfg).is_some());
}

#[test]
fn test_build_cors_enabled_with_methods() {
    let mut cfg = Config::default();
    cfg.security.cors.enabled = true;
    cfg.security.cors.allowed_methods.push("GET".to_string());
    cfg.security.cors.allowed_methods.push("POST".to_string());
    assert!(build_cors(&cfg).is_some());
}

#[test]
fn compression_plan_copies_the_switches() {
    let mut cfg = Config::default();
    cfg.compression.enable = true;
    cfg.compression.gzip = false;
    assert_eq!(build_compression(&cfg), Some(CompressionPlan { gzip: false, br: true }));
    cfg.compression.gzip = true;
    cfg.compression.br = false;
    assert_eq!(build_compression(&cfg), Some(CompressionPlan { gzip: true, br: false }));
}

#[test]
fn cors_plan_keeps_what_is_valid() {
    let mut cfg = Config::default();
    cfg.security.cors.enabled = true;
    let plan = build_cors(&cfg).unwrap();
    assert_eq!(plan.origins, None);
    assert_eq!(plan.methods, vec!["GET", "POST", "PUT", "DELETE", "OPTIONS"]);
    cfg.security.cors.allowed_origins = vec![
        "https://example.com".to_string(),
        "bad\norigin".to_string(),
        "https://b.test".to_string(),
    ];
    cfg.security.cors.allowed_methods =
        vec!["GET".to_string(), "NOT OK".to_string(), "".to_string(), "purge".to_string()];
    let plan = build_cors(&cfg).unwrap();
    assert_eq!(plan.origins, Some(vec!["https://example.com".to_string(), "https://b.test".to_string()]));
    assert_eq!(plan.methods, vec!["GET", "purge"]);
    cfg.security.cors.allowed_origins = vec!["\u{7f}".to_string()];
    let plan = build_cors(&cfg).unwrap();
    assert_eq!(plan.origins, Some(Vec::new()));
}

fn patterns(mounts: &Vec<Mount>) -> Vec<(String, bool)> {
    mounts
        .iter()
        .map(|m| (m.pattern.clone(), matches!(m.handler, Handler::Static)))
        .collect()
}

#[test]
fn no_routes_means_the_root_static_route() {
    let cfg = Config::default();
    let plan = build_router(&cfg);
    assert_eq!(
        patterns(&plan.mounts),
        vec![("/".to_string(), true), ("/*tail".to_string(), true)]
    );
    assert!(plan.conflicts.is_empty());
    assert!(plan.fallback.is_none());
}

#[test]
fn routes_are_mounted_in_order_and_never_both_ways() {
    let upstream = Proxy {
        url: "http://up.test/".to_string(),
        timeout: TimeSpan::zero(),
        add_headers: vec![("X-A".to_string(), "1".to_string())],
    };
    let mut cfg = Config::default();
    cfg.routing = vec![
        Route { path: "/api/".to_string(), serve: None, proxy: Some(upstream.clone()) },
        Route { path: "/static/".to_string(), serve: Some("static".to_string()), proxy: None },
        Route { path: "/both".to_string(), serve: Some("static".to_string()), proxy: Some(upstream.clone()) },
        Route { path: "/none".to_string(), serve: None, proxy: None },
        Route { path: "/odd".to_string(), serve: Some("files".to_string()), proxy: Some(upstream.clone()) },
        Route { path: "/".to_string(), serve: Some("static".to_string()), proxy: None },
    ];
    let plan = build_router(&cfg);
    assert_eq!(
        patterns(&plan.mounts),
        vec![
            ("/api/*tail".to_string(), false),
            ("/static/*tail".to_string(), true),
            ("/both/*tail".to_string(), true),
            ("/odd*tail".to_string(), false),
            ("/".to_string(), true),
            ("/*tail".to_string(), true),
        ]
    );
    assert_eq!(plan.conflicts, vec!["/both"]);
    match &plan.mounts[0].handler {
        Handler::Proxy(state) => {
            assert_eq!(state.target, "http://up.test");
            assert_eq!(state.timeout, TimeSpan::from_secs(5));
            assert_eq!(state.add_headers, vec![("x-a".to_string(), "1".to_string())]);
        },
        Handler::Static => panic!("the first route forwards"),
    }
}

#[test]
fn routes_that_mount_nothing_leave_the_default() {
    let mut cfg = Config::default();
    cfg.routing = vec![Route { path: "/x".to_string(), serve: Some("other".to_string()), proxy: None }];
    let plan = build_router(&cfg);
    assert_eq!(
        patterns(&plan.mounts),
        vec![("/".to_string(), true), ("/*tail".to_string(), true)]
    );
}

#[test]
fn static_route_patterns() {
    let mut mounts = Vec::new();
    mount_static_route(&mut mounts, "/assets");
    mount_static_route(&mut mounts, "/files//");
    mount_static_route(&mut mounts, "/");
    mount_static_route(&mut mounts, "");
    assert_eq!(
        patterns(&mounts),
        vec![
            ("/assets/*tail".to_string(), true),
            ("/files/*tail".to_string(), true),
            ("/".to_string(), true),
            ("/*tail".to_string(), true),
            ("/*tail".to_string(), true),
        ]
    );
}

#[test]
fn spa_fallback_is_resolved_below_the_root() {
    let mut cfg = Config::default();
    cfg.server.root = "/srv/www".to_string();
    cfg.spa.enabled = true;
    let plan = build_router(&cfg);
    let f = plan.fallback.unwrap();
    assert_eq!(f.file, "/srv/www/index.html");
    assert!(!f.replaced);
    let f = spa_fallback("/srv/www", "/app/shell.html");
    assert_eq!(f.file, "/srv/www/app/shell.html");
    assert!(!f.replaced);
    let f = spa_fallback("/srv/www", "//../../etc/passwd");
    assert_eq!(f.file, "/srv/www/index.html");
    assert!(f.replaced);
    let f = spa_fallback("/srv/www", "app/../x.html");
    assert_eq!(f.file, "/srv/www/index.html");
    assert!(f.replaced);
}

#[test]
fn spa_fallback_outside_the_real_root_gives_way() {
    let f = spa_fallback("/srv/www", "link.html");
    let kept = confirm_fallback("/srv/www", f.clone(), Some("/srv/www"), Some("/srv/www/real.html"));
    assert_eq!(kept.file, "/srv/www/link.html");
    assert!(!kept.replaced);
    let kept = confirm_fallback("/srv/www", f.clone(), Some("/srv/www"), None);
    assert_eq!(kept.file, "/srv/www/link.html");
    assert!(!kept.replaced);
    let moved = confirm_fallback("/srv/www", f, Some("/srv/www"), Some("/etc/passwd"));
    assert_eq!(moved.file, "/srv/www/index.html");
    assert!(moved.replaced);
}

fn table() -> Vec<Mount> {
    let upstream = Proxy {
        url: "http://up.test".to_string(),
        timeout: TimeSpan::from_secs(1),
        add_headers: Vec::new(),
    };
    let mut cfg = Config::default();
    cfg.routing = vec![
        Route { path: "/".to_string(), serve: Some("static".to_string()), proxy: None },
        Route { path: "/api/".to_string(), serve: None, proxy: Some(upstream.clone()) },
        Route { path: "/assets".to_string(), serve: Some("static".to_string()), proxy: None },
        Route { path: "/api/v2/".to_string(), serve: None, proxy: Some(upstream) },
    ];
    build_router(&cfg).mounts
}

#[test]
fn dispatch_goes_by_the_longest_literal_part() {
    let mounts = table();
    // "/", "/*tail", "/api/*tail", "/assets/*tail", "/api/v2/*tail"
    assert_eq!(dispatch(&mounts, "/"), Some((0, "".to_string())));
    assert_eq!(dispatch(&mounts, "/index.html"), Some((1, "index.html".to_string())));
    assert_eq!(dispatch(&mounts, "/api/users"), Some((2, "users".to_string())));
    assert_eq!(dispatch(&mounts, "/api/v2/users/7"), Some((4, "users/7".to_string())));
    assert_eq!(dispatch(&mounts, "/api/v2/"), Some((2, "v2/".to_string())));
    assert_eq!(dispatch(&mounts, "/api/"), Some((1, "api/".to_string())));
    assert_eq!(dispatch(&mounts, "/assets/app.js"), Some((3, "app.js".to_string())));
    assert_eq!(dispatch(&mounts, "/assets"), Some((1, "assets".to_string())));
    assert_eq!(dispatch(&mounts, "/assetsx/y"), Some((1, "assetsx/y".to_string())));
    assert_eq!(dispatch(&mounts, ""), None);
    assert_eq!(dispatch(&mounts, "nothing"), None);
}

#[test]
fn dispatch_prefers_the_first_of_equal_patterns_and_finds_none_in_an_empty_table() {
    let mut mounts = Vec::new();
    assert_eq!(dispatch(&mounts, "/a"), None);
    mount_static_route(&mut mounts, "/docs");
    mount_static_route(&mut mounts, "/docs/");
    assert_eq!(dispatch(&mounts, "/docs/a"), Some((0, "a".to_string())));
    assert_eq!(dispatch(&mounts, "/docs/"), None);
    assert_eq!(dispatch(&mounts, "/docs"), None);
    assert_eq!(dispatch(&mounts, "/other/a"), None);
}
