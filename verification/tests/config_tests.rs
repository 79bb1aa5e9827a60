use statiker::cli::{config_summary, Cli, CliError};
use statiker::config::{Config, Proxy, Route, TimeSpan};

#[test]
fn test_print_config() {
    let cfg = Config::default();
    // Just verify it doesn't panic
    let lines = config_summary(&cfg);
    assert!(!lines.is_empty());
}

#[test]
fn defaults_are_as_documented() {
    let cfg = Config::default();
    assert_eq!(cfg.server.host, "0.0.0.0");
    assert_eq!(cfg.server.port, 8080);
    assert_eq!(cfg.server.root, ".");
    assert_eq!(cfg.server.index, "index.html");
    assert!(!cfg.server.auto_index);
    assert!(!cfg.tls.enabled);
    assert_eq!(cfg.tls.cert_path, "");
    assert_eq!(cfg.tls.key_path, "");
    assert!(cfg.routing.is_empty());
    assert!(!cfg.spa.enabled);
    assert_eq!(cfg.spa.fallback, "index.html");
    assert!(!cfg.assets.cache.enabled);
    assert_eq!(cfg.assets.cache.max_age, TimeSpan::from_secs(3600));
    assert!(cfg.assets.cache.etag);
    assert!(!cfg.compression.enable);
    assert!(cfg.compression.gzip);
    assert!(cfg.compression.br);
    assert!(!cfg.security.cors.enabled);
    assert!(cfg.security.cors.allowed_origins.is_empty());
    assert!(cfg.security.cors.allowed_methods.is_empty());
    assert!(!cfg.security.rate_limit.enabled);
    assert_eq!(cfg.security.rate_limit.requests_per_min, 60);
    assert!(cfg.security.headers.is_empty());
    assert_eq!(cfg.obs.level, "info");
    let route = Route::default();
    assert_eq!(route.path, "/");
    assert!(route.serve.is_none());
    assert!(route.proxy.is_none());
    let proxy = Proxy::default();
    assert_eq!(proxy.url, "");
    assert!(proxy.timeout.is_zero());
    assert!(proxy.add_headers.is_empty());
    assert_eq!(Cli::with_default_config().config, "statiker.yaml");
}

#[test]
fn time_span_basics() {
    assert_eq!(TimeSpan::zero(), TimeSpan { secs: 0, nanos: 0 });
    assert!(TimeSpan::zero().is_zero());
    assert!(!TimeSpan { secs: 0, nanos: 1 }.is_zero());
    assert!(!TimeSpan::from_secs(1).is_zero());
    assert_eq!(TimeSpan { secs: 7, nanos: 999_999_999 }.as_secs(), 7);
}

#[test]
fn summary_of_the_default_configuration() {
    let lines = config_summary(&Config::default());
    assert_eq!(
        lines,
        vec![
            "=== Configuration ===",
            "Server: 0.0.0.0:8080",
            "Root: .",
            "Index: index.html",
            "Auto-index: false",
            "Routes: default (serve static at /)",
            "Log level: info",
            "====================",
        ]
    );
}

#[test]
fn summary_of_a_full_configuration() {
    let mut cfg = Config::default();
    cfg.server.host = "127.0.0.1".to_string();
    cfg.server.port = 65535;
    cfg.server.root = "/srv/www".to_string();
    cfg.server.auto_index = true;
    cfg.tls.enabled = true;
    cfg.routing = vec![
        Route { path: "/".to_string(), serve: Some("static".to_string()), proxy: None },
        Route { path: "/api".to_string(), serve: None, proxy: Some(Proxy::default()) },
        Route { path: "/both".to_string(), serve: Some("static".to_string()), proxy: Some(Proxy::default()) },
        Route { path: "/none".to_string(), serve: None, proxy: None },
    ];
    cfg.spa.enabled = true;
    cfg.spa.fallback = "app.html".to_string();
    cfg.compression.enable = true;
    cfg.security.cors.enabled = true;
    cfg.security.rate_limit.enabled = true;
    cfg.security.rate_limit.requests_per_min = 120;
    cfg.security.headers = vec![("a".to_string(), "b".to_string()), ("c".to_string(), "d".to_string())];
    cfg.assets.cache.enabled = true;
    cfg.assets.cache.max_age = TimeSpan { secs: 86400, nanos: 5 };
    cfg.obs.level = "debug".to_string();
    assert_eq!(
        config_summary(&cfg),
        vec![
            "=== Configuration ===",
            "Server: 127.0.0.1:65535",
            "Root: /srv/www",
            "Index: index.html",
            "Auto-index: true",
            "TLS: enabled",
            "Routes: 4",
            "  - / -> serve: static",
            "  - /api -> proxy",
            "  - /both -> serve: static",
            "  - /both -> proxy",
            "SPA: enabled (fallback: app.html)",
            "Compression: enabled (gzip, brotli)",
            "CORS: enabled",
            "Rate limit: 120 req/min",
            "Security headers: 2 configured",
            "Asset cache: enabled (max-age: 86400s)",
            "Log level: debug",
            "====================",
        ]
    );
    cfg.compression.br = false;
    assert!(config_summary(&cfg).contains(&"Compression: enabled (gzip)".to_string()));
    cfg.compression.gzip = false;
    assert!(config_summary(&cfg).contains(&"Compression: enabled ()".to_string()));
    cfg.compression.br = true;
    assert!(config_summary(&cfg).contains(&"Compression: enabled (brotli)".to_string()));
}

#[test]
fn test_cli_parse_default() {
    // Test default value
    let cli = Cli::parse_from(vec!["statiker"]).unwrap();
    assert_eq!(cli.config, "statiker.yaml");
}

#[test]
fn test_cli_parse_long_flag() {
    // Test long flag
    let cli = Cli::parse_from(vec!["statiker", "--config", "custom.yaml"]).unwrap();
    assert_eq!(cli.config, "custom.yaml");
}

#[test]
fn test_cli_parse_short_flag() {
    // Test short flag
    let cli = Cli::parse_from(vec!["statiker", "-c", "short.yaml"]).unwrap();
    assert_eq!(cli.config, "short.yaml");
}

#[test]
fn cli_refuses_what_it_does_not_know() {
    assert!(Cli::parse_from(vec!["statiker", "--nope"]).is_err());
    assert!(Cli::parse_from(vec!["statiker", "--config"]).is_err());
    assert!(Cli::parse_from(vec!["statiker", "stray"]).is_err());
    let cli = Cli::parse_from(vec!["statiker", "--config=eq.yaml"]).unwrap();
    assert_eq!(cli.config, "eq.yaml");
}

#[test]
fn cli_reading_decides_before_the_fallback() {
    let named = Cli::from_reading(Ok(Some("a.yaml".to_string())), Ok("env.yaml".to_string())).unwrap();
    assert_eq!(named.config, "a.yaml");
    let named = Cli::from_reading(Ok(Some("a.yaml".to_string())), Err("bad env".to_string())).unwrap();
    assert_eq!(named.config, "a.yaml");
    let silent = Cli::from_reading(Ok(None), Ok("env.yaml".to_string())).unwrap();
    assert_eq!(silent.config, "env.yaml");
    assert_eq!(
        Cli::from_reading(Ok(None), Err("bad env".to_string())).err(),
        Some(CliError { message: "bad env".to_string() })
    );
    assert_eq!(
        Cli::from_reading(Err("refused".to_string()), Ok("env.yaml".to_string())).err(),
        Some(CliError { message: "refused".to_string() })
    );
}

#[test]
fn cli_takes_the_usual_spellings_of_the_option() {
    for args in [
        vec!["statiker", "-c", "x.yaml"],
        vec!["statiker", "-cx.yaml"],
        vec!["statiker", "-c=x.yaml"],
        vec!["statiker", "--config", "x.yaml"],
        vec!["statiker", "--config=x.yaml"],
    ] {
        assert_eq!(Cli::parse_from(args).unwrap().config, "x.yaml");
    }
    assert!(Cli::parse_from(vec!["statiker", "-c", "a", "-c", "b"]).is_err());
    assert!(Cli::parse_from(vec!["statiker", "--help"]).is_err());
    assert!(Cli::parse_from(Vec::new()).is_ok());
}

#[test]
fn cli_outcome_is_passed_on() {
    let cli = Cli::from_parsed(Ok("a.yaml".to_string())).unwrap();
    assert_eq!(cli.config, "a.yaml");
    assert_eq!(Cli::from_parsed(Err("bad".to_string())).err(), Some(CliError { message: "bad".to_string() }));
}
