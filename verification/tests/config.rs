use meev::config::{split_origins, Config, EnvVars};

const SECRET: &str = "0123456789abcdef0123456789abcdef";

fn env(pairs: &[(&str, &str)]) -> EnvVars {
    EnvVars { vars: pairs.iter().map(|(k, v)| (k.to_string(), v.to_string())).collect() }
}

fn base() -> Vec<(&'static str, &'static str)> {
    vec![("DATABASE_URL", "postgres://u:p@localhost/meev"), ("JWT_SECRET", SECRET)]
}

#[test]
fn defaults_are_applied() {
    let c = Config::from_vars(&env(&base())).unwrap();
    assert_eq!(c.host, "0.0.0.0");
    assert_eq!(c.port, 8080);
    assert_eq!(c.database_url, "postgres://u:p@localhost/meev");
    assert_eq!(c.jwt_access_ttl_secs, 900);
    assert_eq!(c.jwt_refresh_ttl_secs, 2592000);
    assert_eq!(c.db_max_connections, 10);
    assert_eq!(c.rate_limit_requests, 120);
    assert_eq!(c.rate_limit_window_secs, 60);
    assert!(c.mqtt_enabled);
    assert_eq!(c.mqtt_url, "tcp://localhost:1883");
    assert!(c.mqtt_username.is_none());
    assert_eq!(c.ffmpeg_path, "/usr/bin/ffmpeg");
    assert_eq!(c.ffprobe_path, "/usr/bin/ffprobe");
    assert_eq!(c.upload_dir, "./uploads");
    assert_eq!(c.static_dir, "./static");
    assert_eq!(c.max_upload_bytes, 50 * 1024 * 1024);
    assert_eq!(c.cors_origins, vec!["http://localhost:5173", "http://localhost:4173"]);
    assert!(!c.trust_proxy);
    assert_eq!(c.log_level, "info");
    assert!(c.auto_migrate);
    assert_eq!(c.max_message_len, 4000);
    assert_eq!(c.max_attachment_per_message, 1);
    assert_eq!(c.media_timeout_secs, 120);
    assert_eq!(c.media_timeout(), 120);
}

#[test]
fn values_are_read() {
    let mut v = base();
    v.extend([
        ("APP_HOST", "127.0.0.1"),
        ("APP_PORT", "9000"),
        ("MQTT_ENABLED", "false"),
        ("MQTT_USERNAME", "bus"),
        ("TRUST_PROXY", "true"),
        ("MAX_UPLOAD_MB", "2"),
        ("CORS_ORIGINS", " https://a.example , ,https://b.example"),
        ("RATE_LIMIT_REQUESTS", "5"),
        ("MEDIA_TIMEOUT_SECONDS", "+30"),
        ("LOG_LEVEL", "   "),
    ]);
    let c = Config::from_vars(&env(&v)).unwrap();
    assert_eq!(c.host, "127.0.0.1");
    assert_eq!(c.port, 9000);
    assert!(!c.mqtt_enabled);
    assert_eq!(c.mqtt_username.as_deref(), Some("bus"));
    assert!(c.trust_proxy);
    assert_eq!(c.max_upload_bytes, 2 * 1024 * 1024);
    assert_eq!(c.cors_origins, vec!["https://a.example", "https://b.example"]);
    assert_eq!(c.rate_limit_requests, 5);
    assert_eq!(c.media_timeout_secs, 30);
    assert_eq!(c.log_level, "info");
}

#[test]
fn database_url_is_required() {
    let e = env(&[("JWT_SECRET", SECRET)]);
    assert_eq!(
        Config::from_vars(&e).unwrap_err(),
        "Missing required environment variable `DATABASE_URL` in the .env file"
    );
    let e = env(&[("DATABASE_URL", "mysql://x"), ("JWT_SECRET", SECRET)]);
    assert_eq!(
        Config::from_vars(&e).unwrap_err(),
        "`DATABASE_URL` must start with postgres:// or postgresql://"
    );
    let e = env(&[("DATABASE_URL", "postgresql://x"), ("JWT_SECRET", SECRET)]);
    assert!(Config::from_vars(&e).is_ok());
}

#[test]
fn weak_secret_is_refused() {
    let e = env(&[("DATABASE_URL", "postgres://x"), ("JWT_SECRET", "short")]);
    assert_eq!(
        Config::from_vars(&e).unwrap_err(),
        "`JWT_SECRET` is too weak: it must be at least 32 characters (use the generated secret from .env.example)"
    );
    let e = env(&[("DATABASE_URL", "postgres://x")]);
    assert!(Config::from_vars(&e).unwrap_err().starts_with("`JWT_SECRET` is too weak"));
}

#[test]
fn numbers_are_checked() {
    let mut v = base();
    v.push(("APP_PORT", "http"));
    assert_eq!(Config::from_vars(&env(&v)).unwrap_err(), "`APP_PORT` must be an unsigned integer");
    let mut v = base();
    v.push(("JWT_ACCESS_TTL_SECONDS", "59"));
    assert_eq!(Config::from_vars(&env(&v)).unwrap_err(), "`JWT_ACCESS_TTL_SECONDS` must be >= 60");
    let mut v = base();
    v.push(("MEDIA_TIMEOUT_SECONDS", "4"));
    assert_eq!(Config::from_vars(&env(&v)).unwrap_err(), "`MEDIA_TIMEOUT_SECONDS` must be >= 5");
    let mut v = base();
    v.push(("MAX_ATTACHMENTS_PER_MESSAGE", "0"));
    assert_eq!(Config::from_vars(&env(&v)).unwrap().max_attachment_per_message, 0);
}

#[test]
fn first_failing_setting_decides() {
    let mut v = base();
    v.push(("MAX_UPLOAD_MB", "0"));
    v.push(("JWT_ACCESS_TTL_SECONDS", "1"));
    assert_eq!(Config::from_vars(&env(&v)).unwrap_err(), "`MAX_UPLOAD_MB` must be >= 1");
}

#[test]
fn env_lookup_helpers() {
    let e = env(&[("A", "1"), ("B", "  "), ("N", "42")]);
    assert_eq!(e.get("A").as_deref(), Some("1"));
    assert_eq!(e.get("B").as_deref(), Some("  "));
    assert_eq!(e.get_opt("B"), None);
    assert_eq!(e.get("Z"), None);
    assert_eq!(e.get_u64("N", 1, 7), Ok(42));
    assert_eq!(e.get_u64("Z", 1, 7), Ok(7));
}

#[test]
fn origins_are_split() {
    assert_eq!(split_origins("a, b ,,c"), vec!["a", "b", "c"]);
    assert!(split_origins(" , ").is_empty());
}

#[test]
fn bind_address_joins_host_and_port() {
    let mut v = base();
    v.push(("APP_HOST", "127.0.0.1"));
    v.push(("APP_PORT", "9001"));
    assert_eq!(Config::from_vars(&env(&v)).unwrap().bind_address(), "127.0.0.1:9001");
    assert_eq!(Config::from_vars(&env(&base())).unwrap().bind_address(), "0.0.0.0:8080");
}

#[test]
fn values_beyond_their_field_are_refused() {
    let mut v = base();
    v.push(("APP_PORT", "70000"));
    assert_eq!(Config::from_vars(&env(&v)).unwrap_err(), "`APP_PORT` must be <= 65535");
    let mut v = base();
    v.push(("APP_PORT", "65536"));
    assert_eq!(Config::from_vars(&env(&v)).unwrap_err(), "`APP_PORT` must be <= 65535");
    let mut v = base();
    v.push(("APP_PORT", "65535"));
    assert_eq!(Config::from_vars(&env(&v)).unwrap().port, 65535);
    let mut v = base();
    v.push(("RATE_LIMIT_REQUESTS", "4294967296"));
    assert_eq!(Config::from_vars(&env(&v)).unwrap_err(), "`RATE_LIMIT_REQUESTS` must be <= 4294967295");
    let mut v = base();
    v.push(("DB_MAX_CONNECTIONS", "4294967296"));
    assert_eq!(Config::from_vars(&env(&v)).unwrap_err(), "`DB_MAX_CONNECTIONS` must be <= 4294967295");
    let mut v = base();
    v.push(("JWT_ACCESS_TTL_SECONDS", "9223372036854775808"));
    assert_eq!(
        Config::from_vars(&env(&v)).unwrap_err(),
        "`JWT_ACCESS_TTL_SECONDS` must be <= 9223372036854775807"
    );
    let mut v = base();
    v.push(("MAX_UPLOAD_MB", "17592186044416"));
    assert_eq!(Config::from_vars(&env(&v)).unwrap_err(), "`MAX_UPLOAD_MB` must be <= 17592186044415");
    let mut v = base();
    v.push(("MAX_UPLOAD_MB", "17592186044415"));
    assert_eq!(Config::from_vars(&env(&v)).unwrap().max_upload_bytes, 17592186044415 * 1048576);
}

#[test]
fn bounded_lookup_refuses_large_values() {
    let e = env(&[("N", "42")]);
    assert_eq!(e.get_bounded("N", 1, 7, 42), Ok(42));
    assert_eq!(e.get_bounded("N", 1, 7, 41), Err("`N` must be <= 41".to_string()));
    assert_eq!(e.get_bounded("Z", 1, 7, 41), Ok(7));
}

#[test]
fn wildcard_origin_allows_any() {
    let mut v = base();
    v.push(("CORS_ORIGINS", "https://a.example, *"));
    assert!(Config::from_vars(&env(&v)).unwrap().allows_any_origin());
    assert!(!Config::from_vars(&env(&base())).unwrap().allows_any_origin());
}
