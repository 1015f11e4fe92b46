//! Configuration: every setting comes from the environment (loaded from a
//! `.env` file); each value is validated and the first problem is reported
//! with a clear message.
use vstd::prelude::*;
use vstd::utf8::encode_utf8;

use crate::error::{concat, str_eq};
use crate::text::{
    byte_len, chars_of, decimal_text, has_prefix, opt_view, parse_u64, parse_u64_spec,
    starts_with_chars, string_of, trim, trim_chars, u64_text, utf8_len,
};

verus! {

/// The environment, as (name, value) pairs of valid Unicode.
#[derive(Debug)]
pub struct EnvVars {
    pub vars: Vec<(String, String)>,
}

pub open spec fn env_view(e: &EnvVars) -> Seq<(Seq<char>, Seq<char>)> {
    e.vars@.map_values(|p: (String, String)| (p.0@, p.1@))
}

/// The value of the first variable named `k`.
pub open spec fn env_get(e: Seq<(Seq<char>, Seq<char>)>, k: Seq<char>) -> Option<Seq<char>>
    decreases e.len(),
{
    if e.len() == 0 {
        None
    } else if e[0].0 == k {
        Some(e[0].1)
    } else {
        env_get(e.drop_first(), k)
    }
}

/// A variable that is set to something other than blanks.
pub open spec fn env_opt(e: Seq<(Seq<char>, Seq<char>)>, k: Seq<char>) -> Option<Seq<char>> {
    match env_get(e, k) {
        Some(v) => if trim(v).len() > 0 {
            Some(v)
        } else {
            None
        },
        None => None,
    }
}

pub open spec fn or_default(v: Option<Seq<char>>, d: Seq<char>) -> Seq<char> {
    match v {
        Some(x) => x,
        None => d,
    }
}

pub open spec fn msg_missing(k: Seq<char>) -> Seq<char> {
    "Missing required environment variable `"@ + k + "` in the .env file"@
}

pub open spec fn msg_not_unsigned(k: Seq<char>) -> Seq<char> {
    "`"@ + k + "` must be an unsigned integer"@
}

pub open spec fn msg_below(k: Seq<char>, min: u64) -> Seq<char> {
    "`"@ + k + "` must be >= "@ + decimal_text(min as nat)
}

/// An optional unsigned setting with a lower bound and a default.
pub open spec fn env_u64(e: Seq<(Seq<char>, Seq<char>)>, k: Seq<char>, min: u64, default: u64) -> Result<u64, Seq<char>> {
    match env_opt(e, k) {
        Some(raw) => match parse_u64_spec(raw) {
            Some(v) => if v < min {
                Err(msg_below(k, min))
            } else {
                Ok(v)
            },
            None => Err(msg_not_unsigned(k)),
        },
        None => Ok(default),
    }
}

pub open spec fn msg_above(k: Seq<char>, max: u64) -> Seq<char> {
    "`"@ + k + "` must be <= "@ + decimal_text(max as nat)
}

/// An optional unsigned setting between `min` and `max`, else `default`:
/// a value that does not fit the field it is stored in is refused.
pub open spec fn env_bounded(
    e: Seq<(Seq<char>, Seq<char>)>,
    k: Seq<char>,
    min: u64,
    default: u64,
    max: u64,
) -> Result<u64, Seq<char>> {
    match env_u64(e, k, min, default) {
        Ok(v) => if v > max {
            Err(msg_above(k, max))
        } else {
            Ok(v)
        },
        Err(m) => Err(m),
    }
}

/// The largest upload limit in megabytes whose byte count fits a `usize`.
pub open spec fn max_upload_mb() -> u64 {
    (usize::MAX / 1048576) as u64
}

/// Whether a setting equals `true`.
pub open spec fn env_flag(e: Seq<(Seq<char>, Seq<char>)>, k: Seq<char>, default: Seq<char>) -> bool {
    or_default(env_opt(e, k), default) == "true"@
}

/// The comma-separated list: parts trimmed, empty parts dropped.
pub open spec fn split_list(s: Seq<char>) -> Seq<Seq<char>>
    decreases s.len(),
{
    let end = crate::auth::span_until(s, ',') as int;
    let part = trim(s.take(end));
    let rest = if end >= s.len() {
        Seq::<Seq<char>>::empty()
    } else {
        split_list(s.skip(end + 1))
    };
    if part.len() == 0 {
        rest
    } else {
        seq![part] + rest
    }
}

#[derive(Debug, Clone)]
pub struct Config {
    pub host: String,
    pub port: u16,
    pub database_url: String,
    pub jwt_secret: String,
    pub jwt_access_ttl_secs: i64,
    pub jwt_refresh_ttl_secs: i64,
    pub db_max_connections: u32,
    pub rate_limit_requests: u32,
    pub rate_limit_window_secs: u64,
    pub mqtt_enabled: bool,
    pub mqtt_url: String,
    pub mqtt_username: Option<String>,
    pub mqtt_password: Option<String>,
    pub ffmpeg_path: String,
    pub ffprobe_path: String,
    pub upload_dir: String,
    pub static_dir: String,
    pub max_upload_bytes: usize,
    pub cors_origins: Vec<String>,
    pub trust_proxy: bool,
    pub log_level: String,
    pub auto_migrate: bool,
    pub max_message_len: usize,
    pub max_attachment_per_message: usize,
    pub media_timeout_secs: u64,
}

/// Model of a [`Config`].
pub struct ConfigView {
    pub host: Seq<char>,
    pub port: u16,
    pub database_url: Seq<char>,
    pub jwt_secret: Seq<char>,
    pub jwt_access_ttl_secs: i64,
    pub jwt_refresh_ttl_secs: i64,
    pub db_max_connections: u32,
    pub rate_limit_requests: u32,
    pub rate_limit_window_secs: u64,
    pub mqtt_enabled: bool,
    pub mqtt_url: Seq<char>,
    pub mqtt_username: Option<Seq<char>>,
    pub mqtt_password: Option<Seq<char>>,
    pub ffmpeg_path: Seq<char>,
    pub ffprobe_path: Seq<char>,
    pub upload_dir: Seq<char>,
    pub static_dir: Seq<char>,
    pub max_upload_bytes: usize,
    pub cors_origins: Seq<Seq<char>>,
    pub trust_proxy: bool,
    pub log_level: Seq<char>,
    pub auto_migrate: bool,
    pub max_message_len: usize,
    pub max_attachment_per_message: usize,
    pub media_timeout_secs: u64,
}

impl View for Config {
    type V = ConfigView;

    open spec fn view(&self) -> ConfigView {
        ConfigView {
            host: self.host@,
            port: self.port,
            database_url: self.database_url@,
            jwt_secret: self.jwt_secret@,
            jwt_access_ttl_secs: self.jwt_access_ttl_secs,
            jwt_refresh_ttl_secs: self.jwt_refresh_ttl_secs,
            db_max_connections: self.db_max_connections,
            rate_limit_requests: self.rate_limit_requests,
            rate_limit_window_secs: self.rate_limit_window_secs,
            mqtt_enabled: self.mqtt_enabled,
            mqtt_url: self.mqtt_url@,
            mqtt_username: opt_view(self.mqtt_username),
            mqtt_password: opt_view(self.mqtt_password),
            ffmpeg_path: self.ffmpeg_path@,
            ffprobe_path: self.ffprobe_path@,
            upload_dir: self.upload_dir@,
            static_dir: self.static_dir@,
            max_upload_bytes: self.max_upload_bytes,
            cors_origins: self.cors_origins@.map_values(|s: String| s@),
            trust_proxy: self.trust_proxy,
            log_level: self.log_level@,
            auto_migrate: self.auto_migrate,
            max_message_len: self.max_message_len,
            max_attachment_per_message: self.max_attachment_per_message,
            media_timeout_secs: self.media_timeout_secs,
        }
    }
}

/// Upload limit in bytes: megabytes times 1 MiB.
pub open spec fn upload_bytes(mb: u64) -> usize {
    (mb * 1048576) as usize
}

pub open spec fn msg_bad_database_url() -> Seq<char> {
    "`DATABASE_URL` must start with postgres:// or postgresql://"@
}

pub open spec fn msg_weak_secret() -> Seq<char> {
    "`JWT_SECRET` is too weak: it must be at least 32 characters (use the generated secret from .env.example)"@
}

/// The settings after the database URL and secret checks, in the order
/// they are read; the first failing one decides the error.
pub open spec fn config_rest(
    e: Seq<(Seq<char>, Seq<char>)>,
    host: Seq<char>,
    port: u64,
    db: Seq<char>,
    secret: Seq<char>,
) -> Result<ConfigView, Seq<char>> {
    let mb = env_bounded(e, "MAX_UPLOAD_MB"@, 1, 50, max_upload_mb());
    let access = env_bounded(e, "JWT_ACCESS_TTL_SECONDS"@, 60, 900, i64::MAX as u64);
    let refresh = env_bounded(e, "JWT_REFRESH_TTL_SECONDS"@, 3600, 2592000, i64::MAX as u64);
    let dbmax = env_bounded(e, "DB_MAX_CONNECTIONS"@, 1, 10, u32::MAX as u64);
    let rl = env_bounded(e, "RATE_LIMIT_REQUESTS"@, 1, 120, u32::MAX as u64);
    let rlw = env_u64(e, "RATE_LIMIT_WINDOW_SECONDS"@, 1, 60);
    let msglen = env_bounded(e, "MAX_MESSAGE_LENGTH"@, 1, 4000, usize::MAX as u64);
    let att = env_bounded(e, "MAX_ATTACHMENTS_PER_MESSAGE"@, 0, 1, usize::MAX as u64);
    let mt = env_u64(e, "MEDIA_TIMEOUT_SECONDS"@, 5, 120);
    if mb is Err {
        Err(mb->Err_0)
    } else if access is Err {
        Err(access->Err_0)
    } else if refresh is Err {
        Err(refresh->Err_0)
    } else if dbmax is Err {
        Err(dbmax->Err_0)
    } else if rl is Err {
        Err(rl->Err_0)
    } else if rlw is Err {
        Err(rlw->Err_0)
    } else if msglen is Err {
        Err(msglen->Err_0)
    } else if att is Err {
        Err(att->Err_0)
    } else if mt is Err {
        Err(mt->Err_0)
    } else {
        Ok(
            ConfigView {
                host,
                port: port as u16,
                database_url: db,
                jwt_secret: secret,
                jwt_access_ttl_secs: access->Ok_0 as i64,
                jwt_refresh_ttl_secs: refresh->Ok_0 as i64,
                db_max_connections: dbmax->Ok_0 as u32,
                rate_limit_requests: rl->Ok_0 as u32,
                rate_limit_window_secs: rlw->Ok_0,
                mqtt_enabled: env_flag(e, "MQTT_ENABLED"@, "true"@),
                mqtt_url: or_default(env_opt(e, "MQTT_URL"@), "tcp://localhost:1883"@),
                mqtt_username: env_opt(e, "MQTT_USERNAME"@),
                mqtt_password: env_opt(e, "MQTT_PASSWORD"@),
                ffmpeg_path: or_default(env_opt(e, "FFMPEG_PATH"@), "/usr/bin/ffmpeg"@),
                ffprobe_path: or_default(env_opt(e, "FFPROBE_PATH"@), "/usr/bin/ffprobe"@),
                upload_dir: or_default(env_opt(e, "UPLOAD_DIR"@), "./uploads"@),
                static_dir: or_default(env_opt(e, "STATIC_DIR"@), "./static"@),
                max_upload_bytes: upload_bytes(mb->Ok_0),
                cors_origins: split_list(
                    or_default(
                        env_opt(e, "CORS_ORIGINS"@),
                        "http://localhost:5173,http://localhost:4173"@,
                    ),
                ),
                trust_proxy: env_flag(e, "TRUST_PROXY"@, "false"@),
                log_level: or_default(env_opt(e, "LOG_LEVEL"@), "info"@),
                auto_migrate: env_flag(e, "AUTO_MIGRATE"@, "true"@),
                max_message_len: msglen->Ok_0 as usize,
                max_attachment_per_message: att->Ok_0 as usize,
                media_timeout_secs: mt->Ok_0,
            },
        )
    }
}

/// The whole configuration, or the first error.
pub open spec fn config_outcome(e: Seq<(Seq<char>, Seq<char>)>) -> Result<ConfigView, Seq<char>> {
    let host = or_default(env_opt(e, "APP_HOST"@), "0.0.0.0"@);
    let port = env_bounded(e, "APP_PORT"@, 1, 8080, 65535);
    let db = env_get(e, "DATABASE_URL"@);
    let secret = or_default(env_opt(e, "JWT_SECRET"@), Seq::empty());
    if port is Err {
        Err(port->Err_0)
    } else if db is None {
        Err(msg_missing("DATABASE_URL"@))
    } else if !has_prefix(db->0, "postgres://"@) && !has_prefix(db->0, "postgresql://"@) {
        Err(msg_bad_database_url())
    } else if utf8_len(secret) < 32 {
        Err(msg_weak_secret())
    } else {
        config_rest(e, host, port->Ok_0, db->0, secret)
    }
}

pub open spec fn config_result(r: Result<Config, String>) -> Result<ConfigView, Seq<char>> {
    match r {
        Ok(c) => Ok(c@),
        Err(m) => Err(m@),
    }
}

impl EnvVars {
    /// The value of the variable named `k`.
    pub fn get(&self, k: &str) -> (r: Option<String>)
        ensures
            opt_view(r) == env_get(env_view(self), k@),
    {
        let mut i: usize = 0;
        assert(env_view(self).skip(0) =~= env_view(self));
        while i < self.vars.len()
            invariant
                i <= self.vars@.len(),
                env_get(env_view(self), k@) == env_get(env_view(self).skip(i as int), k@),
            decreases self.vars@.len() - i,
        {
            let ghost rest = env_view(self).skip(i as int);
            assert(rest[0] == (self.vars@[i as int].0@, self.vars@[i as int].1@));
            if str_eq(self.vars[i].0.as_str(), k) {
                return Some(self.vars[i].1.clone());
            }
            assert(rest.drop_first() =~= env_view(self).skip(i + 1));
            i = i + 1;
        }
        None
    }

    /// The value of `k` when it is set to something other than blanks.
    pub fn get_opt(&self, k: &str) -> (r: Option<String>)
        ensures
            opt_view(r) == env_opt(env_view(self), k@),
    {
        match self.get(k) {
            Some(v) => {
                let t = trim_chars(chars_of(v.as_str()).as_slice());
                if t.len() > 0 {
                    Some(v)
                } else {
                    None
                }
            },
            None => None,
        }
    }

    fn or_default(&self, k: &str, d: &str) -> (r: String)
        ensures
            r@ == or_default(env_opt(env_view(self), k@), d@),
    {
        match self.get_opt(k) {
            Some(v) => v,
            None => d.to_owned(),
        }
    }

    fn flag(&self, k: &str, d: &str) -> (r: bool)
        ensures
            r == env_flag(env_view(self), k@, d@),
    {
        let v = self.or_default(k, d);
        str_eq(v.as_str(), "true")
    }

    /// An optional unsigned setting at least `min`, else `default`.
    pub fn get_u64(&self, k: &str, min: u64, default: u64) -> (r: Result<u64, String>)
        ensures
            match r {
                Ok(v) => env_u64(env_view(self), k@, min, default) == Ok::<u64, Seq<char>>(v),
                Err(m) => env_u64(env_view(self), k@, min, default) == Err::<u64, Seq<char>>(m@),
            },
    {
        match self.get_opt(k) {
            Some(raw) => {
                let cs = chars_of(raw.as_str());
                match parse_u64(cs.as_slice()) {
                    Some(v) => {
                        if v < min {
                            let a = concat("`", k);
                            let b = concat(a.as_str(), "` must be >= ");
                            let n = u64_text(min);
                            Err(concat(b.as_str(), n.as_str()))
                        } else {
                            Ok(v)
                        }
                    },
                    None => {
                        let a = concat("`", k);
                        Err(concat(a.as_str(), "` must be an unsigned integer"))
                    },
                }
            },
            None => Ok(default),
        }
    }
}

impl EnvVars {
    /// An optional unsigned setting between `min` and `max`, else `default`.
    pub fn get_bounded(&self, k: &str, min: u64, default: u64, max: u64) -> (r: Result<u64, String>)
        ensures
            match r {
                Ok(v) => env_bounded(env_view(self), k@, min, default, max) == Ok::<u64, Seq<char>>(v),
                Err(m) => env_bounded(env_view(self), k@, min, default, max) == Err::<u64, Seq<char>>(m@),
            },
    {
        match self.get_u64(k, min, default) {
            Ok(v) => {
                if v > max {
                    let a = concat("`", k);
                    let b = concat(a.as_str(), "` must be <= ");
                    let n = u64_text(max);
                    proof {
                        reveal_strlit("`");
                        reveal_strlit("` must be <= ");
                    }
                    Err(concat(b.as_str(), n.as_str()))
                } else {
                    Ok(v)
                }
            },
            Err(m) => Err(m),
        }
    }
}

/// Splits a comma-separated list, trimming parts and dropping empty ones.
pub fn split_origins(s: &str) -> (r: Vec<String>)
    ensures
        r@.map_values(|x: String| x@) == split_list(s@),
{
    let v = chars_of(s);
    let mut out: Vec<String> = Vec::new();
    let mut start: usize = 0;
    assert(v@.skip(0) =~= v@);
    assert(out@.map_values(|x: String| x@) =~= Seq::<Seq<char>>::empty());
    loop
        invariant
            v@ == s@,
            start <= v@.len(),
            split_list(s@) == out@.map_values(|x: String| x@) + split_list(v@.skip(start as int)),
        decreases v@.len() - start,
    {
        let ghost rest = v@.skip(start as int);
        let mut end: usize = start;
        while end < v.len() && v[end] != ','
            invariant
                start <= end <= v@.len(),
                forall|j: int| start <= j < end ==> v@[j] != ',',
            decreases v@.len() - end,
        {
            end = end + 1;
        }
        proof {
            assert forall|j: int| 0 <= j < end - start implies rest[j] != ',' by {
                assert(rest[j] == v@[start + j]);
            }
            if end < v.len() {
                assert(rest[end - start] == v@[end as int]);
            }
            crate::auth::lemma_span_until(rest, ',', end - start);
        }
        let mut part: Vec<char> = Vec::new();
        let mut k: usize = start;
        while k < end
            invariant
                start <= k <= end <= v@.len(),
                part@ == v@.subrange(start as int, k as int),
            decreases end - k,
        {
            part.push(v[k]);
            assert(v@.subrange(start as int, k + 1) =~= v@.subrange(start as int, k as int).push(v@[k as int]));
            k = k + 1;
        }
        assert(part@ =~= rest.take(end - start));
        let t = trim_chars(part.as_slice());
        let ghost before = out@.map_values(|x: String| x@);
        if t.len() > 0 {
            out.push(string_of(t.as_slice()));
            assert(out@.map_values(|x: String| x@) =~= before.push(t@));
        }
        if end == v.len() {
            proof {
                assert(split_list(rest) == (if t@.len() == 0 {
                    Seq::<Seq<char>>::empty()
                } else {
                    seq![t@]
                }));
                assert(out@.map_values(|x: String| x@) =~= before + split_list(rest));
            }
            return out;
        }
        proof {
            assert(rest.skip(end - start + 1) =~= v@.skip(end + 1));
            assert(out@.map_values(|x: String| x@) + split_list(v@.skip(end + 1)) =~= before
                + split_list(rest));
        }
        start = end + 1;
    }
}


impl Config {
    /// Reads and validates every setting; the first problem is returned as
    /// a message naming the variable.
    pub fn from_vars(env: &EnvVars) -> (r: Result<Config, String>)
        ensures
            config_result(r) == config_outcome(env_view(env)),
    {
        let host = env.or_default("APP_HOST", "0.0.0.0");
        let port = match env.get_bounded("APP_PORT", 1, 8080, 65535) {
            Ok(p) => p,
            Err(m) => return Err(m),
        };
        let database_url = match env.get("DATABASE_URL") {
            Some(u) => u,
            None => {
                let a = concat("Missing required environment variable `", "DATABASE_URL");
                return Err(concat(a.as_str(), "` in the .env file"));
            },
        };
        let dv = chars_of(database_url.as_str());
        let p1: Vec<char> = chars_of("postgres://");
        let p2: Vec<char> = chars_of("postgresql://");
        if !starts_with_chars(dv.as_slice(), p1.as_slice()) && !starts_with_chars(dv.as_slice(), p2.as_slice()) {
            return Err("`DATABASE_URL` must start with postgres:// or postgresql://".to_owned());
        }
        let jwt_secret = match env.get_opt("JWT_SECRET") {
            Some(s) => s,
            None => String::new(),
        };
        if byte_len(jwt_secret.as_str()) < 32 {
            return Err("`JWT_SECRET` is too weak: it must be at least 32 characters (use the generated secret from .env.example)".to_owned());
        }
        let ffmpeg_path = env.or_default("FFMPEG_PATH", "/usr/bin/ffmpeg");
        let ffprobe_path = env.or_default("FFPROBE_PATH", "/usr/bin/ffprobe");
        let upload_dir = env.or_default("UPLOAD_DIR", "./uploads");
        let static_dir = env.or_default("STATIC_DIR", "./static");
        let mb = match env.get_bounded("MAX_UPLOAD_MB", 1, 50, (usize::MAX / 1048576) as u64) {
            Ok(v) => v,
            Err(m) => return Err(m),
        };
        let cors = env.or_default("CORS_ORIGINS", "http://localhost:5173,http://localhost:4173");
        let cors_origins = split_origins(cors.as_str());
        let mqtt_enabled = env.flag("MQTT_ENABLED", "true");
        let access = match env.get_bounded("JWT_ACCESS_TTL_SECONDS", 60, 900, i64::MAX as u64) {
            Ok(v) => v,
            Err(m) => return Err(m),
        };
        let refresh = match env.get_bounded("JWT_REFRESH_TTL_SECONDS", 3600, 2592000, i64::MAX as u64) {
            Ok(v) => v,
            Err(m) => return Err(m),
        };
        let dbmax = match env.get_bounded("DB_MAX_CONNECTIONS", 1, 10, u32::MAX as u64) {
            Ok(v) => v,
            Err(m) => return Err(m),
        };
        let rl = match env.get_bounded("RATE_LIMIT_REQUESTS", 1, 120, u32::MAX as u64) {
            Ok(v) => v,
            Err(m) => return Err(m),
        };
        let rlw = match env.get_u64("RATE_LIMIT_WINDOW_SECONDS", 1, 60) {
            Ok(v) => v,
            Err(m) => return Err(m),
        };
        let mqtt_url = env.or_default("MQTT_URL", "tcp://localhost:1883");
        let mqtt_username = env.get_opt("MQTT_USERNAME");
        let mqtt_password = env.get_opt("MQTT_PASSWORD");
        let max_upload_bytes = (mb as usize) * 1048576;
        let trust_proxy = env.flag("TRUST_PROXY", "false");
        let log_level = env.or_default("LOG_LEVEL", "info");
        let auto_migrate = env.flag("AUTO_MIGRATE", "true");
        let msglen = match env.get_bounded("MAX_MESSAGE_LENGTH", 1, 4000, usize::MAX as u64) {
            Ok(v) => v,
            Err(m) => return Err(m),
        };
        let att = match env.get_bounded("MAX_ATTACHMENTS_PER_MESSAGE", 0, 1, usize::MAX as u64) {
            Ok(v) => v,
            Err(m) => return Err(m),
        };
        let mt = match env.get_u64("MEDIA_TIMEOUT_SECONDS", 5, 120) {
            Ok(v) => v,
            Err(m) => return Err(m),
        };
        let c = Config {
            host,
            port: port as u16,
            database_url,
            jwt_secret,
            jwt_access_ttl_secs: access as i64,
            jwt_refresh_ttl_secs: refresh as i64,
            db_max_connections: dbmax as u32,
            rate_limit_requests: rl as u32,
            rate_limit_window_secs: rlw,
            mqtt_enabled,
            mqtt_url,
            mqtt_username,
            mqtt_password,
            ffmpeg_path,
            ffprobe_path,
            upload_dir,
            static_dir,
            max_upload_bytes,
            cors_origins,
            trust_proxy,
            log_level,
            auto_migrate,
            max_message_len: msglen as usize,
            max_attachment_per_message: att as usize,
            media_timeout_secs: mt,
        };
        Ok(c)
    }

    /// Cross-origin requests are allowed from anywhere when `*` is listed.
    pub fn allows_any_origin(&self) -> (r: bool)
        ensures
            r == self@.cors_origins.contains(seq!['*']),
    {
        let mut i: usize = 0;
        while i < self.cors_origins.len()
            invariant
                i <= self.cors_origins@.len(),
                forall|j: int| 0 <= j < i ==> self.cors_origins@[j]@ != seq!['*'],
            decreases self.cors_origins@.len() - i,
        {
            proof {
                reveal_strlit("*");
                assert("*"@ =~= seq!['*']);
            }
            if str_eq(self.cors_origins[i].as_str(), "*") {
                assert(self@.cors_origins[i as int] == seq!['*']);
                return true;
            }
            assert(self.cors_origins@[i as int]@ != seq!['*']);
            i = i + 1;
        }
        proof {
            if self@.cors_origins.contains(seq!['*']) {
                let j = choose|j: int| 0 <= j < self@.cors_origins.len() && self@.cors_origins[j] == seq!['*'];
                assert(self.cors_origins@[j]@ == seq!['*']);
            }
        }
        false
    }

    /// The address to listen on, `host:port`.
    pub fn bind_address(&self) -> (r: String)
        ensures
            r@ == self.host@ + seq![':'] + decimal_text(self.port as nat),
    {
        let a = concat(self.host.as_str(), ":");
        let p = u64_text(self.port as u64);
        proof {
            reveal_strlit(":");
        }
        concat(a.as_str(), p.as_str())
    }

    /// Timeout of one ffmpeg or ffprobe run, in seconds.
    pub fn media_timeout(&self) -> (r: u64)
        ensures
            r == self.media_timeout_secs,
    {
        self.media_timeout_secs
    }
}

} // verus!
