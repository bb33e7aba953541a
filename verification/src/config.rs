//! The service's settings, read from its environment.
use vstd::prelude::*;

use crate::numbers::{int_error_message, parse_int_seq, parse_u16, parse_u64, parse_usize};
use crate::text::{push_str, str_eq};

verus! {

/// The settings of the service.
#[derive(Debug, Clone)]
pub struct Config {
    pub api_host: String,
    pub api_port: u16,
    pub database_url: String,
    pub redis_url: String,
    pub jwt_secret: String,
    /// How long an access token lives, in seconds.
    pub access_token_expiry_secs: u64,
    pub groq_api_key: String,
    pub coa_model: String,
    pub coa_tts_n: usize,
    pub tavily_api_key: Option<String>,
    pub languagetool_base_url: String,
    pub languagetool_api_key: Option<String>,
    pub eleven_labs_api_key: Option<String>,
}

/// Why the settings could not be read.
#[derive(Debug, Clone)]
pub enum ConfigError {
    /// A required variable is absent or empty.
    Missing(&'static str),
    /// A variable does not hold a valid number; the text says why.
    Invalid(&'static str, String),
}

/// The view of a configuration.
pub struct ConfigView {
    pub api_host: Seq<char>,
    pub api_port: int,
    pub database_url: Seq<char>,
    pub redis_url: Seq<char>,
    pub jwt_secret: Seq<char>,
    pub access_token_expiry_secs: int,
    pub groq_api_key: Seq<char>,
    pub coa_model: Seq<char>,
    pub coa_tts_n: int,
    pub tavily_api_key: Option<Seq<char>>,
    pub languagetool_base_url: Seq<char>,
    pub languagetool_api_key: Option<Seq<char>>,
    pub eleven_labs_api_key: Option<Seq<char>>,
}

/// The view of a configuration error.
pub enum ConfigErrorView {
    Missing(Seq<char>),
    Invalid(Seq<char>, Seq<char>),
}

/// The character sequence of an optional string.
pub open spec fn opt_view(o: Option<String>) -> Option<Seq<char>> {
    match o {
        Some(s) => Some(s@),
        None => None,
    }
}

impl Config {
    pub open spec fn view_of(&self) -> ConfigView {
        ConfigView {
            api_host: self.api_host@,
            api_port: self.api_port as int,
            database_url: self.database_url@,
            redis_url: self.redis_url@,
            jwt_secret: self.jwt_secret@,
            access_token_expiry_secs: self.access_token_expiry_secs as int,
            groq_api_key: self.groq_api_key@,
            coa_model: self.coa_model@,
            coa_tts_n: self.coa_tts_n as int,
            tavily_api_key: opt_view(self.tavily_api_key),
            languagetool_base_url: self.languagetool_base_url@,
            languagetool_api_key: opt_view(self.languagetool_api_key),
            eleven_labs_api_key: opt_view(self.eleven_labs_api_key),
        }
    }
}

impl ConfigError {
    pub open spec fn view_of(&self) -> ConfigErrorView {
        match self {
            ConfigError::Missing(k) => ConfigErrorView::Missing(k@),
            ConfigError::Invalid(k, m) => ConfigErrorView::Invalid(k@, m@),
        }
    }

    /// The text that describes the error.
    pub fn message(&self) -> (m: String)
        ensures
            m@ == match self.view_of() {
                ConfigErrorView::Missing(k) => "missing required environment variable: "@ + k,
                ConfigErrorView::Invalid(k, why) => "environment variable "@ + k + " is not valid: "@
                    + why,
            },
    {
        let mut m = String::new();
        match self {
            ConfigError::Missing(k) => {
                push_str(&mut m, "missing required environment variable: ");
                push_str(&mut m, k);
            },
            ConfigError::Invalid(k, why) => {
                push_str(&mut m, "environment variable ");
                push_str(&mut m, k);
                push_str(&mut m, " is not valid: ");
                push_str(&mut m, why.as_str());
            },
        }
        m
    }
}

/// The (name, value) pairs of an environment.
pub open spec fn env_view(env: Seq<(String, String)>) -> Seq<(Seq<char>, Seq<char>)> {
    env.map_values(|p: (String, String)| (p.0@, p.1@))
}

/// The value of the first variable named `key`.
pub open spec fn env_get(e: Seq<(Seq<char>, Seq<char>)>, key: Seq<char>) -> Option<Seq<char>>
    decreases e.len(),
{
    if e.len() == 0 {
        None
    } else if e[0].0 == key {
        Some(e[0].1)
    } else {
        env_get(e.drop_first(), key)
    }
}

/// The value of `key` when it is set and not empty.
pub open spec fn env_opt(e: Seq<(Seq<char>, Seq<char>)>, key: Seq<char>) -> Option<Seq<char>> {
    match env_get(e, key) {
        Some(v) => if v.len() > 0 {
            Some(v)
        } else {
            None
        },
        None => None,
    }
}

/// The number in `key`, read as an unsigned integer of at most `hi`, or
/// `default` when the variable is unset or empty.
pub open spec fn env_num(e: Seq<(Seq<char>, Seq<char>)>, key: Seq<char>, hi: int, default: int) -> Result<
    int,
    crate::numbers::IntError,
> {
    match env_opt(e, key) {
        Some(v) => parse_int_seq(v, false, 0, hi),
        None => Ok(default),
    }
}

/// `o`, or `d` when it is absent.
pub open spec fn or_else(o: Option<Seq<char>>, d: Seq<char>) -> Seq<char> {
    match o {
        Some(v) => v,
        None => d,
    }
}

/// The settings the environment `e` gives, or the first error in the order
/// the variables are read: `API_PORT`, `DATABASE_URL`, `SECRET_KEY`,
/// `ACCESS_TOKEN_EXPIRE_MINUTES`, `GROQ_API_KEY`, `COA_TTS_N`.
pub open spec fn config_from(e: Seq<(Seq<char>, Seq<char>)>) -> Result<ConfigView, ConfigErrorView> {
    match env_num(e, "API_PORT"@, u16::MAX as int, 8000) {
        Err(err) => Err(ConfigErrorView::Invalid("API_PORT"@, int_error_message(err))),
        Ok(port) => match env_opt(e, "DATABASE_URL"@) {
            None => Err(ConfigErrorView::Missing("DATABASE_URL"@)),
            Some(db) => match env_opt(e, "SECRET_KEY"@) {
                None => Err(ConfigErrorView::Missing("SECRET_KEY"@)),
                Some(secret) => match env_num(e, "ACCESS_TOKEN_EXPIRE_MINUTES"@, u64::MAX as int, 30) {
                    Err(err) => Err(
                        ConfigErrorView::Invalid("ACCESS_TOKEN_EXPIRE_MINUTES"@, int_error_message(err)),
                    ),
                    Ok(minutes) => match env_opt(e, "GROQ_API_KEY"@) {
                        None => Err(ConfigErrorView::Missing("GROQ_API_KEY"@)),
                        Some(groq) => match env_num(e, "COA_TTS_N"@, usize::MAX as int, 3) {
                            Err(err) => Err(ConfigErrorView::Invalid("COA_TTS_N"@, int_error_message(err))),
                            Ok(n) => Ok(
                                ConfigView {
                                    api_host: or_else(env_opt(e, "API_HOST"@), "0.0.0.0"@),
                                    api_port: port,
                                    database_url: db,
                                    redis_url: or_else(env_opt(e, "REDIS_URL"@), "redis://localhost:6379/0"@),
                                    jwt_secret: secret,
                                    access_token_expiry_secs: 60 * minutes,
                                    groq_api_key: groq,
                                    coa_model: or_else(env_opt(e, "COA_MODEL"@), "qwen/qwen3-32b"@),
                                    coa_tts_n: n,
                                    tavily_api_key: env_opt(e, "TAVILY_API_KEY"@),
                                    languagetool_base_url: or_else(
                                        env_opt(e, "LANGUAGETOOL_BASE_URL"@),
                                        "https://api.languagetoolplus.com/v2"@,
                                    ),
                                    languagetool_api_key: env_opt(e, "LANGUAGETOOL_API_KEY"@),
                                    eleven_labs_api_key: env_opt(e, "ELEVEN_LABS_API_KEY"@),
                                },
                            ),
                        },
                    },
                },
            },
        },
    }
}

/// Whether the token lifetime, in seconds, fits in a `u64` whenever it is
/// computed (the minutes are multiplied by 60 only after the variables read
/// before them were valid).
pub open spec fn expiry_fits(e: Seq<(Seq<char>, Seq<char>)>) -> bool {
    (env_num(e, "API_PORT"@, u16::MAX as int, 8000) is Ok && env_opt(e, "DATABASE_URL"@) is Some
        && env_opt(e, "SECRET_KEY"@) is Some) ==> match env_num(
        e,
        "ACCESS_TOKEN_EXPIRE_MINUTES"@,
        u64::MAX as int,
        30,
    ) {
        Ok(m) => 60 * m <= u64::MAX,
        Err(_) => true,
    }
}

/// Whether the token lifetime of the environment `env` fits in a `u64`
/// whenever it is computed: the condition `Config::from_env` needs.
pub fn expiry_fits_env(env: &Vec<(String, String)>) -> (r: bool)
    ensures
        r == expiry_fits(env_view(env@)),
{
    let port_ok = match opt(env, "API_PORT") {
        Some(v) => parse_u16(v.as_str()).is_ok(),
        None => true,
    };
    if !port_ok || opt(env, "DATABASE_URL").is_none() || opt(env, "SECRET_KEY").is_none() {
        return true;
    }
    match opt(env, "ACCESS_TOKEN_EXPIRE_MINUTES") {
        Some(v) => match parse_u64(v.as_str()) {
            Ok(m) => m <= u64::MAX / 60,
            Err(_) => true,
        },
        None => true,
    }
}

/// The value of the first variable named `key`.
fn lookup<'a>(env: &'a Vec<(String, String)>, key: &str) -> (r: Option<&'a String>)
    ensures
        match env_get(env_view(env@), key@) {
            Some(v) => r matches Some(s) && s@ == v,
            None => r is None,
        },
{
    let ghost e = env_view(env@);
    let mut i: usize = 0;
    assert(e.skip(0) =~= e);
    while i < env.len()
        invariant
            i <= env@.len(),
            e == env_view(env@),
            env_get(e, key@) == env_get(e.skip(i as int), key@),
        decreases env@.len() - i,
    {
        let ghost rest = e.skip(i as int);
        assert(rest[0] == (env@[i as int].0@, env@[i as int].1@));
        assert(rest.drop_first() =~= e.skip(i + 1));
        if str_eq(env[i].0.as_str(), key) {
            return Some(&env[i].1);
        }
        i = i + 1;
    }
    None
}

/// The value of `key` when it is set and not empty.
fn opt(env: &Vec<(String, String)>, key: &str) -> (r: Option<String>)
    ensures
        opt_view(r) == env_opt(env_view(env@), key@),
{
    match lookup(env, key) {
        Some(v) => if v.as_str().is_empty() {
            None
        } else {
            let mut s = String::new();
            push_str(&mut s, v.as_str());
            Some(s)
        },
        None => None,
    }
}

fn opt_or(env: &Vec<(String, String)>, key: &str, default: &str) -> (r: String)
    ensures
        r@ == or_else(env_opt(env_view(env@), key@), default@),
{
    match opt(env, key) {
        Some(v) => v,
        None => {
            let mut s = String::new();
            push_str(&mut s, default);
            s
        },
    }
}

impl Config {
    /// Reads the settings from the environment variables `env`, given as
    /// (name, value) pairs.
    pub fn from_env(env: &Vec<(String, String)>) -> (r: Result<Self, ConfigError>)
        requires
            expiry_fits(env_view(env@)),
        ensures
            match config_from(env_view(env@)) {
                Ok(cv) => r matches Ok(c) && c.view_of() == cv,
                Err(ev) => r matches Err(err) && err.view_of() == ev,
            },
    {
        let ghost e = env_view(env@);
        let api_host = opt_or(env, "API_HOST", "0.0.0.0");
        let api_port = match opt(env, "API_PORT") {
            Some(v) => match parse_u16(v.as_str()) {
                Ok(p) => p,
                Err(err) => {
                    let mut m = String::new();
                    push_str(&mut m, err.message());
                    return Err(ConfigError::Invalid("API_PORT", m));
                },
            },
            None => 8000,
        };
        let database_url = match opt(env, "DATABASE_URL") {
            Some(v) => v,
            None => {
                return Err(ConfigError::Missing("DATABASE_URL"));
            },
        };
        let redis_url = opt_or(env, "REDIS_URL", "redis://localhost:6379/0");
        let jwt_secret = match opt(env, "SECRET_KEY") {
            Some(v) => v,
            None => {
                return Err(ConfigError::Missing("SECRET_KEY"));
            },
        };
        let minutes = match opt(env, "ACCESS_TOKEN_EXPIRE_MINUTES") {
            Some(v) => match parse_u64(v.as_str()) {
                Ok(m) => m,
                Err(err) => {
                    let mut m = String::new();
                    push_str(&mut m, err.message());
                    return Err(ConfigError::Invalid("ACCESS_TOKEN_EXPIRE_MINUTES", m));
                },
            },
            None => 30,
        };
        let access_token_expiry_secs = 60 * minutes;
        let groq_api_key = match opt(env, "GROQ_API_KEY") {
            Some(v) => v,
            None => {
                return Err(ConfigError::Missing("GROQ_API_KEY"));
            },
        };
        let coa_model = opt_or(env, "COA_MODEL", "qwen/qwen3-32b");
        let coa_tts_n = match opt(env, "COA_TTS_N") {
            Some(v) => match parse_usize(v.as_str()) {
                Ok(n) => n,
                Err(err) => {
                    let mut m = String::new();
                    push_str(&mut m, err.message());
                    return Err(ConfigError::Invalid("COA_TTS_N", m));
                },
            },
            None => 3,
        };
        let tavily_api_key = opt(env, "TAVILY_API_KEY");
        let languagetool_base_url = opt_or(env, "LANGUAGETOOL_BASE_URL", "https://api.languagetoolplus.com/v2");
        let languagetool_api_key = opt(env, "LANGUAGETOOL_API_KEY");
        let eleven_labs_api_key = opt(env, "ELEVEN_LABS_API_KEY");
        Ok(Config {
            api_host,
            api_port,
            database_url,
            redis_url,
            jwt_secret,
            access_token_expiry_secs,
            groq_api_key,
            coa_model,
            coa_tts_n,
            tavily_api_key,
            languagetool_base_url,
            languagetool_api_key,
            eleven_labs_api_key,
        })
    }
}

} // verus!
