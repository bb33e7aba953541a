use azurejay::config::{expiry_fits_env, Config, ConfigError};

fn env(pairs: &[(&str, &str)]) -> Vec<(String, String)> {
    pairs.iter().map(|(k, v)| (k.to_string(), v.to_string())).collect()
}

fn base() -> Vec<(&'static str, &'static str)> {
    vec![("DATABASE_URL", "postgres://db"), ("SECRET_KEY", "s3cret"), ("GROQ_API_KEY", "gk")]
}

#[test]
fn defaults_apply() {
    let c = Config::from_env(&env(&base())).unwrap();
    assert_eq!(c.api_host, "0.0.0.0");
    assert_eq!(c.api_port, 8000);
    assert_eq!(c.database_url, "postgres://db");
    assert_eq!(c.redis_url, "redis://localhost:6379/0");
    assert_eq!(c.jwt_secret, "s3cret");
    assert_eq!(c.access_token_expiry_secs, 30 * 60);
    assert_eq!(c.groq_api_key, "gk");
    assert_eq!(c.coa_model, "qwen/qwen3-32b");
    assert_eq!(c.coa_tts_n, 3);
    assert_eq!(c.tavily_api_key, None);
    assert_eq!(c.languagetool_base_url, "https://api.languagetoolplus.com/v2");
    assert_eq!(c.languagetool_api_key, None);
    assert_eq!(c.eleven_labs_api_key, None);
}

#[test]
fn values_override_defaults() {
    let mut pairs = base();
    pairs.extend([
        ("API_HOST", "127.0.0.1"),
        ("API_PORT", "+9000"),
        ("ACCESS_TOKEN_EXPIRE_MINUTES", "5"),
        ("COA_TTS_N", "1"),
        ("TAVILY_API_KEY", "tv"),
        ("COA_MODEL", ""),
    ]);
    let c = Config::from_env(&env(&pairs)).unwrap();
    assert_eq!(c.api_host, "127.0.0.1");
    assert_eq!(c.api_port, 9000);
    assert_eq!(c.access_token_expiry_secs, 300);
    assert_eq!(c.coa_tts_n, 1);
    assert_eq!(c.tavily_api_key.as_deref(), Some("tv"));
    assert_eq!(c.coa_model, "qwen/qwen3-32b");
}

#[test]
fn missing_variables_are_reported_in_order() {
    match Config::from_env(&env(&[])) {
        Err(ConfigError::Missing(k)) => assert_eq!(k, "DATABASE_URL"),
        other => panic!("unexpected {other:?}"),
    }
    let e = Config::from_env(&env(&[("DATABASE_URL", "x"), ("SECRET_KEY", "")])).unwrap_err();
    assert_eq!(e.message(), "missing required environment variable: SECRET_KEY");
    let e = Config::from_env(&env(&[("DATABASE_URL", "x"), ("SECRET_KEY", "y")])).unwrap_err();
    assert!(matches!(e, ConfigError::Missing("GROQ_API_KEY")));
}

#[test]
fn invalid_numbers_carry_the_parse_error() {
    let mut pairs = base();
    pairs.push(("API_PORT", "70000"));
    let e = Config::from_env(&env(&pairs)).unwrap_err();
    let std_msg = "70000".parse::<u16>().unwrap_err().to_string();
    match &e {
        ConfigError::Invalid(k, m) => {
            assert_eq!(*k, "API_PORT");
            assert_eq!(m, &std_msg);
        }
        other => panic!("unexpected {other:?}"),
    }
    assert_eq!(
        e.message(),
        format!("environment variable API_PORT is not valid: {std_msg}")
    );
    let mut pairs = base();
    pairs.push(("COA_TTS_N", "three"));
    match Config::from_env(&env(&pairs)).unwrap_err() {
        ConfigError::Invalid(k, m) => {
            assert_eq!(k, "COA_TTS_N");
            assert_eq!(m, "three".parse::<usize>().unwrap_err().to_string());
        }
        other => panic!("unexpected {other:?}"),
    }
}

#[test]
fn port_error_comes_before_missing_database() {
    let e = Config::from_env(&env(&[("API_PORT", "-1")])).unwrap_err();
    match e {
        ConfigError::Invalid(k, m) => {
            assert_eq!(k, "API_PORT");
            assert_eq!(m, "-1".parse::<u16>().unwrap_err().to_string());
        }
        other => panic!("unexpected {other:?}"),
    }
}

#[test]
fn token_lifetime_must_fit() {
    let mut e = base();
    e.push(("ACCESS_TOKEN_EXPIRE_MINUTES", "307445734561825860"));
    assert!(expiry_fits_env(&env(&e)));
    let mut e = base();
    e.push(("ACCESS_TOKEN_EXPIRE_MINUTES", "307445734561825861"));
    assert!(!expiry_fits_env(&env(&e)));
    let mut e = base();
    e.push(("ACCESS_TOKEN_EXPIRE_MINUTES", "18446744073709551615"));
    e.retain(|(k, _)| *k != "SECRET_KEY");
    assert!(expiry_fits_env(&env(&e)));
    assert!(Config::from_env(&env(&e)).is_err());
}
