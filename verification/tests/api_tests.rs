use vox::api::{format_request_id, Config, ConfigError, HealthResponse, LogFormat, RequestIdSource, RetrievalMode};
use vox::oreo_config::OreoError;

fn source_from(pairs: &[(&str, &str)]) -> Vec<(String, String)> {
    pairs
        .iter()
        .map(|(k, v)| ((*k).to_owned(), (*v).to_owned()))
        .collect()
}

#[test]
fn ids_should_be_prefixed_and_unique() {
    let mut ids = RequestIdSource::new();
    let now = 1_700_000_000_000_000_000u128;
    let first = ids.new_request_id(now);
    let second = ids.new_request_id(now);
    assert!(first.starts_with("req-"));
    assert!(second.starts_with("req-"));
    assert_ne!(first, second);
}

#[test]
fn request_ids_should_render_padded_hex() {
    assert_eq!(format_request_id(0, 0), "req-000000000000-0000");
    assert_eq!(format_request_id(255, 0x1_0003), "req-0000000000ff-0003");
    assert_eq!(
        format_request_id(0x1234_5678_9abc_def0, 0xbeef),
        "req-123456789abcdef0-beef"
    );
}

#[test]
fn from_source_should_apply_defaults_when_unset() {
    let config = Config::from_source(&[]).expect("defaults");
    assert_eq!(config.host, "0.0.0.0");
    assert_eq!(config.port, 8080);
    assert_eq!(config.log_format, LogFormat::Text);
    assert_eq!(config.retrieval.mode, RetrievalMode::Mock);
    assert_eq!(config.retrieval.timeout_ms, 800);
    assert_eq!(config.retrieval.retry.max_retries, 2);
    assert_eq!(config.retrieval.retry.backoff_ms, 50);
    assert_eq!(config.retrieval.mock_delay_ms, 0);
    let min_score: f32 = config.pipeline.grounding_min_score.parse().expect("float text");
    assert!((min_score - 0.30).abs() < f32::EPSILON);
}

#[test]
fn from_source_should_parse_provided_values() {
    let config = Config::from_source(&source_from(&[
        ("VOX_PORT", "9000"),
        ("VOX_LOG_FORMAT", "json"),
        ("VOX_GROUNDING_MIN_SCORE", "0.5"),
    ]))
    .expect("parsed");
    assert_eq!(config.port, 9000);
    assert_eq!(config.log_format, LogFormat::Json);
    let min_score: f32 = config.pipeline.grounding_min_score.parse().expect("float text");
    assert!((min_score - 0.5).abs() < f32::EPSILON);
}

#[test]
fn from_source_should_require_base_url_in_http_mode() {
    let source = source_from(&[("VOX_RETRIEVAL_MODE", "http")]);
    assert!(matches!(
        Config::from_source(&source),
        Err(ConfigError::MissingEnv("VOX_RETRIEVAL_BASE_URL"))
    ));
    let ok = Config::from_source(&source_from(&[
        ("VOX_RETRIEVAL_MODE", "http"),
        ("VOX_RETRIEVAL_BASE_URL", "http://oreo:9000"),
    ]))
    .expect("http config");
    assert_eq!(ok.retrieval.base_url, "http://oreo:9000");
}

#[test]
fn from_source_should_reject_unknown_modes_and_formats() {
    let bad_mode = source_from(&[("VOX_RETRIEVAL_MODE", "quantum")]);
    assert!(matches!(
        Config::from_source(&bad_mode),
        Err(ConfigError::InvalidEnv {
            name: "VOX_RETRIEVAL_MODE",
            ..
        })
    ));

    let bad_format = source_from(&[("VOX_LOG_FORMAT", "yaml")]);
    assert!(matches!(
        Config::from_source(&bad_format),
        Err(ConfigError::InvalidEnv {
            name: "VOX_LOG_FORMAT",
            ..
        })
    ));
}

#[test]
fn from_source_should_reject_unparsable_numbers() {
    let source = source_from(&[("VOX_PORT", "not-a-port")]);
    assert!(matches!(
        Config::from_source(&source),
        Err(ConfigError::InvalidEnv {
            name: "VOX_PORT",
            ..
        })
    ));
    assert_eq!(
        Config::from_source(&source_from(&[("VOX_PORT", "70000")])).unwrap_err(),
        ConfigError::InvalidEnv {
            name: "VOX_PORT",
            value: "70000".to_owned()
        }
    );
    assert_eq!(
        Config::from_source(&source_from(&[("VOX_PORT", " 81 ")])).expect("trimmed").port,
        81
    );
}

#[test]
fn health_payload_should_report_ok() {
    let health = HealthResponse::ok("1.2.3");
    assert_eq!(health.status, "ok");
    assert_eq!(health.version, "1.2.3");
}

#[test]
fn oreo_mode_should_read_engine_settings() {
    let config = Config::from_source(&source_from(&[
        ("VOX_RETRIEVAL_MODE", "oreo"),
        ("VOX_OREO_TANTIVY_DIR", "/tmp/oreo-index"),
        ("VOX_OREO_FINAL_TOP", "3"),
    ]))
    .expect("oreo config");
    assert_eq!(config.retrieval.mode, RetrievalMode::Oreo);
    let oreo = config.retrieval.oreo.expect("engine settings");
    assert_eq!(oreo.tantivy_dir, "/tmp/oreo-index");
    assert_eq!(oreo.final_top, 3);

    let mock = Config::from_source(&[]).expect("defaults");
    assert!(mock.retrieval.oreo.is_none());
}

#[test]
fn oreo_mode_should_surface_engine_setting_errors() {
    let err = Config::from_source(&source_from(&[
        ("VOX_RETRIEVAL_MODE", "oreo"),
        ("VOX_OREO_VECTOR_STORE", "faiss"),
    ]))
    .unwrap_err();
    assert_eq!(
        err,
        ConfigError::Oreo(OreoError::Config("unknown VOX_OREO_VECTOR_STORE value: faiss".to_owned()))
    );
    let ignored = Config::from_source(&source_from(&[("VOX_OREO_VECTOR_STORE", "faiss")]))
        .expect("engine settings are only read in oreo mode");
    assert!(ignored.retrieval.oreo.is_none());
}

#[test]
fn from_source_should_check_the_grounding_threshold_as_float_text() {
    for (raw, kept) in [
        (" 0.5 ", "0.5"),
        ("1e-3", "1e-3"),
        ("+.25", "+.25"),
        ("3.", "3."),
        ("-INF", "-INF"),
        ("NaN", "NaN"),
        ("Infinity", "Infinity"),
    ] {
        let config = Config::from_source(&source_from(&[("VOX_GROUNDING_MIN_SCORE", raw)]))
            .expect("float text");
        assert_eq!(config.pipeline.grounding_min_score, kept);
        assert!(kept.parse::<f32>().is_ok());
    }
    for raw in ["high", "0.5.1", ".", "1e", "e5", "1_0", "0x10", "infin", "--1", ""] {
        assert!(raw.trim().parse::<f32>().is_err());
        assert_eq!(
            Config::from_source(&source_from(&[("VOX_GROUNDING_MIN_SCORE", raw)])).unwrap_err(),
            ConfigError::InvalidEnv {
                name: "VOX_GROUNDING_MIN_SCORE",
                value: raw.to_owned()
            }
        );
    }
}
