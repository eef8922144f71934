//! Service configuration, request identifiers, and the small response
//! payloads of the HTTP API.

use vstd::prelude::*;

use crate::numfmt::{lemma_padded, padded, push_padded};
use crate::numparse::{
    float_literal, is_float_literal, parse_u16_std, parse_u32_std, parse_u64_std, parse_unsigned,
};
use crate::oreo_config::{config_from, source_ok, OreoConfig, OreoError};
use crate::retrieval::RetryPolicy;
use crate::settings::{lookup, lookup_var};
use crate::text::{chars_eq, chars_of, push_char, push_str, string_from, trim_chars, trim_seq};

verus! {

/// How the retrieval backend is selected.
#[derive(Debug, Clone, Copy, PartialEq, Eq, Structural)]
pub enum RetrievalMode {
    /// Deterministic in-process mock (the default).
    Mock,
    /// Real retrieval service over HTTP.
    Http,
    /// The OREO engine embedded in the process.
    Oreo,
}

/// Log output format.
#[derive(Debug, Clone, Copy, PartialEq, Eq, Structural)]
pub enum LogFormat {
    /// Human-oriented single-line logs.
    Text,
    /// Structured JSON logs for ingestion.
    Json,
}

/// Retrieval backend settings.
#[derive(Debug, Clone)]
pub struct RetrievalConfig {
    /// Which backend implementation to build.
    pub mode: RetrievalMode,
    /// Base URL of the retrieval service (`/v1/retrieve` is appended).
    pub base_url: String,
    /// Per-attempt timeout in milliseconds.
    pub timeout_ms: u64,
    /// Bounded retry policy for transient failures.
    pub retry: RetryPolicy,
    /// Artificial latency injected by the mock backend, in milliseconds.
    pub mock_delay_ms: u64,
    /// The embedded engine's settings (from the `VOX_OREO_*` variables),
    /// present exactly in [`RetrievalMode::Oreo`].
    pub oreo: Option<OreoConfig>,
}

/// Answering-pipeline settings.
#[derive(Debug, Clone)]
pub struct PipelineConfig {
    /// Best evidence score below which the pipeline refuses to answer, as
    /// the trimmed text of a float (`0.30` by default); it always parses
    /// as an `f32` ([`float_literal`]).
    pub grounding_min_score: String,
}

/// Service configuration.
#[derive(Debug, Clone)]
pub struct Config {
    /// Bind host.
    pub host: String,
    /// Bind port.
    pub port: u16,
    /// Log output format.
    pub log_format: LogFormat,
    /// Retrieval backend settings.
    pub retrieval: RetrievalConfig,
    /// Answering-pipeline settings.
    pub pipeline: PipelineConfig,
}

/// The grounding threshold's text: `0.30` when unset, the trimmed text
/// when it is a float, `None` otherwise.
pub open spec fn min_score_setting(raw: Option<Seq<char>>) -> Option<Seq<char>> {
    match raw {
        None => Some("0.30"@),
        Some(v) => if float_literal(trim_seq(v)) {
            Some(trim_seq(v))
        } else {
            None
        },
    }
}

/// Environment parsing failures.
#[derive(Debug, Clone, PartialEq, Eq)]
pub enum ConfigError {
    /// A required variable is missing.
    MissingEnv(&'static str),
    /// A variable is present but cannot be parsed.
    InvalidEnv {
        /// Variable name.
        name: &'static str,
        /// Offending raw value.
        value: String,
    },
    /// The HTTP client for the retrieval backend could not be built.
    HttpClient(String),
    /// The embedded engine's settings are invalid.
    Oreo(OreoError),
}

/// An unsigned numeric setting: `default` when unset, the value of the
/// trimmed text when set, `None` when it does not parse as a number up to
/// `max`.
pub open spec fn numeric_setting(raw: Option<Seq<char>>, default: nat, max: nat) -> Option<nat> {
    match raw {
        None => Some(default),
        Some(v) => parse_unsigned(trim_seq(v), max),
    }
}

/// The log format setting (exact names).
pub open spec fn log_format_setting(raw: Option<Seq<char>>) -> Option<LogFormat> {
    match raw {
        None => Some(LogFormat::Text),
        Some(v) => if v == "json"@ {
            Some(LogFormat::Json)
        } else if v == "text"@ {
            Some(LogFormat::Text)
        } else {
            None
        },
    }
}

/// The retrieval mode setting (exact names).
pub open spec fn mode_setting(raw: Option<Seq<char>>) -> Option<RetrievalMode> {
    match raw {
        None => Some(RetrievalMode::Mock),
        Some(v) => if v == "http"@ {
            Some(RetrievalMode::Http)
        } else if v == "mock"@ {
            Some(RetrievalMode::Mock)
        } else if v == "oreo"@ {
            Some(RetrievalMode::Oreo)
        } else {
            None
        },
    }
}

/// The first problem with the settings `vars`, in the order they are
/// read: the name of the variable, with its raw value when it is present
/// but invalid, without one when it is missing.
pub open spec fn first_config_error(vars: Seq<(String, String)>) -> Option<(Seq<char>, Option<Seq<char>>)> {
    let port = lookup(vars, "VOX_PORT"@);
    let log = lookup(vars, "VOX_LOG_FORMAT"@);
    let mode = lookup(vars, "VOX_RETRIEVAL_MODE"@);
    let timeout = lookup(vars, "VOX_RETRIEVAL_TIMEOUT_MS"@);
    let retries = lookup(vars, "VOX_RETRIEVAL_MAX_RETRIES"@);
    let backoff = lookup(vars, "VOX_RETRIEVAL_BACKOFF_MS"@);
    let delay = lookup(vars, "VOX_MOCK_DELAY_MS"@);
    let min_score = lookup(vars, "VOX_GROUNDING_MIN_SCORE"@);
    if numeric_setting(port, 8080, u16::MAX as nat) is None {
        Some(("VOX_PORT"@, port))
    } else if log_format_setting(log) is None {
        Some(("VOX_LOG_FORMAT"@, log))
    } else if mode_setting(mode) is None {
        Some(("VOX_RETRIEVAL_MODE"@, mode))
    } else if mode_setting(mode) == Some(RetrievalMode::Http) && lookup(
        vars,
        "VOX_RETRIEVAL_BASE_URL"@,
    ) is None {
        Some(("VOX_RETRIEVAL_BASE_URL"@, None))
    } else if numeric_setting(timeout, 800, u64::MAX as nat) is None {
        Some(("VOX_RETRIEVAL_TIMEOUT_MS"@, timeout))
    } else if numeric_setting(retries, 2, u32::MAX as nat) is None {
        Some(("VOX_RETRIEVAL_MAX_RETRIES"@, retries))
    } else if numeric_setting(backoff, 50, u64::MAX as nat) is None {
        Some(("VOX_RETRIEVAL_BACKOFF_MS"@, backoff))
    } else if numeric_setting(delay, 0, u64::MAX as nat) is None {
        Some(("VOX_MOCK_DELAY_MS"@, delay))
    } else if min_score_setting(min_score) is None {
        Some(("VOX_GROUNDING_MIN_SCORE"@, min_score))
    } else {
        None
    }
}

/// `c` is the configuration the settings `vars` describe.
pub open spec fn api_config_from(c: Config, vars: Seq<(String, String)>) -> bool {
    &&& c.host@ == match lookup(vars, "VOX_HOST"@) {
        Some(h) => h,
        None => "0.0.0.0"@,
    }
    &&& Some(c.port as nat) == numeric_setting(lookup(vars, "VOX_PORT"@), 8080, u16::MAX as nat)
    &&& Some(c.log_format) == log_format_setting(lookup(vars, "VOX_LOG_FORMAT"@))
    &&& Some(c.retrieval.mode) == mode_setting(lookup(vars, "VOX_RETRIEVAL_MODE"@))
    &&& c.retrieval.base_url@ == if c.retrieval.mode == RetrievalMode::Http {
        lookup(vars, "VOX_RETRIEVAL_BASE_URL"@).unwrap()
    } else {
        Seq::<char>::empty()
    }
    &&& Some(c.retrieval.timeout_ms as nat) == numeric_setting(
        lookup(vars, "VOX_RETRIEVAL_TIMEOUT_MS"@),
        800,
        u64::MAX as nat,
    )
    &&& Some(c.retrieval.retry.max_retries as nat) == numeric_setting(
        lookup(vars, "VOX_RETRIEVAL_MAX_RETRIES"@),
        2,
        u32::MAX as nat,
    )
    &&& Some(c.retrieval.retry.backoff_ms as nat) == numeric_setting(
        lookup(vars, "VOX_RETRIEVAL_BACKOFF_MS"@),
        50,
        u64::MAX as nat,
    )
    &&& Some(c.retrieval.mock_delay_ms as nat) == numeric_setting(
        lookup(vars, "VOX_MOCK_DELAY_MS"@),
        0,
        u64::MAX as nat,
    )
    &&& (c.retrieval.mode == RetrievalMode::Oreo) == (c.retrieval.oreo is Some)
    &&& (c.retrieval.oreo matches Some(o) ==> config_from(o, vars))
    &&& Some(c.pipeline.grounding_min_score@) == min_score_setting(
        lookup(vars, "VOX_GROUNDING_MIN_SCORE"@),
    )
}

fn trimmed(s: &String) -> (t: String)
    ensures
        t@ == trim_seq(s@),
{
    string_from(trim_chars(chars_of(s.as_str()).as_slice()).as_slice())
}

fn invalid(name: &'static str, raw: String) -> (e: ConfigError)
    ensures
        e matches ConfigError::InvalidEnv { name: n, value } && n@ == name@ && value@ == raw@,
{
    ConfigError::InvalidEnv { name, value: raw }
}

fn env_u64(vars: &[(String, String)], name: &'static str, default: u64) -> (r: Result<u64, ConfigError>)
    ensures
        match numeric_setting(lookup(vars@, name@), default as nat, u64::MAX as nat) {
            Some(v) => r matches Ok(x) && x == v,
            None => r matches Err(ConfigError::InvalidEnv { name: n, value }) && n@ == name@
                && Some(value@) == lookup(vars@, name@),
        },
{
    match lookup_var(vars, name) {
        None => Ok(default),
        Some(raw) => match parse_u64_std(trimmed(&raw).as_str()) {
            Ok(v) => Ok(v),
            Err(_) => Err(invalid(name, raw)),
        },
    }
}

fn env_u32(vars: &[(String, String)], name: &'static str, default: u32) -> (r: Result<u32, ConfigError>)
    ensures
        match numeric_setting(lookup(vars@, name@), default as nat, u32::MAX as nat) {
            Some(v) => r matches Ok(x) && x == v,
            None => r matches Err(ConfigError::InvalidEnv { name: n, value }) && n@ == name@
                && Some(value@) == lookup(vars@, name@),
        },
{
    match lookup_var(vars, name) {
        None => Ok(default),
        Some(raw) => match parse_u32_std(trimmed(&raw).as_str()) {
            Ok(v) => Ok(v),
            Err(_) => Err(invalid(name, raw)),
        },
    }
}

fn env_u16(vars: &[(String, String)], name: &'static str, default: u16) -> (r: Result<u16, ConfigError>)
    ensures
        match numeric_setting(lookup(vars@, name@), default as nat, u16::MAX as nat) {
            Some(v) => r matches Ok(x) && x == v,
            None => r matches Err(ConfigError::InvalidEnv { name: n, value }) && n@ == name@
                && Some(value@) == lookup(vars@, name@),
        },
{
    match lookup_var(vars, name) {
        None => Ok(default),
        Some(raw) => match parse_u16_std(trimmed(&raw).as_str()) {
            Ok(v) => Ok(v),
            Err(_) => Err(invalid(name, raw)),
        },
    }
}

fn is_word(s: &String, w: &str) -> (r: bool)
    ensures
        r == (s@ == w@),
{
    chars_eq(chars_of(s.as_str()).as_slice(), chars_of(w).as_slice())
}

impl Config {
    /// Loads configuration from name-to-value settings.
    ///
    /// # Errors
    /// Returns [`ConfigError`] when a required variable is missing or a
    /// value fails to parse: the first such variable, in reading order.
    pub fn from_source(vars: &[(String, String)]) -> (r: Result<Config, ConfigError>)
        ensures
            match first_config_error(vars@) {
                None => if mode_setting(lookup(vars@, "VOX_RETRIEVAL_MODE"@)) == Some(
                    RetrievalMode::Oreo,
                ) && !source_ok(vars@) {
                    r matches Err(ConfigError::Oreo(e)) && e is Config
                } else {
                    r matches Ok(c) && api_config_from(c, vars@)
                },
                Some((n, Some(v))) => r matches Err(ConfigError::InvalidEnv { name, value })
                    && name@ == n && value@ == v,
                Some((n, None)) => r matches Err(ConfigError::MissingEnv(name)) && name@ == n,
            },
    {
        let host = match lookup_var(vars, "VOX_HOST") {
            Some(h) => h,
            None => "0.0.0.0".to_owned(),
        };
        let port = match env_u16(vars, "VOX_PORT", 8080) {
            Ok(p) => p,
            Err(e) => {
                return Err(e);
            },
        };
        let log_format = match lookup_var(vars, "VOX_LOG_FORMAT") {
            None => LogFormat::Text,
            Some(raw) => {
                if is_word(&raw, "json") {
                    LogFormat::Json
                } else if is_word(&raw, "text") {
                    LogFormat::Text
                } else {
                    return Err(invalid("VOX_LOG_FORMAT", raw));
                }
            },
        };
        let mode = match lookup_var(vars, "VOX_RETRIEVAL_MODE") {
            None => RetrievalMode::Mock,
            Some(raw) => {
                if is_word(&raw, "http") {
                    RetrievalMode::Http
                } else if is_word(&raw, "mock") {
                    RetrievalMode::Mock
                } else if is_word(&raw, "oreo") {
                    RetrievalMode::Oreo
                } else {
                    return Err(invalid("VOX_RETRIEVAL_MODE", raw));
                }
            },
        };
        let base_url = if mode == RetrievalMode::Http {
            match lookup_var(vars, "VOX_RETRIEVAL_BASE_URL") {
                Some(u) => u,
                None => {
                    return Err(ConfigError::MissingEnv("VOX_RETRIEVAL_BASE_URL"));
                },
            }
        } else {
            String::new()
        };
        let timeout_ms = match env_u64(vars, "VOX_RETRIEVAL_TIMEOUT_MS", 800) {
            Ok(v) => v,
            Err(e) => {
                return Err(e);
            },
        };
        let max_retries = match env_u32(vars, "VOX_RETRIEVAL_MAX_RETRIES", 2) {
            Ok(v) => v,
            Err(e) => {
                return Err(e);
            },
        };
        let backoff_ms = match env_u64(vars, "VOX_RETRIEVAL_BACKOFF_MS", 50) {
            Ok(v) => v,
            Err(e) => {
                return Err(e);
            },
        };
        let mock_delay_ms = match env_u64(vars, "VOX_MOCK_DELAY_MS", 0) {
            Ok(v) => v,
            Err(e) => {
                return Err(e);
            },
        };
        let grounding_min_score = match lookup_var(vars, "VOX_GROUNDING_MIN_SCORE") {
            None => "0.30".to_owned(),
            Some(raw) => {
                let text = trimmed(&raw);
                if is_float_literal(text.as_str()) {
                    text
                } else {
                    return Err(invalid("VOX_GROUNDING_MIN_SCORE", raw));
                }
            },
        };
        let oreo = if mode == RetrievalMode::Oreo {
            match OreoConfig::from_source(vars) {
                Ok(o) => Some(o),
                Err(e) => {
                    return Err(ConfigError::Oreo(e));
                },
            }
        } else {
            None
        };
        Ok(
            Config {
                host,
                port,
                log_format,
                retrieval: RetrievalConfig {
                    mode,
                    base_url,
                    timeout_ms,
                    retry: RetryPolicy { max_retries, backoff_ms },
                    mock_delay_ms,
                    oreo,
                },
                pipeline: PipelineConfig { grounding_min_score },
            },
        )
    }
}

/// Service health payload.
#[derive(Debug, Clone, Copy, PartialEq, Eq)]
pub struct HealthResponse {
    /// Always `ok` while the service answers.
    pub status: &'static str,
    /// The service version.
    pub version: &'static str,
}

impl HealthResponse {
    /// The health payload of a running service at `version`.
    pub fn ok(version: &'static str) -> (h: HealthResponse)
        ensures
            h.status@ == "ok"@,
            h.version == version,
    {
        HealthResponse { status: "ok", version }
    }
}

/// Placeholder success payload of the query endpoint.
#[derive(Debug, Clone, PartialEq, Eq)]
pub struct QueryResponseStub {
    /// The answer text.
    pub answer: String,
}

/// The identifier made from clock reading `unix_nanos` and sequence
/// number `sequence`: `req-`, the nanoseconds in lowercase hex (at least
/// 12 digits), `-`, and the low 16 bits of the sequence number as 4 hex
/// digits.
pub open spec fn request_id_spec(unix_nanos: u128, sequence: u64) -> Seq<char> {
    "req-"@ + padded(unix_nanos as nat, 16, 12) + seq!['-'] + padded((sequence % 65536) as nat, 16, 4)
}

/// Renders a request identifier.
pub fn format_request_id(unix_nanos: u128, sequence: u64) -> (s: String)
    ensures
        s@ == request_id_spec(unix_nanos, sequence),
{
    let mut s = "req-".to_owned();
    push_padded(&mut s, unix_nanos, 16, 12);
    push_char(&mut s, '-');
    let low = sequence & 0xFFFF;
    assert(low == sequence % 65536) by (bit_vector)
        requires
            low == sequence & 0xFFFF,
    ;
    push_padded(&mut s, low as u128, 16, 4);
    s
}

/// Issues request identifiers: unique, roughly time-ordered, cheap.
#[derive(Debug, Clone, Copy, PartialEq, Eq, Structural)]
pub struct RequestIdSource {
    sequence: u64,
}

impl RequestIdSource {
    /// A source whose first identifier has sequence number 0.
    pub fn new() -> (s: RequestIdSource)
        ensures
            s.next_sequence() == 0,
    {
        RequestIdSource { sequence: 0 }
    }

    /// The sequence number the next identifier will carry.
    pub closed spec fn next_sequence(&self) -> u64 {
        self.sequence
    }

    /// Generates the next identifier at clock reading `unix_nanos`
    /// (nanoseconds since the Unix epoch).
    pub fn new_request_id(&mut self, unix_nanos: u128) -> (id: String)
        ensures
            id@ == request_id_spec(unix_nanos, old(self).next_sequence()),
            final(self).next_sequence() == (if old(self).next_sequence() == u64::MAX {
                0
            } else {
                old(self).next_sequence() + 1
            }),
    {
        let id = format_request_id(unix_nanos, self.sequence);
        self.sequence = self.sequence.wrapping_add(1);
        id
    }
}

/// Identifiers with different sequence numbers (modulo 2^16) differ,
/// whatever the clock says: 65536 consecutive identifiers from one source
/// are pairwise distinct, and every identifier starts with `req-`.
pub proof fn lemma_request_ids_distinct(n1: u128, s1: u64, n2: u128, s2: u64)
    requires
        s1 % 65536 != s2 % 65536,
    ensures
        request_id_spec(n1, s1) != request_id_spec(n2, s2),
        request_id_spec(n1, s1).take(4) == "req-"@,
{
    let a = (s1 % 65536) as nat;
    let b = (s2 % 65536) as nat;
    lemma_padded(a, 16, 4);
    lemma_padded(b, 16, 4);
    lemma_four_digits(a);
    lemma_four_digits(b);
    let x = request_id_spec(n1, s1);
    let y = request_id_spec(n2, s2);
    let pa = padded(a, 16, 4);
    let pb = padded(b, 16, 4);
    if x == y {
        assert(pa =~= x.subrange(x.len() - 4, x.len() as int));
        assert(pb =~= y.subrange(y.len() - 4, y.len() as int));
        crate::numfmt::lemma_padded_injective(a, b, 16, 4);
    }
    reveal_strlit("req-");
    assert(x.take(4) =~= "req-"@);
}

proof fn lemma_four_digits(n: nat)
    requires
        n < 65536,
    ensures
        padded(n, 16, 4).len() == 4,
{
    lemma_digits_len(n);
}

proof fn lemma_digits_len(n: nat)
    requires
        n < 65536,
    ensures
        crate::numfmt::digits(n, 16).len() <= 4,
{
    reveal_with_fuel(crate::numfmt::digits, 5);
    assert(n / 16 < 4096 && n / 16 / 16 < 256 && n / 16 / 16 / 16 < 16) by (nonlinear_arith)
        requires
            n < 65536,
    ;
}

} // verus!
