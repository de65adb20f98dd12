//! Configuration: defaults, the configuration file, command line overrides and
//! validation.

use crate::error::{ProxyError, Result};
use crate::text::{concat, same_text};
use vstd::prelude::*;

verus! {

/// `url::ParseError`, the error of a text that is no URL.
#[verifier::external_type_specification]
#[verifier::external_body]
pub struct ExUrlParseError(url::ParseError);

/// The serialization of the URL that a text stands for, or `None` for a text
/// that is no absolute URL.
pub uninterp spec fn url_serialization(text: Seq<char>) -> Option<Seq<char>>;

/// `url::Url::parse`, and `as_str` on its result: the URL as it is written in
/// normal form. It depends on the text alone.
#[verifier::external_body]
fn parse_url(text: &str) -> (url: std::result::Result<String, url::ParseError>)
    ensures
        match url {
            Ok(u) => url_serialization(text@) == Some(u@),
            Err(_) => url_serialization(text@) is None,
        },
{
    url::Url::parse(text).map(|u| u.as_str().to_owned())
}

/// Read the URL of a gateway, in normal form.
///
/// Returns `None` for what is no absolute URL.
pub fn parse_gateway_url(text: &str) -> (url: Option<String>)
    ensures
        match url {
            Some(u) => url_serialization(text@) == Some(u@),
            None => url_serialization(text@) is None,
        },
{
    match parse_url(text) {
        Ok(url) => Some(url),
        Err(_) => None,
    }
}

/// DoIP server settings.
#[derive(Debug, Clone)]
pub struct ServerConfig {
    /// TCP port for the DoIP server (default: 13400).
    pub doip_port: u16,
    /// IP address to bind the server socket to (default: `0.0.0.0`).
    pub bind_address: String,
    /// Maximum number of concurrent connections (default: 10).
    pub max_connections: usize,
    /// DoIP source address used in response messages (default: `0x0E80`).
    pub source_address: u16,
}

/// What a [`ServerConfig`] holds.
pub struct ServerView {
    pub doip_port: u16,
    pub bind_address: Seq<char>,
    pub max_connections: usize,
    pub source_address: u16,
}

impl View for ServerConfig {
    type V = ServerView;

    open spec fn view(&self) -> ServerView {
        ServerView {
            doip_port: self.doip_port,
            bind_address: self.bind_address@,
            max_connections: self.max_connections,
            source_address: self.source_address,
        }
    }
}

/// The default server settings.
pub open spec fn default_server() -> ServerView {
    ServerView {
        doip_port: 13_400,
        bind_address: "0.0.0.0"@,
        max_connections: 10,
        source_address: 0x0E80,
    }
}

impl Default for ServerConfig {
    fn default() -> (config: Self)
        ensures
            config@ == default_server(),
    {
        ServerConfig {
            doip_port: 13_400,
            bind_address: "0.0.0.0".to_owned(),
            max_connections: 10,
            source_address: 0x0E80,
        }
    }
}

/// SOVD gateway connection settings.
#[derive(Debug, Clone)]
pub struct SovdConfig {
    /// Base URL of the SOVD gateway (e.g. `http://localhost:20002`).
    pub gateway_url: String,
    /// OAuth2 client ID for gateway authentication.
    pub client_id: String,
    /// OAuth2 client secret for gateway authentication.
    pub client_secret: String,
    /// HTTP request timeout in milliseconds.
    pub timeout_ms: u64,
    /// SOVD API version path segment (e.g. `v15`).
    pub api_version: String,
    /// Whether to request inline schema in data responses.
    pub include_schema: bool,
    /// When `true`, bypass HTTP calls and generate synthetic responses.
    pub mock_gateway: bool,
}

/// What a [`SovdConfig`] holds.
pub struct SovdView {
    pub gateway_url: Seq<char>,
    pub client_id: Seq<char>,
    pub client_secret: Seq<char>,
    pub timeout_ms: u64,
    pub api_version: Seq<char>,
    pub include_schema: bool,
    pub mock_gateway: bool,
}

impl View for SovdConfig {
    type V = SovdView;

    open spec fn view(&self) -> SovdView {
        SovdView {
            gateway_url: self.gateway_url@,
            client_id: self.client_id@,
            client_secret: self.client_secret@,
            timeout_ms: self.timeout_ms,
            api_version: self.api_version@,
            include_schema: self.include_schema,
            mock_gateway: self.mock_gateway,
        }
    }
}

/// The default gateway settings. The URL is in normal form.
pub open spec fn default_sovd() -> SovdView {
    SovdView {
        gateway_url: "http://localhost:20002/"@,
        client_id: "uds2sovd_proxy"@,
        client_secret: "test_secret"@,
        timeout_ms: 5_000,
        api_version: "v15"@,
        include_schema: true,
        mock_gateway: true,
    }
}

impl Default for SovdConfig {
    fn default() -> (config: Self)
        ensures
            config@ == default_sovd(),
    {
        SovdConfig {
            gateway_url: "http://localhost:20002/".to_owned(),
            client_id: "uds2sovd_proxy".to_owned(),
            client_secret: "test_secret".to_owned(),
            timeout_ms: 5_000,
            api_version: "v15".to_owned(),
            include_schema: true,
            mock_gateway: true,
        }
    }
}

impl SovdConfig {
    /// A copy of the settings.
    pub fn copy(&self) -> (copy: Self)
        ensures
            copy@ == self@,
    {
        SovdConfig {
            gateway_url: self.gateway_url.clone(),
            client_id: self.client_id.clone(),
            client_secret: self.client_secret.clone(),
            timeout_ms: self.timeout_ms,
            api_version: self.api_version.clone(),
            include_schema: self.include_schema,
            mock_gateway: self.mock_gateway,
        }
    }
}

/// A 6-byte entity or group identification.
#[derive(Debug, Clone, Copy)]
pub struct EidGid(pub [u8; 6]);

impl EidGid {
    /// Every byte is zero.
    pub open spec fn is_zero(self) -> bool {
        forall|i: int| 0 <= i < 6 ==> self.0@[i] == 0
    }

    /// Tells whether every byte is zero.
    pub fn is_all_zeros(self) -> (zero: bool)
        ensures
            zero == self.is_zero(),
    {
        let mut i: usize = 0;
        while i < 6
            invariant
                i <= 6,
                forall|j: int| 0 <= j < i ==> self.0@[j] == 0,
            decreases 6 - i,
        {
            if self.0[i] != 0 {
                return false;
            }
            i = i + 1;
        }
        true
    }
}

impl Default for EidGid {
    fn default() -> (id: Self)
        ensures
            id.0@ == seq![0u8, 1, 2, 3, 4, 5],
    {
        let id = EidGid([0x00, 0x01, 0x02, 0x03, 0x04, 0x05]);
        assert(id.0@ =~= seq![0u8, 1, 2, 3, 4, 5]);
        id
    }
}

/// ECU identity and addressing settings.
#[derive(Debug, Clone)]
pub struct EcuConfig {
    /// Default ECU name used for SOVD component path.
    pub default_name: String,
    /// ISO 13400 logical address of the target ECU.
    pub logical_address: u16,
    /// 6-byte Entity Identification
    pub eid: EidGid,
    /// 6-byte Group Identification.
    pub gid: EidGid,
}

/// What an [`EcuConfig`] holds.
pub struct EcuView {
    pub default_name: Seq<char>,
    pub logical_address: u16,
    pub eid: Seq<u8>,
    pub gid: Seq<u8>,
}

impl View for EcuConfig {
    type V = EcuView;

    open spec fn view(&self) -> EcuView {
        EcuView {
            default_name: self.default_name@,
            logical_address: self.logical_address,
            eid: self.eid.0@,
            gid: self.gid.0@,
        }
    }
}

/// The default ECU settings.
pub open spec fn default_ecu() -> EcuView {
    EcuView {
        default_name: "ECU"@,
        logical_address: 0x0001,
        eid: seq![0u8, 1, 2, 3, 4, 5],
        gid: seq![0u8, 1, 2, 3, 4, 5],
    }
}

impl Default for EcuConfig {
    fn default() -> (config: Self)
        ensures
            config@ == default_ecu(),
    {
        EcuConfig {
            default_name: "ECU".to_owned(),
            logical_address: 0x0001,
            eid: EidGid::default(),
            gid: EidGid::default(),
        }
    }
}

/// How much is logged.
#[derive(Debug, Clone, Copy, PartialEq, Eq, Structural)]
pub enum LogLevel {
    /// Errors only.
    Error,
    /// Warnings, too.
    Warn,
    /// What happens in general (default).
    Info,
    /// Details.
    Debug,
    /// Everything.
    Trace,
}

impl LogLevel {
    /// The name of the level in configuration files and log filters.
    pub open spec fn text(self) -> Seq<char> {
        match self {
            LogLevel::Error => "error"@,
            LogLevel::Warn => "warn"@,
            LogLevel::Info => "info"@,
            LogLevel::Debug => "debug"@,
            LogLevel::Trace => "trace"@,
        }
    }

    /// The name of the level in configuration files and log filters.
    pub fn name(self) -> (name: &'static str)
        ensures
            name@ == self.text(),
    {
        match self {
            LogLevel::Error => "error",
            LogLevel::Warn => "warn",
            LogLevel::Info => "info",
            LogLevel::Debug => "debug",
            LogLevel::Trace => "trace",
        }
    }

    /// The level with a name.
    pub fn from_name(name: &str) -> (level: Option<LogLevel>)
        ensures
            match level {
                Some(l) => l.text() == name@,
                None => forall|l: LogLevel| (#[trigger] l.text()) != name@,
            },
    {
        if same_text(name, "error") {
            Some(LogLevel::Error)
        } else if same_text(name, "warn") {
            Some(LogLevel::Warn)
        } else if same_text(name, "info") {
            Some(LogLevel::Info)
        } else if same_text(name, "debug") {
            Some(LogLevel::Debug)
        } else if same_text(name, "trace") {
            Some(LogLevel::Trace)
        } else {
            None
        }
    }
}

impl Default for LogLevel {
    fn default() -> (level: Self)
        ensures
            level == LogLevel::Info,
    {
        LogLevel::Info
    }
}

/// How log output is written.
#[derive(Debug, Clone, Copy, PartialEq, Eq, Structural)]
pub enum LogFormat {
    /// Human-readable coloured output (default).
    Pretty,
    /// Machine-readable JSON (suitable for log aggregators).
    Json,
}

impl LogFormat {
    /// The name of the format in configuration files.
    pub open spec fn text(self) -> Seq<char> {
        match self {
            LogFormat::Pretty => "pretty"@,
            LogFormat::Json => "json"@,
        }
    }

    /// The name of the format in configuration files.
    pub fn name(self) -> (name: &'static str)
        ensures
            name@ == self.text(),
    {
        match self {
            LogFormat::Pretty => "pretty",
            LogFormat::Json => "json",
        }
    }

    /// The format with a name.
    pub fn from_name(name: &str) -> (format: Option<LogFormat>)
        ensures
            match format {
                Some(f) => f.text() == name@,
                None => forall|f: LogFormat| (#[trigger] f.text()) != name@,
            },
    {
        if same_text(name, "pretty") {
            Some(LogFormat::Pretty)
        } else if same_text(name, "json") {
            Some(LogFormat::Json)
        } else {
            None
        }
    }
}

impl Default for LogFormat {
    fn default() -> (format: Self)
        ensures
            format == LogFormat::Pretty,
    {
        LogFormat::Pretty
    }
}

/// Names of log levels and of log formats are unique.
pub proof fn lemma_log_names_unique(a: LogLevel, b: LogLevel, f: LogFormat, g: LogFormat)
    ensures
        a.text() == b.text() ==> a == b,
        f.text() == g.text() ==> f == g,
{
    reveal_strlit("error");
    reveal_strlit("warn");
    reveal_strlit("info");
    reveal_strlit("debug");
    reveal_strlit("trace");
    reveal_strlit("pretty");
    reveal_strlit("json");
    assert("error"@[0] == 'e' && "warn"@[0] == 'w' && "info"@[0] == 'i' && "debug"@[0] == 'd'
        && "trace"@[0] == 't');
    assert("pretty"@[0] == 'p' && "json"@[0] == 'j');
}

/// Logging output configuration.
#[derive(Debug, Clone, Copy, PartialEq, Eq, Structural)]
pub struct LoggingConfig {
    /// Log level filter.
    pub level: LogLevel,
    /// Output format.
    pub format: LogFormat,
}

impl Default for LoggingConfig {
    fn default() -> (config: Self)
        ensures
            config == (LoggingConfig { level: LogLevel::Info, format: LogFormat::Pretty }),
    {
        LoggingConfig { level: LogLevel::default(), format: LogFormat::default() }
    }
}

/// The configuration of the proxy.
#[derive(Debug, Clone)]
pub struct Config {
    /// DoIP server settings (port, bind address, source address).
    pub server: ServerConfig,
    /// SOVD gateway connection settings.
    pub sovd: SovdConfig,
    /// ECU identity and addressing settings.
    pub ecu: EcuConfig,
    /// Logging configuration.
    pub logging: LoggingConfig,
}

/// What a [`Config`] holds.
pub struct ConfigView {
    pub server: ServerView,
    pub sovd: SovdView,
    pub ecu: EcuView,
    pub logging: LoggingConfig,
}

impl View for Config {
    type V = ConfigView;

    open spec fn view(&self) -> ConfigView {
        ConfigView {
            server: self.server@,
            sovd: self.sovd@,
            ecu: self.ecu@,
            logging: self.logging,
        }
    }
}

/// The default configuration.
pub open spec fn default_config() -> ConfigView {
    ConfigView {
        server: default_server(),
        sovd: default_sovd(),
        ecu: default_ecu(),
        logging: LoggingConfig { level: LogLevel::Info, format: LogFormat::Pretty },
    }
}

impl Default for Config {
    fn default() -> (config: Self)
        ensures
            config@ == default_config(),
    {
        Config {
            server: ServerConfig::default(),
            sovd: SovdConfig::default(),
            ecu: EcuConfig::default(),
            logging: LoggingConfig::default(),
        }
    }
}

/// Every byte of a sequence is zero.
pub open spec fn all_zeros(bytes: Seq<u8>) -> bool {
    forall|i: int| 0 <= i < bytes.len() ==> (#[trigger] bytes[i]) == 0
}

/// What is wrong with a configuration, in the order in which it is reported.
pub open spec fn config_errors(config: ConfigView) -> Seq<Seq<char>> {
    Seq::<Seq<char>>::empty() + only_if(
        config.server.max_connections == 0,
        "[server] max_connections must be greater than zero"@,
    ) + only_if(config.sovd.client_id.len() == 0, "[sovd] client_id must not be empty"@) + only_if(
        config.sovd.api_version.len() == 0,
        "[sovd] api_version must not be empty"@,
    ) + only_if(config.ecu.default_name.len() == 0, "[ecu] default_name must not be empty"@)
        + only_if(all_zeros(config.ecu.eid), "[ecu] eid must not be all zeros"@) + only_if(
        all_zeros(config.ecu.gid),
        "[ecu] gid must not be all zeros"@,
    )
}

/// A list with one text, or an empty one.
pub open spec fn only_if(wrong: bool, text: Seq<char>) -> Seq<Seq<char>> {
    if wrong {
        seq![text]
    } else {
        Seq::empty()
    }
}

/// Texts as a list of bullets, each on a line of its own.
pub open spec fn bullets(texts: Seq<Seq<char>>) -> Seq<char>
    decreases texts.len(),
{
    if texts.len() == 0 {
        Seq::empty()
    } else {
        bullets(texts.drop_last()) + "\n  - "@ + texts.last()
    }
}

/// The error text for some problems.
pub open spec fn validation_text(errors: Seq<Seq<char>>) -> Seq<char> {
    "configuration validation failed:"@ + bullets(errors)
}

/// The result is `Ok`, or a configuration error with a text.
pub open spec fn fails_with<T>(result: Result<T>, text: Seq<char>) -> bool {
    result matches Err(ProxyError::Config(message)) && message@ == text
}

/// Appends a bullet if something is wrong.
fn push_error(report: &mut String, wrong: bool, text: &str, Ghost(errors): Ghost<Seq<Seq<char>>>)
    requires
        old(report)@ == bullets(errors),
    ensures
        final(report)@ == bullets(errors + only_if(wrong, text@)),
{
    if wrong {
        report.append("\n  - ");
        report.append(text);
        assert((errors + seq![text@]).drop_last() =~= errors);
    } else {
        assert(errors + Seq::<Seq<char>>::empty() =~= errors);
    }
}

proof fn lemma_bullets_empty(errors: Seq<Seq<char>>)
    ensures
        bullets(errors).len() == 0 <==> errors.len() == 0,
{
    reveal_strlit("\n  - ");
}

impl Config {
    /// Validate the fully-merged configuration.
    ///
    /// # Errors
    /// Returns [`ProxyError::Config`] with a bullet for each problem.
    pub fn validate(&self) -> (result: Result<()>)
        ensures
            config_errors(self@).len() == 0 ==> result is Ok,
            config_errors(self@).len() > 0 ==> fails_with(
                result,
                validation_text(config_errors(self@)),
            ),
    {
        let mut report = String::new();
        let ghost mut errors: Seq<Seq<char>> = Seq::empty();
        assert(report@ =~= bullets(errors));
        let wrong = self.server.max_connections == 0;
        push_error(
            &mut report,
            wrong,
            "[server] max_connections must be greater than zero",
            Ghost(errors),
        );
        proof {
            errors = errors + only_if(wrong, "[server] max_connections must be greater than zero"@);
        }
        let wrong = is_empty(self.sovd.client_id.as_str());
        push_error(&mut report, wrong, "[sovd] client_id must not be empty", Ghost(errors));
        proof {
            errors = errors + only_if(wrong, "[sovd] client_id must not be empty"@);
        }
        let wrong = is_empty(self.sovd.api_version.as_str());
        push_error(&mut report, wrong, "[sovd] api_version must not be empty", Ghost(errors));
        proof {
            errors = errors + only_if(wrong, "[sovd] api_version must not be empty"@);
        }
        let wrong = is_empty(self.ecu.default_name.as_str());
        push_error(&mut report, wrong, "[ecu] default_name must not be empty", Ghost(errors));
        proof {
            errors = errors + only_if(wrong, "[ecu] default_name must not be empty"@);
        }
        let wrong = self.ecu.eid.is_all_zeros();
        push_error(&mut report, wrong, "[ecu] eid must not be all zeros", Ghost(errors));
        proof {
            errors = errors + only_if(wrong, "[ecu] eid must not be all zeros"@);
        }
        let wrong = self.ecu.gid.is_all_zeros();
        push_error(&mut report, wrong, "[ecu] gid must not be all zeros", Ghost(errors));
        proof {
            errors = errors + only_if(wrong, "[ecu] gid must not be all zeros"@);
            assert(errors == config_errors(self@));
            lemma_bullets_empty(errors);
        }
        if is_empty(report.as_str()) {
            Ok(())
        } else {
            Err(
                ProxyError::Config(
                    concat("configuration validation failed:", report.as_str()),
                ),
            )
        }
    }
}

fn is_empty(s: &str) -> (empty: bool)
    ensures
        empty == (s@.len() == 0),
{
    crate::text::chars_of(s).len() == 0
}

/// The default configuration is valid.
pub proof fn lemma_defaults_are_valid()
    ensures
        config_errors(default_config()).len() == 0,
{
    reveal_strlit("uds2sovd_proxy");
    reveal_strlit("v15");
    reveal_strlit("ECU");
    let id = seq![0u8, 1, 2, 3, 4, 5];
    assert(id[1] != 0);
}

/// What makes the contents of a configuration file unusable.
#[derive(Debug, Clone, Copy, PartialEq, Eq, Structural)]
pub enum ConfigProblem {
    /// A port or an address is zero.
    ZeroValue,
    /// The number of connections is zero.
    ZeroConnections,
    /// The gateway URL is no URL.
    InvalidGatewayUrl,
    /// An identification does not have six bytes.
    WrongIdLength,
    /// The log level has no known name.
    UnknownLogLevel,
    /// The log format has no known name.
    UnknownLogFormat,
}

impl ConfigProblem {
    /// The text of the problem.
    pub open spec fn description(self) -> Seq<char> {
        match self {
            ConfigProblem::ZeroValue => "value must not be zero"@,
            ConfigProblem::ZeroConnections => "value must be greater than zero"@,
            ConfigProblem::InvalidGatewayUrl => "gateway_url must be an absolute URL"@,
            ConfigProblem::WrongIdLength => "invalid length, expected an array of length 6"@,
            ConfigProblem::UnknownLogLevel => "unknown log level"@,
            ConfigProblem::UnknownLogFormat => "unknown log format"@,
        }
    }

    /// The text of the problem.
    pub fn text(self) -> (text: &'static str)
        ensures
            text@ == self.description(),
    {
        match self {
            ConfigProblem::ZeroValue => "value must not be zero",
            ConfigProblem::ZeroConnections => "value must be greater than zero",
            ConfigProblem::InvalidGatewayUrl => "gateway_url must be an absolute URL",
            ConfigProblem::WrongIdLength => "invalid length, expected an array of length 6",
            ConfigProblem::UnknownLogLevel => "unknown log level",
            ConfigProblem::UnknownLogFormat => "unknown log format",
        }
    }
}

/// Accept a port or an address unless it is zero.
pub fn check_nonzero_u16(value: u16) -> (checked: std::result::Result<u16, ConfigProblem>)
    ensures
        checked == (if value == 0 {
            Err(ConfigProblem::ZeroValue)
        } else {
            Ok(value)
        }),
{
    if value == 0 {
        Err(ConfigProblem::ZeroValue)
    } else {
        Ok(value)
    }
}

/// Accept a number of connections unless it is zero.
pub fn check_max_connections(value: usize) -> (checked: std::result::Result<usize, ConfigProblem>)
    ensures
        checked == (if value == 0 {
            Err(ConfigProblem::ZeroConnections)
        } else {
            Ok(value)
        }),
{
    if value == 0 {
        Err(ConfigProblem::ZeroConnections)
    } else {
        Ok(value)
    }
}

/// The `[server]` section of a configuration file.
#[derive(Debug)]
pub struct ServerSection {
    pub doip_port: Option<u16>,
    pub bind_address: Option<String>,
    pub max_connections: Option<usize>,
    pub source_address: Option<u16>,
}

/// The `[sovd]` section of a configuration file.
#[derive(Debug)]
pub struct SovdSection {
    pub gateway_url: Option<String>,
    pub client_id: Option<String>,
    pub client_secret: Option<String>,
    pub timeout_ms: Option<u64>,
    pub api_version: Option<String>,
    pub include_schema: Option<bool>,
    pub mock_gateway: Option<bool>,
}

/// The `[ecu]` section of a configuration file.
#[derive(Debug)]
pub struct EcuSection {
    pub default_name: Option<String>,
    pub logical_address: Option<u16>,
    pub eid: Option<Vec<u8>>,
    pub gid: Option<Vec<u8>>,
}

/// The `[logging]` section of a configuration file.
#[derive(Debug)]
pub struct LoggingSection {
    pub level: Option<String>,
    pub format: Option<String>,
}

/// What a configuration file sets. What it leaves out is `None`.
#[derive(Debug)]
pub struct ConfigFile {
    pub server: ServerSection,
    pub sovd: SovdSection,
    pub ecu: EcuSection,
    pub logging: LoggingSection,
}

impl ConfigFile {
    /// No section of the file sets anything.
    pub open spec fn sets_nothing(self) -> bool {
        &&& self.server.doip_port is None
        &&& self.server.bind_address is None
        &&& self.server.max_connections is None
        &&& self.server.source_address is None
        &&& self.sovd.gateway_url is None
        &&& self.sovd.client_id is None
        &&& self.sovd.client_secret is None
        &&& self.sovd.timeout_ms is None
        &&& self.sovd.api_version is None
        &&& self.sovd.include_schema is None
        &&& self.sovd.mock_gateway is None
        &&& self.ecu.default_name is None
        &&& self.ecu.logical_address is None
        &&& self.ecu.eid is None
        &&& self.ecu.gid is None
        &&& self.logging.level is None
        &&& self.logging.format is None
    }

    /// A file that sets nothing.
    pub fn empty() -> (file: Self)
        ensures
            file.sets_nothing(),
            layered(file) == default_config(),
            file_problem(file) is None,
    {
        ConfigFile {
            server: ServerSection {
                doip_port: None,
                bind_address: None,
                max_connections: None,
                source_address: None,
            },
            sovd: SovdSection {
                gateway_url: None,
                client_id: None,
                client_secret: None,
                timeout_ms: None,
                api_version: None,
                include_schema: None,
                mock_gateway: None,
            },
            ecu: EcuSection { default_name: None, logical_address: None, eid: None, gid: None },
            logging: LoggingSection { level: None, format: None },
        }
    }
}

/// A setting, or its default.
pub open spec fn or_default<T>(setting: Option<T>, default: T) -> T {
    match setting {
        Some(value) => value,
        None => default,
    }
}

/// A text setting, or its default.
pub open spec fn text_or(setting: Option<String>, default: Seq<char>) -> Seq<char> {
    match setting {
        Some(value) => value@,
        None => default,
    }
}

/// A list of bytes, or its default.
pub open spec fn bytes_or(setting: Option<Vec<u8>>, default: Seq<u8>) -> Seq<u8> {
    match setting {
        Some(value) => value@,
        None => default,
    }
}

/// A level has this name.
pub open spec fn names_level(name: Seq<char>) -> bool {
    exists|l: LogLevel| (#[trigger] l.text()) == name
}

/// A format has this name.
pub open spec fn names_format(name: Seq<char>) -> bool {
    exists|f: LogFormat| (#[trigger] f.text()) == name
}

/// The first problem of a file, section by section.
pub open spec fn file_problem(file: ConfigFile) -> Option<ConfigProblem> {
    if file.server.doip_port == Some(0u16) {
        Some(ConfigProblem::ZeroValue)
    } else if file.server.max_connections == Some(0usize) {
        Some(ConfigProblem::ZeroConnections)
    } else if file.server.source_address == Some(0u16) {
        Some(ConfigProblem::ZeroValue)
    } else if file.sovd.gateway_url matches Some(url) && url_serialization(url@) is None {
        Some(ConfigProblem::InvalidGatewayUrl)
    } else if file.ecu.logical_address == Some(0u16) {
        Some(ConfigProblem::ZeroValue)
    } else if (file.ecu.eid matches Some(eid) && eid@.len() != 6) || (file.ecu.gid matches Some(gid)
        && gid@.len() != 6) {
        Some(ConfigProblem::WrongIdLength)
    } else if file.logging.level matches Some(name) && !names_level(name@) {
        Some(ConfigProblem::UnknownLogLevel)
    } else if file.logging.format matches Some(name) && !names_format(name@) {
        Some(ConfigProblem::UnknownLogFormat)
    } else {
        None
    }
}

/// The defaults, with what a file sets laid over them.
pub open spec fn layered(file: ConfigFile) -> ConfigView {
    let server = default_server();
    let sovd = default_sovd();
    let ecu = default_ecu();
    ConfigView {
        server: ServerView {
            doip_port: or_default(file.server.doip_port, server.doip_port),
            bind_address: text_or(file.server.bind_address, server.bind_address),
            max_connections: or_default(file.server.max_connections, server.max_connections),
            source_address: or_default(file.server.source_address, server.source_address),
        },
        sovd: SovdView {
            gateway_url: match file.sovd.gateway_url {
                Some(url) => url_serialization(url@)->0,
                None => sovd.gateway_url,
            },
            client_id: text_or(file.sovd.client_id, sovd.client_id),
            client_secret: text_or(file.sovd.client_secret, sovd.client_secret),
            timeout_ms: or_default(file.sovd.timeout_ms, sovd.timeout_ms),
            api_version: text_or(file.sovd.api_version, sovd.api_version),
            include_schema: or_default(file.sovd.include_schema, sovd.include_schema),
            mock_gateway: or_default(file.sovd.mock_gateway, sovd.mock_gateway),
        },
        ecu: EcuView {
            default_name: text_or(file.ecu.default_name, ecu.default_name),
            logical_address: or_default(file.ecu.logical_address, ecu.logical_address),
            eid: bytes_or(file.ecu.eid, ecu.eid),
            gid: bytes_or(file.ecu.gid, ecu.gid),
        },
        logging: LoggingConfig {
            level: match file.logging.level {
                Some(name) => choose|l: LogLevel| (#[trigger] l.text()) == name@,
                None => LogLevel::Info,
            },
            format: match file.logging.format {
                Some(name) => choose|f: LogFormat| (#[trigger] f.text()) == name@,
                None => LogFormat::Pretty,
            },
        },
    }
}

fn take_u16(setting: Option<u16>, default: u16) -> (value: std::result::Result<u16, ConfigProblem>)
    ensures
        value == (if setting == Some(0u16) {
            Err(ConfigProblem::ZeroValue)
        } else {
            Ok(or_default(setting, default))
        }),
{
    match setting {
        Some(value) => check_nonzero_u16(value),
        None => Ok(default),
    }
}

fn take_text(setting: Option<String>, default: String) -> (value: String)
    ensures
        value@ == text_or(setting, default@),
{
    match setting {
        Some(value) => value,
        None => default,
    }
}

fn take_id(setting: Option<Vec<u8>>, default: EidGid) -> (id: std::result::Result<
    EidGid,
    ConfigProblem,
>)
    ensures
        match id {
            Ok(id) => id.0@ == bytes_or(setting, default.0@) && (setting matches Some(bytes)
                ==> bytes@.len() == 6),
            Err(problem) => problem == ConfigProblem::WrongIdLength && (setting matches Some(bytes)
                && bytes@.len() != 6),
        },
{
    match setting {
        Some(bytes) => {
            if bytes.len() != 6 {
                return Err(ConfigProblem::WrongIdLength);
            }
            let id = EidGid([bytes[0], bytes[1], bytes[2], bytes[3], bytes[4], bytes[5]]);
            assert(id.0@ =~= bytes@);
            Ok(id)
        },
        None => Ok(default),
    }
}

fn take_server(section: ServerSection) -> (config: std::result::Result<ServerConfig, ConfigProblem>)
    ensures
        match config {
            Ok(config) => {
                &&& section.doip_port != Some(0u16)
                &&& section.max_connections != Some(0usize)
                &&& section.source_address != Some(0u16)
                &&& config@.doip_port == or_default(section.doip_port, 13_400)
                &&& config@.bind_address == text_or(section.bind_address, "0.0.0.0"@)
                &&& config@.max_connections == or_default(section.max_connections, 10)
                &&& config@.source_address == or_default(section.source_address, 0x0E80)
            },
            Err(problem) => if section.doip_port == Some(0u16) {
                problem == ConfigProblem::ZeroValue
            } else if section.max_connections == Some(0usize) {
                problem == ConfigProblem::ZeroConnections
            } else {
                section.source_address == Some(0u16) && problem == ConfigProblem::ZeroValue
            },
        },
{
    let default = ServerConfig::default();
    let doip_port: u16 = match take_u16(section.doip_port, default.doip_port) {
        Ok(value) => value,
        Err(problem) => {
            return Err(problem);
        },
    };
    let max_connections: usize = match section.max_connections {
        Some(value) => match check_max_connections(value) {
            Ok(value) => value,
            Err(problem) => {
                return Err(problem);
            },
        },
        None => default.max_connections,
    };
    let source_address: u16 = match take_u16(section.source_address, default.source_address) {
        Ok(value) => value,
        Err(problem) => {
            return Err(problem);
        },
    };
    Ok(
        ServerConfig {
            doip_port,
            bind_address: take_text(section.bind_address, default.bind_address),
            max_connections,
            source_address,
        },
    )
}

fn take_logging(section: LoggingSection) -> (config: std::result::Result<
    LoggingConfig,
    ConfigProblem,
>)
    ensures
        match config {
            Ok(config) => {
                &&& section.level matches Some(name) ==> names_level(name@) && config.level.text()
                    == name@
                &&& section.level is None ==> config.level == LogLevel::Info
                &&& section.format matches Some(name) ==> names_format(name@)
                    && config.format.text() == name@
                &&& section.format is None ==> config.format == LogFormat::Pretty
            },
            Err(problem) => if section.level matches Some(name) && !names_level(name@) {
                problem == ConfigProblem::UnknownLogLevel
            } else {
                problem == ConfigProblem::UnknownLogFormat && (section.format matches Some(name)
                    && !names_format(name@))
            },
        },
{
    let level = match section.level {
        Some(name) => match LogLevel::from_name(name.as_str()) {
            Some(level) => level,
            None => {
                return Err(ConfigProblem::UnknownLogLevel);
            },
        },
        None => LogLevel::default(),
    };
    let format = match section.format {
        Some(name) => match LogFormat::from_name(name.as_str()) {
            Some(format) => format,
            None => {
                return Err(ConfigProblem::UnknownLogFormat);
            },
        },
        None => LogFormat::default(),
    };
    Ok(LoggingConfig { level, format })
}

impl Config {
    /// Lay what a configuration file sets over the defaults.
    ///
    /// # Errors
    /// Returns the first problem of the file.
    pub fn from_sections(file: ConfigFile) -> (config: std::result::Result<Self, ConfigProblem>)
        ensures
            match config {
                Ok(config) => file_problem(file) is None && config@ == layered(file),
                Err(problem) => file_problem(file) == Some(problem),
            },
    {
        let server = match take_server(file.server) {
            Ok(server) => server,
            Err(problem) => {
                return Err(problem);
            },
        };
        let default = SovdConfig::default();
        let gateway_url = match file.sovd.gateway_url {
            Some(text) => match parse_gateway_url(text.as_str()) {
                Some(url) => url,
                None => {
                    return Err(ConfigProblem::InvalidGatewayUrl);
                },
            },
            None => default.gateway_url,
        };
        let sovd = SovdConfig {
            gateway_url,
            client_id: take_text(file.sovd.client_id, default.client_id),
            client_secret: take_text(file.sovd.client_secret, default.client_secret),
            timeout_ms: match file.sovd.timeout_ms {
                Some(value) => value,
                None => default.timeout_ms,
            },
            api_version: take_text(file.sovd.api_version, default.api_version),
            include_schema: match file.sovd.include_schema {
                Some(value) => value,
                None => default.include_schema,
            },
            mock_gateway: match file.sovd.mock_gateway {
                Some(value) => value,
                None => default.mock_gateway,
            },
        };
        let default = EcuConfig::default();
        let logical_address: u16 = match take_u16(
            file.ecu.logical_address,
            default.logical_address,
        ) {
            Ok(value) => value,
            Err(problem) => {
                return Err(problem);
            },
        };
        let eid = match take_id(file.ecu.eid, default.eid) {
            Ok(id) => id,
            Err(problem) => {
                return Err(problem);
            },
        };
        let gid = match take_id(file.ecu.gid, default.gid) {
            Ok(id) => id,
            Err(problem) => {
                return Err(problem);
            },
        };
        let ecu = EcuConfig {
            default_name: take_text(file.ecu.default_name, default.default_name),
            logical_address,
            eid,
            gid,
        };
        let logging = match take_logging(file.logging) {
            Ok(logging) => logging,
            Err(problem) => {
                return Err(problem);
            },
        };
        let config = Config { server, sovd, ecu, logging };
        proof {
            let wanted = layered(file).logging;
            lemma_log_names_unique(
                logging.level,
                wanted.level,
                logging.format,
                wanted.format,
            );
            assert(config@.logging == wanted);
        }
        Ok(config)
    }
}

/// Command line flags. Any flag set here overrides the corresponding value
/// from the configuration file.
#[derive(Debug, Clone)]
pub struct Cli {
    /// Path to the TOML configuration file.
    pub config: String,
    /// Override the IP address to bind to.
    pub bind_address: Option<String>,
    /// Override the SOVD gateway URL, in normal form.
    pub gateway_url: Option<String>,
    /// Enable mock gateway mode (no real HTTP calls).
    pub mock_gateway: bool,
    /// Override the log level.
    pub log_level: Option<LogLevel>,
    /// Override the log output format.
    pub log_format: Option<LogFormat>,
    /// MDD file to load (absolute path, or filename resolved under `mdd_dir`).
    pub mdd_file: String,
    /// Directory searched when `mdd_file` is a relative filename.
    pub mdd_dir: String,
}

/// A configuration with command line flags laid over it.
pub open spec fn overridden(base: ConfigView, cli: Cli) -> ConfigView {
    ConfigView {
        server: ServerView {
            bind_address: text_or(cli.bind_address, base.server.bind_address),
            ..base.server
        },
        sovd: SovdView {
            gateway_url: text_or(cli.gateway_url, base.sovd.gateway_url),
            mock_gateway: cli.mock_gateway || base.sovd.mock_gateway,
            ..base.sovd
        },
        logging: LoggingConfig {
            level: or_default(cli.log_level, base.logging.level),
            format: or_default(cli.log_format, base.logging.format),
        },
        ..base
    }
}

/// Why a configuration file could not be taken in.
#[derive(Debug)]
pub enum FileError {
    /// It could not be read.
    Unreadable(String),
    /// It could not be parsed.
    Unparsable(String),
}

/// The error text for a file.
pub open spec fn file_error_text(what: Seq<char>, path: Seq<char>, detail: Seq<char>) -> Seq<char> {
    what + path + "`: "@ + detail
}

/// `result` is what a file with this outcome gives: its layered and valid
/// configuration, or a configuration error that says what is wrong with it.
pub open spec fn is_file_result(
    result: Result<Config>,
    path: Seq<char>,
    file: std::result::Result<ConfigFile, FileError>,
) -> bool {
    match file {
        Err(FileError::Unreadable(detail)) => fails_with(
            result,
            file_error_text("cannot read `"@, path, detail@),
        ),
        Err(FileError::Unparsable(detail)) => fails_with(
            result,
            file_error_text("cannot parse `"@, path, detail@),
        ),
        Ok(file) => match file_problem(file) {
            Some(problem) => fails_with(
                result,
                file_error_text("cannot parse `"@, path, problem.description()),
            ),
            None => is_valid_result(result, layered(file)),
        },
    }
}

/// `result` is a configuration if it is valid, and an error that lists its
/// problems otherwise.
pub open spec fn is_valid_result(result: Result<Config>, config: ConfigView) -> bool {
    if config_errors(config).len() == 0 {
        result matches Ok(c) && c@ == config
    } else {
        fails_with(result, validation_text(config_errors(config)))
    }
}

fn file_error(what: &str, path: &str, detail: &str) -> (error: ProxyError)
    ensures
        error matches ProxyError::Config(message) && message@ == file_error_text(
            what@,
            path@,
            detail@,
        ),
{
    let mut message = concat(what, path);
    message.append("`: ");
    message.append(detail);
    ProxyError::Config(message)
}

impl Config {
    /// Take in and validate a configuration file (without CLI overrides).
    ///
    /// # Errors
    /// Returns [`ProxyError::Config`] if the file cannot be read, parsed, or
    /// if the resulting configuration fails validation.
    pub fn from_file(
        path: &str,
        file: std::result::Result<ConfigFile, FileError>,
    ) -> (config: Result<Self>)
        ensures
            is_file_result(config, path@, file),
    {
        let file = match file {
            Ok(file) => file,
            Err(FileError::Unreadable(detail)) => {
                return Err(file_error("cannot read `", path, detail.as_str()));
            },
            Err(FileError::Unparsable(detail)) => {
                return Err(file_error("cannot parse `", path, detail.as_str()));
            },
        };
        let config = match Config::from_sections(file) {
            Ok(config) => config,
            Err(problem) => {
                return Err(file_error("cannot parse `", path, problem.text()));
            },
        };
        match config.validate() {
            Ok(()) => Ok(config),
            Err(error) => Err(error),
        }
    }

    /// Build a fully-validated [`Config`] by layering defaults, a TOML file,
    /// and CLI overrides.
    ///
    /// `file` is what the file at `cli.config` holds, or `None` if there is no
    /// such file.
    ///
    /// # Layer order
    /// 1. [`Default`] values
    /// 2. TOML file at the path given by `cli.config`
    /// 3. CLI flags
    ///
    /// # Errors
    /// Returns [`ProxyError::Config`] if the TOML file cannot be read/parsed
    /// or if the merged configuration fails validation.
    pub fn load(
        cli: &Cli,
        file: Option<std::result::Result<ConfigFile, FileError>>,
    ) -> (config: Result<Self>)
        ensures
            match file {
                None => is_valid_result(config, overridden(default_config(), *cli)),
                Some(file) => if file is Ok && file_problem(file->Ok_0) is None && config_errors(
                    layered(file->Ok_0),
                ).len() == 0 {
                    is_valid_result(config, overridden(layered(file->Ok_0), *cli))
                } else {
                    is_file_result(config, cli.config@, file)
                },
            },
    {
        let mut config = match file {
            Some(file) => match Config::from_file(cli.config.as_str(), file) {
                Ok(config) => config,
                Err(error) => {
                    return Err(error);
                },
            },
            None => Config::default(),
        };
        let ghost base = config@;
        if let Some(address) = &cli.bind_address {
            config.server.bind_address = address.clone();
        }
        if let Some(url) = &cli.gateway_url {
            config.sovd.gateway_url = url.clone();
        }
        if cli.mock_gateway {
            config.sovd.mock_gateway = true;
        }
        if let Some(level) = cli.log_level {
            config.logging.level = level;
        }
        if let Some(format) = cli.log_format {
            config.logging.format = format;
        }
        assert(config@ == overridden(base, *cli));
        match config.validate() {
            Ok(()) => Ok(config),
            Err(error) => Err(error),
        }
    }
}

/// Command line flags change nothing but what they set: they never make a
/// valid configuration invalid, and without any the configuration stays as it
/// is.
pub proof fn lemma_overrides_keep_validity(base: ConfigView, cli: Cli)
    ensures
        config_errors(overridden(base, cli)) == config_errors(base),
        cli.bind_address is None && cli.gateway_url is None && !cli.mock_gateway
            && cli.log_level is None && cli.log_format is None ==> overridden(base, cli) == base,
{
}

/// The command line wins over the file, and the file wins over the defaults.
pub proof fn lemma_layer_order(file: ConfigFile, cli: Cli)
    ensures
        ({
            let config = overridden(layered(file), cli);
            &&& config.server.bind_address == text_or(
                cli.bind_address,
                text_or(file.server.bind_address, default_server().bind_address),
            )
            &&& cli.gateway_url matches Some(url) ==> config.sovd.gateway_url == url@
            &&& cli.mock_gateway ==> config.sovd.mock_gateway
            &&& cli.log_level matches Some(level) ==> config.logging.level == level
            &&& cli.log_format matches Some(format) ==> config.logging.format == format
            &&& file.ecu.default_name matches Some(name) ==> config.ecu.default_name == name@
            &&& file.sovd.api_version is None ==> config.sovd.api_version
                == default_sovd().api_version
        }),
{
}

impl LoggingConfig {
    /// The log filter: the level for the proxy, with the noise of the
    /// diagnostic libraries turned down.
    pub fn filter_directive(&self) -> (directive: String)
        ensures
            directive@ == self.level.text()
                + ",cda_core=off,cda_database=warn,cda_interfaces=warn,cda_comm_uds=warn"@,
    {
        concat(
            self.level.name(),
            ",cda_core=off,cda_database=warn,cda_interfaces=warn,cda_comm_uds=warn",
        )
    }
}

} // verus!
