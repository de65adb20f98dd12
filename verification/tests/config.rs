//! Defaults, the configuration file, command line overrides and validation.

use uds2sovd_proxy::config::{
    check_max_connections, check_nonzero_u16, parse_gateway_url, Cli, Config, ConfigFile,
    ConfigProblem, EidGid, FileError, LogFormat, LogLevel, LoggingConfig, ServerConfig, SovdConfig,
};
use uds2sovd_proxy::error::ProxyError;

fn text(table: Option<&toml::Value>, key: &str) -> Option<String> {
    table?.get(key)?.as_str().map(str::to_owned)
}

fn number(table: Option<&toml::Value>, key: &str) -> Option<i64> {
    table?.get(key)?.as_integer()
}

fn flag(table: Option<&toml::Value>, key: &str) -> Option<bool> {
    table?.get(key)?.as_bool()
}

fn bytes(table: Option<&toml::Value>, key: &str) -> Option<Vec<u8>> {
    let items = table?.get(key)?.as_array()?;
    Some(
        items
            .iter()
            .map(|i| u8::try_from(i.as_integer().unwrap()).unwrap())
            .collect(),
    )
}

fn sections(raw: &str) -> ConfigFile {
    let root: toml::Value = toml::from_str(raw).expect("valid TOML");
    let mut file = ConfigFile::empty();
    let server = root.get("server");
    file.server.doip_port = number(server, "doip_port").map(|n| n as u16);
    file.server.bind_address = text(server, "bind_address");
    file.server.max_connections = number(server, "max_connections").map(|n| n as usize);
    file.server.source_address = number(server, "source_address").map(|n| n as u16);
    let sovd = root.get("sovd");
    file.sovd.gateway_url = text(sovd, "gateway_url");
    file.sovd.client_id = text(sovd, "client_id");
    file.sovd.client_secret = text(sovd, "client_secret");
    file.sovd.timeout_ms = number(sovd, "timeout_ms").map(|n| n as u64);
    file.sovd.api_version = text(sovd, "api_version");
    file.sovd.include_schema = flag(sovd, "include_schema");
    file.sovd.mock_gateway = flag(sovd, "mock_gateway");
    let ecu = root.get("ecu");
    file.ecu.default_name = text(ecu, "default_name");
    file.ecu.logical_address = number(ecu, "logical_address").map(|n| n as u16);
    file.ecu.eid = bytes(ecu, "eid");
    file.ecu.gid = bytes(ecu, "gid");
    let logging = root.get("logging");
    file.logging.level = text(logging, "level");
    file.logging.format = text(logging, "format");
    file
}

fn cli() -> Cli {
    Cli {
        config: "config/config.toml".to_owned(),
        bind_address: None,
        gateway_url: None,
        mock_gateway: false,
        log_level: None,
        log_format: None,
        mdd_file: "test.mdd".to_owned(),
        mdd_dir: "testcontainer/mdd".to_owned(),
    }
}

#[test]
fn eid_gid_holds_expected_bytes() {
    let eid = EidGid([0x00, 0x1A, 0x2B, 0x3C, 0x4D, 0x5E]);
    assert_eq!(eid.0, [0x00, 0x1A, 0x2B, 0x3C, 0x4D, 0x5E]);
}

#[test]
fn eid_gid_all_zeros_detected() {
    let eid = EidGid([0u8; 6]);
    assert!(eid.is_all_zeros());

    let eid2 = EidGid([0, 1, 2, 3, 4, 5]);
    assert!(!eid2.is_all_zeros());
}

#[test]
fn eid_gid_default_bytes() {
    assert_eq!(EidGid::default().0, [0, 1, 2, 3, 4, 5]);
    assert!(!EidGid([0, 0, 0, 0, 0, 1]).is_all_zeros());
}

#[test]
fn log_level_deserializes_all_variants_from_toml() {
    for (raw, expected) in [
        ("error", LogLevel::Error),
        ("warn", LogLevel::Warn),
        ("info", LogLevel::Info),
        ("debug", LogLevel::Debug),
        ("trace", LogLevel::Trace),
    ] {
        let file = sections(&format!("[logging]\nlevel = \"{raw}\""));
        let config = Config::from_sections(file).expect("valid level");
        assert_eq!(config.logging.level, expected);
        assert_eq!(LogLevel::from_name(raw), Some(expected));
        assert_eq!(expected.name(), raw);
    }
}

#[test]
fn log_format_deserializes_all_variants_from_toml() {
    for (raw, expected) in [("pretty", LogFormat::Pretty), ("json", LogFormat::Json)] {
        let file = sections(&format!("[logging]\nformat = \"{raw}\""));
        let config = Config::from_sections(file).expect("valid format");
        assert_eq!(config.logging.format, expected);
    }
}

#[test]
fn server_defaults_are_sane() {
    let s = ServerConfig::default();
    assert_eq!(s.doip_port, 13_400);
    assert_eq!(s.max_connections, 10);
}

#[test]
fn sovd_defaults_are_sane() {
    let s = SovdConfig::default();
    assert!(s.mock_gateway);
    assert!(s.include_schema);
    assert_eq!(s.timeout_ms, 5_000);
}

#[test]
fn other_defaults() {
    let config = Config::default();
    assert_eq!(config.server.bind_address, "0.0.0.0");
    assert_eq!(config.server.source_address, 0x0E80);
    assert_eq!(config.sovd.client_id, "uds2sovd_proxy");
    assert_eq!(config.sovd.client_secret, "test_secret");
    assert_eq!(config.sovd.api_version, "v15");
    assert_eq!(config.ecu.default_name, "ECU");
    assert_eq!(config.ecu.logical_address, 1);
    assert_eq!(config.logging.level, LogLevel::Info);
    assert_eq!(config.logging.format, LogFormat::Pretty);
    assert!(config.validate().is_ok());
}

#[test]
fn default_gateway_url_is_in_normal_form() {
    let url = SovdConfig::default().gateway_url;
    assert_eq!(parse_gateway_url("http://localhost:20002"), Some(url.clone()));
    assert_eq!(parse_gateway_url(&url), Some(url));
}

#[test]
fn gateway_urls_are_normalised() {
    assert_eq!(
        parse_gateway_url("HTTP://Example.COM:80/a/../b"),
        Some("http://example.com/b".to_owned())
    );
    assert_eq!(parse_gateway_url("not a valid url"), None);
    assert_eq!(parse_gateway_url(""), None);
}

#[test]
fn validation_rejects_empty_client_id() {
    let mut config = Config::default();
    config.sovd.client_id = String::new();
    assert!(config.validate().is_err());
}

#[test]
fn validation_rejects_all_zero_eid() {
    let mut config = Config::default();
    config.ecu.eid = EidGid([0u8; 6]);
    assert!(config.validate().is_err());
}

#[test]
fn validation_rejects_zero_max_connections() {
    let mut config = Config::default();
    config.server.max_connections = 0;
    assert!(config.validate().is_err());
}

#[test]
fn validation_accumulates_multiple_errors() {
    let mut config = Config::default();
    config.sovd.client_id = String::new();
    config.sovd.api_version = String::new();
    config.ecu.eid = EidGid([0u8; 6]);
    let err = config.validate().unwrap_err().to_string();
    // Three separate bullets should appear.
    assert_eq!(err.matches("  - ").count(), 3);
}

#[test]
fn validation_lists_every_problem() {
    let mut config = Config::default();
    config.server.max_connections = 0;
    config.sovd.client_id = String::new();
    config.sovd.api_version = String::new();
    config.ecu.default_name = String::new();
    config.ecu.eid = EidGid([0u8; 6]);
    config.ecu.gid = EidGid([0u8; 6]);
    match config.validate() {
        Err(ProxyError::Config(message)) => assert_eq!(
            message,
            "configuration validation failed:\
             \n  - [server] max_connections must be greater than zero\
             \n  - [sovd] client_id must not be empty\
             \n  - [sovd] api_version must not be empty\
             \n  - [ecu] default_name must not be empty\
             \n  - [ecu] eid must not be all zeros\
             \n  - [ecu] gid must not be all zeros"
        ),
        other => panic!("unexpected {other:?}"),
    }
}

#[test]
fn toml_parses_complete_config() {
    let raw = r#"
[server]
bind_address   = "127.0.0.1"
max_connections = 5
source_address = 3712

[sovd]
gateway_url  = "http://localhost:20002"
client_id    = "test"
client_secret = "secret"
timeout_ms   = 3000
api_version  = "v15"
include_schema = false
mock_gateway   = true

[ecu]
default_name    = "TEST_ECU"
logical_address = 1
eid = [0, 1, 2, 3, 4, 5]
gid = [0, 1, 2, 3, 4, 5]

[logging]
level  = "debug"
format = "json"
"#;
    let cfg = Config::from_sections(sections(raw)).expect("valid TOML");
    assert!(cfg.sovd.mock_gateway);
    assert_eq!(cfg.logging.level, LogLevel::Debug);
    assert_eq!(cfg.logging.format, LogFormat::Json);
    assert_eq!(cfg.server.doip_port, 13_400);
    assert_eq!(cfg.server.bind_address, "127.0.0.1");
    assert_eq!(cfg.server.max_connections, 5);
    assert_eq!(cfg.sovd.timeout_ms, 3000);
    assert!(!cfg.sovd.include_schema);
    assert_eq!(cfg.ecu.default_name, "TEST_ECU");
}

#[test]
fn deserialize_rejects_zero_max_connections() {
    let toml_str = r#"
[server]
bind_address = "0.0.0.0"
max_connections = 0
source_address = 3712

[sovd]
gateway_url = "http://localhost:20002"
client_id = "test"
client_secret = "secret"
timeout_ms = 5000
api_version = "v15"

[ecu]
default_name = "ECU"
logical_address = 1
eid = [0, 1, 2, 3, 4, 5]
gid = [0, 1, 2, 3, 4, 5]

[logging]
level = "info"
format = "pretty"
"#;
    let result = Config::from_sections(sections(toml_str));
    assert!(result.is_err(), "max_connections=0 should be rejected");
    assert_eq!(result.err(), Some(ConfigProblem::ZeroConnections));
}

#[test]
fn deserialize_rejects_zero_logical_address() {
    let toml_str = r#"
[server]
bind_address = "0.0.0.0"
max_connections = 10
source_address = 3712

[sovd]
gateway_url = "http://localhost:20002"
client_id = "test"
client_secret = "secret"
timeout_ms = 5000
api_version = "v15"

[ecu]
default_name = "ECU"
logical_address = 0
eid = [0, 1, 2, 3, 4, 5]
gid = [0, 1, 2, 3, 4, 5]

[logging]
level = "info"
format = "pretty"
"#;
    let result = Config::from_sections(sections(toml_str));
    assert!(result.is_err(), "logical_address=0 should be rejected");
    assert_eq!(result.err(), Some(ConfigProblem::ZeroValue));
}

#[test]
fn deserialize_rejects_wrong_eid_length() {
    let toml_str = r#"
[server]
bind_address = "0.0.0.0"
max_connections = 10
source_address = 3712

[sovd]
gateway_url = "http://localhost:20002"
client_id = "test"
client_secret = "secret"
timeout_ms = 5000
api_version = "v15"

[ecu]
default_name = "ECU"
logical_address = 1
eid = [0, 1, 2]
gid = [0, 1, 2, 3, 4, 5]

[logging]
level = "info"
format = "pretty"
"#;
    let result = Config::from_sections(sections(toml_str));
    assert!(result.is_err(), "eid with wrong length should be rejected");
    assert_eq!(result.err(), Some(ConfigProblem::WrongIdLength));
}

#[test]
fn deserialize_rejects_invalid_gateway_url() {
    let toml_str = r#"
[server]
bind_address = "0.0.0.0"
max_connections = 10
source_address = 3712

[sovd]
gateway_url = "not a valid url"
client_id = "test"
client_secret = "secret"
timeout_ms = 5000
api_version = "v15"

[ecu]
default_name = "ECU"
logical_address = 1
eid = [0, 1, 2, 3, 4, 5]
gid = [0, 1, 2, 3, 4, 5]

[logging]
level = "info"
format = "pretty"
"#;
    let result = Config::from_sections(sections(toml_str));
    assert!(result.is_err(), "invalid gateway_url should be rejected");
    assert_eq!(result.err(), Some(ConfigProblem::InvalidGatewayUrl));
}

#[test]
fn deserialize_rejects_invalid_log_level() {
    let toml_str = r#"
[server]
bind_address = "0.0.0.0"
max_connections = 10
source_address = 3712

[sovd]
gateway_url = "http://localhost:20002"
client_id = "test"
client_secret = "secret"
timeout_ms = 5000
api_version = "v15"

[ecu]
default_name = "ECU"
logical_address = 1
eid = [0, 1, 2, 3, 4, 5]
gid = [0, 1, 2, 3, 4, 5]

[logging]
level = "verbose"
format = "pretty"
"#;
    let result = Config::from_sections(sections(toml_str));
    assert!(result.is_err(), "invalid log level should be rejected");
    assert_eq!(result.err(), Some(ConfigProblem::UnknownLogLevel));
}

#[test]
fn file_rejects_zero_addresses_and_unknown_format() {
    let problem = |raw: &str| Config::from_sections(sections(raw)).err();
    assert_eq!(
        problem("[server]\ndoip_port = 0"),
        Some(ConfigProblem::ZeroValue)
    );
    assert_eq!(
        problem("[server]\nsource_address = 0"),
        Some(ConfigProblem::ZeroValue)
    );
    assert_eq!(
        problem("[ecu]\ngid = [1, 2, 3, 4, 5, 6, 7]"),
        Some(ConfigProblem::WrongIdLength)
    );
    assert_eq!(
        problem("[logging]\nformat = \"Pretty\""),
        Some(ConfigProblem::UnknownLogFormat)
    );
    assert_eq!(check_nonzero_u16(0), Err(ConfigProblem::ZeroValue));
    assert_eq!(check_nonzero_u16(7), Ok(7));
    assert_eq!(check_max_connections(0), Err(ConfigProblem::ZeroConnections));
    assert_eq!(check_max_connections(3), Ok(3));
}

#[test]
fn problems_have_texts() {
    assert_eq!(ConfigProblem::ZeroValue.text(), "value must not be zero");
    assert_eq!(
        ConfigProblem::ZeroConnections.text(),
        "value must be greater than zero"
    );
    assert_eq!(
        ConfigProblem::InvalidGatewayUrl.text(),
        "gateway_url must be an absolute URL"
    );
    assert_eq!(
        ConfigProblem::WrongIdLength.text(),
        "invalid length, expected an array of length 6"
    );
    assert_eq!(ConfigProblem::UnknownLogLevel.text(), "unknown log level");
    assert_eq!(ConfigProblem::UnknownLogFormat.text(), "unknown log format");
}

#[test]
fn cli_overrides_default_values() {
    let mut cli = cli();
    cli.config = "/nonexistent/path.toml".to_owned();
    cli.log_level = Some(LogLevel::Debug);
    cli.mock_gateway = true;

    let config = Config::load(&cli, None).expect("should build from defaults + CLI");
    assert_eq!(config.logging.level, LogLevel::Debug);
    assert!(config.sovd.mock_gateway);
}

#[test]
fn toml_with_missing_sections_uses_defaults() {
    let raw = r#"
[server]
bind_address = "127.0.0.1"
max_connections = 5
source_address = 3712
"#;
    let cfg = Config::from_sections(sections(raw)).expect("partial TOML should parse");
    assert_eq!(cfg.sovd.api_version, "v15");
    assert_eq!(cfg.logging.level, LogLevel::Info);
}

#[test]
fn layers_are_laid_over_each_other() {
    let file = sections(
        "[server]\nbind_address = \"10.0.0.1\"\n[sovd]\nmock_gateway = false\n\
         gateway_url = \"http://gw\"\n[logging]\nlevel = \"warn\"\nformat = \"json\"\n\
         [ecu]\ndefault_name = \"A\"",
    );
    let mut flags = cli();
    flags.bind_address = Some("10.0.0.2".to_owned());
    flags.gateway_url = Some("http://other/".to_owned());
    flags.log_format = Some(LogFormat::Pretty);
    let config = Config::load(&flags, Some(Ok(file))).unwrap();
    assert_eq!(config.server.bind_address, "10.0.0.2");
    assert_eq!(config.server.doip_port, 13_400);
    assert_eq!(config.sovd.gateway_url, "http://other/");
    assert!(!config.sovd.mock_gateway);
    assert_eq!(config.logging.level, LogLevel::Warn);
    assert_eq!(config.logging.format, LogFormat::Pretty);
    assert_eq!(config.ecu.default_name, "A");
}

#[test]
fn files_that_cannot_be_used_are_reported() {
    let message = |file: Result<ConfigFile, FileError>| match Config::load(&cli(), Some(file)) {
        Err(ProxyError::Config(message)) => message,
        _ => panic!("must fail"),
    };
    assert_eq!(
        message(Err(FileError::Unreadable("denied".to_owned()))),
        "cannot read `config/config.toml`: denied"
    );
    assert_eq!(
        message(Err(FileError::Unparsable("line 1".to_owned()))),
        "cannot parse `config/config.toml`: line 1"
    );
    assert_eq!(
        message(Ok(sections("[server]\ndoip_port = 0"))),
        "cannot parse `config/config.toml`: value must not be zero"
    );
    assert_eq!(
        message(Ok(sections("[ecu]\ndefault_name = \"\""))),
        "configuration validation failed:\n  - [ecu] default_name must not be empty"
    );
    assert!(Config::from_file("x.toml", Ok(ConfigFile::empty())).is_ok());
}

#[test]
fn log_filter_names_the_level() {
    let logging = LoggingConfig {
        level: LogLevel::Trace,
        format: LogFormat::Json,
    };
    assert_eq!(
        logging.filter_directive(),
        "trace,cda_core=off,cda_database=warn,cda_interfaces=warn,cda_comm_uds=warn"
    );
}
