//! What configurations promise, setting by setting.

use crate::config::{
    all_zeros, bullets, check_max_connections, check_nonzero_u16, config_errors, default_config,
    file_error_text, file_problem, is_file_result, is_valid_result, layered,
    lemma_defaults_are_valid, lemma_log_names_unique, names_format, names_level, only_if,
    overridden, url_serialization, validation_text, Cli, Config, ConfigFile, ConfigProblem,
    ConfigView, EidGid, FileError, LogFormat, LogLevel, LoggingConfig,
};
use crate::error::{ProxyError, Result};
use vstd::prelude::*;

verus! {

/// Whether something holds, as a number to count with.
pub open spec fn one_if(holds: bool) -> int {
    if holds {
        1
    } else {
        0
    }
}

/// The bytes are zeros, however many.
pub open spec fn are_zeros(bytes: Seq<u8>) -> bool {
    bytes == Seq::new(bytes.len(), |i: int| 0u8)
}

proof fn lemma_are_zeros(bytes: Seq<u8>)
    ensures
        are_zeros(bytes) <==> all_zeros(bytes),
{
    if all_zeros(bytes) {
        assert(bytes =~= Seq::new(bytes.len(), |i: int| 0u8));
    }
    if are_zeros(bytes) {
        let zeros = Seq::new(bytes.len(), |i: int| 0u8);
        assert forall|i: int| 0 <= i < bytes.len() implies #[trigger] bytes[i] == 0 by {
            assert(zeros[i] == 0);
        }
    }
}

/// A configuration is valid exactly if it allows a connection, names a client, a
/// version and an ECU, and neither identification is all zeros. Nothing else
/// matters.
pub proof fn law_valid_configurations(config: ConfigView)
    ensures
        config_errors(config).len() == 0 <==> {
            &&& config.server.max_connections >= 1
            &&& config.sovd.client_id.len() >= 1
            &&& config.sovd.api_version.len() >= 1
            &&& config.ecu.default_name.len() >= 1
            &&& !are_zeros(config.ecu.eid)
            &&& !are_zeros(config.ecu.gid)
        },
{
    lemma_are_zeros(config.ecu.eid);
    lemma_are_zeros(config.ecu.gid);
}

/// Everything that is wrong with a configuration is reported, each thing once
/// and behind those in front of it.
pub proof fn law_every_error_is_reported(config: ConfigView)
    ensures
        ({
            let errors = config_errors(config);
            let connections = config.server.max_connections == 0;
            let client = config.sovd.client_id.len() == 0;
            let version = config.sovd.api_version.len() == 0;
            let name = config.ecu.default_name.len() == 0;
            let eid = are_zeros(config.ecu.eid);
            let gid = are_zeros(config.ecu.gid);
            let up_to_client = one_if(connections) + one_if(client);
            let up_to_name = up_to_client + one_if(version) + one_if(name);
            &&& errors.len() == up_to_name + one_if(eid) + one_if(gid)
            &&& connections ==> errors[0] == "[server] max_connections must be greater than zero"@
            &&& client ==> errors[one_if(connections)] == "[sovd] client_id must not be empty"@
            &&& version ==> errors[up_to_client] == "[sovd] api_version must not be empty"@
            &&& name ==> errors[up_to_client + one_if(version)]
                == "[ecu] default_name must not be empty"@
            &&& eid ==> errors[up_to_name] == "[ecu] eid must not be all zeros"@
            &&& gid ==> errors[up_to_name + one_if(eid)] == "[ecu] gid must not be all zeros"@
        }),
{
    lemma_are_zeros(config.ecu.eid);
    lemma_are_zeros(config.ecu.gid);
    let none = Seq::<Seq<char>>::empty();
    let after_connections = with_text(
        none,
        config.server.max_connections == 0,
        "[server] max_connections must be greater than zero"@,
    );
    let after_client = with_text(
        after_connections,
        config.sovd.client_id.len() == 0,
        "[sovd] client_id must not be empty"@,
    );
    let after_version = with_text(
        after_client,
        config.sovd.api_version.len() == 0,
        "[sovd] api_version must not be empty"@,
    );
    let after_name = with_text(
        after_version,
        config.ecu.default_name.len() == 0,
        "[ecu] default_name must not be empty"@,
    );
    let after_eid = with_text(
        after_name,
        all_zeros(config.ecu.eid),
        "[ecu] eid must not be all zeros"@,
    );
    let after_gid = with_text(
        after_eid,
        all_zeros(config.ecu.gid),
        "[ecu] gid must not be all zeros"@,
    );
    assert(config_errors(config) == after_gid);
}

/// Appends a text if something is wrong. What was listed before stays in place.
proof fn with_text(texts: Seq<Seq<char>>, wrong: bool, text: Seq<char>) -> (more: Seq<Seq<char>>)
    ensures
        more == texts + only_if(wrong, text),
        more.len() == texts.len() + one_if(wrong),
        wrong ==> more[texts.len() as int] == text,
        forall|i: int| 0 <= i < texts.len() ==> #[trigger] more[i] == texts[i],
{
    texts + only_if(wrong, text)
}

/// The report of what is wrong: a heading, and each text on a line of its own,
/// behind two spaces and a dash.
pub proof fn law_report(a: Seq<Seq<char>>, b: Seq<Seq<char>>, text: Seq<char>)
    ensures
        validation_text(a) == "configuration validation failed:"@ + bullets(a),
        bullets(a + b) == bullets(a) + bullets(b),
        bullets(seq![text]) == seq!['\n', ' ', ' ', '-', ' '] + text,
        bullets(Seq::empty()) == Seq::<char>::empty(),
    decreases b.len(),
{
    reveal_with_fuel(bullets, 2);
    reveal_strlit("\n  - ");
    assert(seq![text].drop_last() =~= Seq::<Seq<char>>::empty());
    assert(bullets(seq![text]) =~= seq!['\n', ' ', ' ', '-', ' '] + text);
    if b.len() == 0 {
        assert(a + b =~= a);
        assert(bullets(a) + bullets(b) =~= bullets(a));
    } else {
        assert((a + b).drop_last() =~= a + b.drop_last());
        law_report(a, b.drop_last(), text);
        assert(bullets(a + b) =~= bullets(a) + bullets(b));
    }
}

/// What a file sets for the server is taken as it is, and what it leaves out
/// has its default.
pub proof fn law_server_settings(file: ConfigFile)
    ensures
        ({
            let server = layered(file).server;
            &&& file.server.doip_port matches Some(port) ==> server.doip_port == port
            &&& file.server.doip_port is None ==> server.doip_port == 13400
            &&& file.server.bind_address matches Some(address) ==> server.bind_address == address@
            &&& file.server.bind_address is None ==> server.bind_address == "0.0.0.0"@
            &&& file.server.max_connections matches Some(count) ==> server.max_connections == count
            &&& file.server.max_connections is None ==> server.max_connections == 10
            &&& file.server.source_address matches Some(address) ==> server.source_address
                == address
            &&& file.server.source_address is None ==> server.source_address == 0x0E80
        }),
{
}

/// What a file sets for the gateway is taken as it is, but for the URL, which
/// is taken in normal form. What it leaves out has its default.
pub proof fn law_gateway_settings(file: ConfigFile)
    ensures
        ({
            let sovd = layered(file).sovd;
            &&& file.sovd.gateway_url matches Some(url) ==> url_serialization(url@) is Some
                ==> url_serialization(url@) == Some(sovd.gateway_url)
            &&& file.sovd.gateway_url is None ==> sovd.gateway_url == "http://localhost:20002/"@
            &&& file.sovd.client_id matches Some(id) ==> sovd.client_id == id@
            &&& file.sovd.client_id is None ==> sovd.client_id == "uds2sovd_proxy"@
            &&& file.sovd.client_secret matches Some(secret) ==> sovd.client_secret == secret@
            &&& file.sovd.client_secret is None ==> sovd.client_secret == "test_secret"@
            &&& file.sovd.timeout_ms matches Some(timeout) ==> sovd.timeout_ms == timeout
            &&& file.sovd.timeout_ms is None ==> sovd.timeout_ms == 5000
            &&& file.sovd.api_version matches Some(version) ==> sovd.api_version == version@
            &&& file.sovd.api_version is None ==> sovd.api_version == "v15"@
            &&& file.sovd.include_schema matches Some(yes) ==> sovd.include_schema == yes
            &&& file.sovd.include_schema is None ==> sovd.include_schema
            &&& file.sovd.mock_gateway matches Some(yes) ==> sovd.mock_gateway == yes
            &&& file.sovd.mock_gateway is None ==> sovd.mock_gateway
        }),
{
}

/// What a file sets for the ECU is taken as it is, and what it leaves out has
/// its default.
pub proof fn law_ecu_settings(file: ConfigFile)
    ensures
        ({
            let ecu = layered(file).ecu;
            &&& file.ecu.default_name matches Some(name) ==> ecu.default_name == name@
            &&& file.ecu.default_name is None ==> ecu.default_name == "ECU"@
            &&& file.ecu.logical_address matches Some(address) ==> ecu.logical_address == address
            &&& file.ecu.logical_address is None ==> ecu.logical_address == 1
            &&& file.ecu.eid matches Some(id) ==> ecu.eid == id@
            &&& file.ecu.eid is None ==> ecu.eid == Seq::new(6, |i: int| i as u8)
            &&& file.ecu.gid matches Some(id) ==> ecu.gid == id@
            &&& file.ecu.gid is None ==> ecu.gid == Seq::new(6, |i: int| i as u8)
        }),
{
    assert(seq![0u8, 1, 2, 3, 4, 5] =~= Seq::new(6, |i: int| i as u8));
}

/// A log level or format that a file names is the one that has this name.
/// Without one it is `info` or `pretty`.
pub proof fn law_logging_settings(file: ConfigFile, level: LogLevel, format: LogFormat)
    ensures
        (file.logging.level matches Some(name) && name@ == level.text()) ==> layered(
            file,
        ).logging.level == level,
        file.logging.level is None ==> layered(file).logging.level == LogLevel::Info,
        (file.logging.format matches Some(name) && name@ == format.text()) ==> layered(
            file,
        ).logging.format == format,
        file.logging.format is None ==> layered(file).logging.format == LogFormat::Pretty,
{
    let logging = layered(file).logging;
    lemma_log_names_unique(logging.level, level, logging.format, format);
}

/// The names of log levels and formats, letter by letter.
pub proof fn law_log_names()
    ensures
        LogLevel::Error.text() == seq!['e', 'r', 'r', 'o', 'r'],
        LogLevel::Warn.text() == seq!['w', 'a', 'r', 'n'],
        LogLevel::Info.text() == seq!['i', 'n', 'f', 'o'],
        LogLevel::Debug.text() == seq!['d', 'e', 'b', 'u', 'g'],
        LogLevel::Trace.text() == seq!['t', 'r', 'a', 'c', 'e'],
        LogFormat::Pretty.text() == seq!['p', 'r', 'e', 't', 't', 'y'],
        LogFormat::Json.text() == seq!['j', 's', 'o', 'n'],
{
    reveal_strlit("error");
    reveal_strlit("warn");
    reveal_strlit("info");
    reveal_strlit("debug");
    reveal_strlit("trace");
    reveal_strlit("pretty");
    reveal_strlit("json");
}

/// A file is usable exactly if no port, address or number of connections that
/// it sets is zero, its URL is one, its identifications have six bytes, and its
/// log level and format have known names.
pub proof fn law_usable_files(file: ConfigFile)
    ensures
        file_problem(file) is None <==> {
            &&& file.server.doip_port matches Some(port) ==> port > 0
            &&& file.server.max_connections matches Some(count) ==> count > 0
            &&& file.server.source_address matches Some(address) ==> address > 0
            &&& file.sovd.gateway_url matches Some(url) ==> url_serialization(url@) is Some
            &&& file.ecu.logical_address matches Some(address) ==> address > 0
            &&& file.ecu.eid matches Some(id) ==> id@.len() == 6
            &&& file.ecu.gid matches Some(id) ==> id@.len() == 6
            &&& file.logging.level matches Some(name) ==> exists|l: LogLevel|
                #[trigger] l.text() == name@
            &&& file.logging.format matches Some(name) ==> exists|f: LogFormat|
                #[trigger] f.text() == name@
        },
{
}

/// Each problem of a file has its own causes.
pub proof fn law_file_problems(file: ConfigFile)
    ensures
        match file_problem(file) {
            None => true,
            Some(ConfigProblem::ZeroValue) => file.server.doip_port == Some(0u16)
                || file.server.source_address == Some(0u16) || file.ecu.logical_address == Some(
                0u16,
            ),
            Some(ConfigProblem::ZeroConnections) => file.server.max_connections == Some(0usize),
            Some(ConfigProblem::InvalidGatewayUrl) => file.sovd.gateway_url matches Some(url)
                && url_serialization(url@) is None,
            Some(ConfigProblem::WrongIdLength) => (file.ecu.eid matches Some(id) && id@.len() != 6)
                || (file.ecu.gid matches Some(id) && id@.len() != 6),
            Some(ConfigProblem::UnknownLogLevel) => file.logging.level matches Some(name)
                && !names_level(name@),
            Some(ConfigProblem::UnknownLogFormat) => file.logging.format matches Some(name)
                && !names_format(name@),
        },
        file.server.doip_port == Some(0u16) ==> file_problem(file) == Some(
            ConfigProblem::ZeroValue,
        ),
        file.server.doip_port != Some(0u16) && file.server.max_connections == Some(0usize)
            ==> file_problem(file) == Some(ConfigProblem::ZeroConnections),
{
}

/// A command line flag wins over what it is laid over, and every other setting
/// stays. Mock mode can be turned on by a flag but not off.
pub proof fn law_flags(base: ConfigView, cli: Cli)
    ensures
        ({
            let config = overridden(base, cli);
            &&& cli.bind_address matches Some(address) ==> config.server.bind_address == address@
            &&& cli.bind_address is None ==> config.server.bind_address == base.server.bind_address
            &&& cli.gateway_url matches Some(url) ==> config.sovd.gateway_url == url@
            &&& cli.gateway_url is None ==> config.sovd.gateway_url == base.sovd.gateway_url
            &&& cli.mock_gateway ==> config.sovd.mock_gateway
            &&& !cli.mock_gateway ==> config.sovd.mock_gateway == base.sovd.mock_gateway
            &&& cli.log_level matches Some(level) ==> config.logging.level == level
            &&& cli.log_level is None ==> config.logging.level == base.logging.level
            &&& cli.log_format matches Some(format) ==> config.logging.format == format
            &&& cli.log_format is None ==> config.logging.format == base.logging.format
            &&& config.server.doip_port == base.server.doip_port
            &&& config.server.max_connections == base.server.max_connections
            &&& config.server.source_address == base.server.source_address
            &&& config.sovd.client_id == base.sovd.client_id
            &&& config.sovd.client_secret == base.sovd.client_secret
            &&& config.sovd.timeout_ms == base.sovd.timeout_ms
            &&& config.sovd.api_version == base.sovd.api_version
            &&& config.sovd.include_schema == base.sovd.include_schema
            &&& config.ecu == base.ecu
        }),
{
}

/// A file gives a configuration exactly if it could be read and parsed, is
/// usable, and what comes out is valid. Every failure is a configuration error.
pub proof fn law_file_results(
    result: Result<Config>,
    path: Seq<char>,
    file: std::result::Result<ConfigFile, FileError>,
)
    requires
        is_file_result(result, path, file),
    ensures
        result is Ok <==> (file matches Ok(f) && file_problem(f) is None && config_errors(
            layered(f),
        ).len() == 0),
        result matches Ok(config) ==> config@ == layered(file->Ok_0),
        result matches Err(e) ==> e is Config,
        file matches Err(FileError::Unreadable(detail)) ==> (result matches Err(
            ProxyError::Config(message),
        ) && ("cannot read `"@ + path).is_prefix_of(message@) && detail@.is_suffix_of(message@)),
        file matches Err(FileError::Unparsable(detail)) ==> (result matches Err(
            ProxyError::Config(message),
        ) && ("cannot parse `"@ + path).is_prefix_of(message@) && detail@.is_suffix_of(message@)),
        (file matches Ok(f) && file_problem(f) is Some) ==> (result matches Err(
            ProxyError::Config(message),
        ) && ("cannot parse `"@ + path).is_prefix_of(message@) && file_problem(
            file->Ok_0,
        )->0.description().is_suffix_of(message@)),
{
    match file {
        Ok(f) => {
            if file_problem(f) is Some {
                lemma_file_error_text("cannot parse `"@, path, file_problem(f)->0.description());
            }
        },
        Err(FileError::Unreadable(detail)) => {
            lemma_file_error_text("cannot read `"@, path, detail@);
        },
        Err(FileError::Unparsable(detail)) => {
            lemma_file_error_text("cannot parse `"@, path, detail@);
        },
    }
}

proof fn lemma_file_error_text(what: Seq<char>, path: Seq<char>, detail: Seq<char>)
    ensures
        (what + path).is_prefix_of(file_error_text(what, path, detail)),
        detail.is_suffix_of(file_error_text(what, path, detail)),
        file_error_text(what, path, detail).len() == what.len() + path.len() + 3 + detail.len(),
{
    reveal_strlit("`: ");
    let text = file_error_text(what, path, detail);
    let start = what + path;
    assert(text.subrange(0, start.len() as int) =~= start);
    assert(text.subrange(text.len() - detail.len(), text.len() as int) =~= detail);
}

/// What is given is the configuration itself if it is valid, and its report
/// otherwise.
pub proof fn law_valid_results(result: Result<Config>, config: ConfigView)
    requires
        is_valid_result(result, config),
    ensures
        config_errors(config).len() == 0 <==> result is Ok,
        result matches Ok(c) ==> c@ == config,
        result matches Err(e) ==> (e matches ProxyError::Config(message) && message@
            == "configuration validation failed:"@ + bullets(config_errors(config))),
{
}

/// Without a file every setting has its default, and that is valid.
pub proof fn law_empty_file(file: ConfigFile)
    requires
        file.sets_nothing(),
    ensures
        layered(file) == default_config(),
        file_problem(file) is None,
        config_errors(layered(file)).len() == 0,
{
    lemma_defaults_are_valid();
}

/// An identification is zero exactly if it is six zero bytes.
pub proof fn law_zero_identification(id: EidGid)
    ensures
        id.is_zero() <==> id.0@ == seq![0u8, 0, 0, 0, 0, 0],
{
    if id.is_zero() {
        assert(id.0@ =~= seq![0u8, 0, 0, 0, 0, 0]);
    }
    if id.0@ == seq![0u8, 0, 0, 0, 0, 0] {
        assert forall|i: int| 0 <= i < 6 implies id.0@[i] == 0 by {
            assert(seq![0u8, 0, 0, 0, 0, 0][i] == 0);
        }
    }
}

/// A port or an address is accepted as it is, unless it is zero.
pub proof fn law_checked_addresses(
    value: u16,
    checked: std::result::Result<u16, ConfigProblem>,
)
    requires
        call_ensures(check_nonzero_u16, (value,), checked),
    ensures
        value > 0 ==> (checked matches Ok(v) && v == value),
        value == 0 ==> (checked matches Err(problem) && problem is ZeroValue),
{
}

/// A number of connections is accepted as it is, unless it is zero.
pub proof fn law_checked_connections(
    value: usize,
    checked: std::result::Result<usize, ConfigProblem>,
)
    requires
        call_ensures(check_max_connections, (value,), checked),
    ensures
        value > 0 ==> (checked matches Ok(v) && v == value),
        value == 0 ==> (checked matches Err(problem) && problem is ZeroConnections),
{
}

/// The log filter starts with the level of the proxy.
pub proof fn law_log_filter(logging: LoggingConfig, directive: String)
    requires
        call_ensures(LoggingConfig::filter_directive, (&logging,), directive),
    ensures
        logging.level.text().is_prefix_of(directive@),
        directive@.skip(logging.level.text().len() as int)
            == ",cda_core=off,cda_database=warn,cda_interfaces=warn,cda_comm_uds=warn"@,
{
    let level = logging.level.text();
    assert(directive@.subrange(0, level.len() as int) =~= level);
    assert(directive@.skip(level.len() as int)
        =~= ",cda_core=off,cda_database=warn,cda_interfaces=warn,cda_comm_uds=warn"@);
}

/// What is said of each problem of a file.
pub proof fn law_problem_texts(problem: ConfigProblem)
    ensures
        problem is ZeroValue <==> problem.description() == "value must not be zero"@,
        problem is ZeroConnections <==> problem.description() == "value must be greater than zero"@,
        problem is InvalidGatewayUrl <==> problem.description()
            == "gateway_url must be an absolute URL"@,
        problem is WrongIdLength <==> problem.description()
            == "invalid length, expected an array of length 6"@,
        problem is UnknownLogLevel <==> problem.description() == "unknown log level"@,
        problem is UnknownLogFormat <==> problem.description() == "unknown log format"@,
{
    reveal_strlit("value must not be zero");
    reveal_strlit("value must be greater than zero");
    reveal_strlit("gateway_url must be an absolute URL");
    reveal_strlit("invalid length, expected an array of length 6");
    reveal_strlit("unknown log level");
    reveal_strlit("unknown log format");
    assert("value must not be zero"@.len() == 22 && "value must be greater than zero"@.len() == 31);
    assert("gateway_url must be an absolute URL"@.len() == 35);
    assert("invalid length, expected an array of length 6"@.len() == 45);
    assert("unknown log level"@.len() == 17 && "unknown log format"@.len() == 18);
}

} // verus!
