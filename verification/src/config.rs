//! Reading the tester's settings out of its JSON configuration.
use vstd::prelude::*;

use crate::json::{member, text_of, unsigned_of, Json, JsonNum, JsonValue};
use crate::render::{json_debug, json_debug_text, json_display, json_display_text, serde_content};
use crate::text::{decimal, push_decimal};

verus! {

/// The list of test items that an error is about.
#[derive(Clone, Copy, Debug, PartialEq, Eq)]
pub enum ItemKind {
    Get,
    Post,
    Pipelining,
    Pipe,
    Proxy,
    Paths,
    Performance,
}

/// Why a configuration value could not be read.
#[derive(Debug, PartialEq, Eq)]
pub enum ConfigError {
    /// A member that `get_json_value` looked for is missing.
    KeyNotFound(String),
    /// A member that a typed getter looked for is missing.
    MissingKey(String),
    /// The member `key` is no non-negative integer.
    NotUnsignedInteger { key: String, value: JsonValue },
    /// The member `key` is no string.
    NotString { key: String, value: JsonValue },
    /// A list of test items is no array.
    NotArray { item: ItemKind, value: JsonValue },
    /// An entry of a pipelining list is no string.
    PipeEntryNotString(JsonValue),
    /// A path of a proxy item is no string.
    PathNotString(JsonValue),
}

/// The content of a `ConfigError`.
pub enum ConfigFault {
    KeyNotFound(Seq<char>),
    MissingKey(Seq<char>),
    NotUnsignedInteger { key: Seq<char>, value: Json },
    NotString { key: Seq<char>, value: Json },
    NotArray { item: ItemKind, value: Json },
    PipeEntryNotString(Json),
    PathNotString(Json),
}

impl View for ConfigError {
    type V = ConfigFault;

    open spec fn view(&self) -> ConfigFault {
        match self {
            ConfigError::KeyNotFound(k) => ConfigFault::KeyNotFound(k@),
            ConfigError::MissingKey(k) => ConfigFault::MissingKey(k@),
            ConfigError::NotUnsignedInteger { key, value } => ConfigFault::NotUnsignedInteger {
                key: key@,
                value: value@,
            },
            ConfigError::NotString { key, value } => ConfigFault::NotString {
                key: key@,
                value: value@,
            },
            ConfigError::NotArray { item, value } => ConfigFault::NotArray {
                item: *item,
                value: value@,
            },
            ConfigError::PipeEntryNotString(v) => ConfigFault::PipeEntryNotString(v@),
            ConfigError::PathNotString(v) => ConfigFault::PathNotString(v@),
        }
    }
}

/// The name that messages give a list of test items.
pub open spec fn item_name_text(item: ItemKind) -> Seq<char> {
    match item {
        ItemKind::Get => "Get"@,
        ItemKind::Post => "Post"@,
        ItemKind::Pipelining => "Pipelining"@,
        ItemKind::Pipe => "Pipe"@,
        ItemKind::Proxy => "Proxy"@,
        ItemKind::Paths => "Paths"@,
        ItemKind::Performance => "Performance"@,
    }
}

/// The message of a configuration error. Values are quoted as serde_json prints the
/// value that they stand for: with `Display` where a member has the wrong type, with
/// `Debug` where a list or a list entry has.
pub open spec fn config_message_text(e: ConfigFault) -> Seq<char> {
    match e {
        ConfigFault::KeyNotFound(key) => "Can't find the key '"@ + key + "' in config file."@,
        ConfigFault::MissingKey(key) => "Config don't have the key '"@ + key + "'."@,
        ConfigFault::NotUnsignedInteger { key, value } => "The value of key '"@ + key + "' is '"@
            + json_display_text(serde_content(value)) + "' which should be an unsigned integer."@,
        ConfigFault::NotString { key, value } => "The value of key '"@ + key + "' is '"@
            + json_display_text(serde_content(value)) + "' which should be a string."@,
        ConfigFault::NotArray { item, value } => if item is Pipe {
            "Pipe array is '"@ + json_debug_text(serde_content(value)) + "', which should be an array."@
        } else {
            item_name_text(item) + " item is '"@ + json_debug_text(serde_content(value))
                + "', which should be an array."@
        },
        ConfigFault::PipeEntryNotString(value) => "The item of the array in pipelining is '"@
            + json_debug_text(serde_content(value)) + "', which should be a string."@,
        ConfigFault::PathNotString(value) => "The value of key 'path' is '"@ + json_display_text(
            serde_content(value),
        ) + "' which should be a string."@,
    }
}

fn item_name(item: ItemKind) -> (r: &'static str)
    ensures
        r@ == item_name_text(item),
{
    match item {
        ItemKind::Get => "Get",
        ItemKind::Post => "Post",
        ItemKind::Pipelining => "Pipelining",
        ItemKind::Pipe => "Pipe",
        ItemKind::Proxy => "Proxy",
        ItemKind::Paths => "Paths",
        ItemKind::Performance => "Performance",
    }
}

/// `prefix`, then `middle`, then `suffix`.
fn framed(prefix: &str, middle: &str, suffix: &str) -> (r: String)
    ensures
        r@ == prefix@ + middle@ + suffix@,
{
    let mut m = prefix.to_owned();
    m.append(middle);
    m.append(suffix);
    m
}

impl ConfigError {
    /// The message of this error.
    pub fn message(&self) -> (r: String)
        ensures
            r@ == config_message_text(self@),
    {
        match self {
            ConfigError::KeyNotFound(key) => framed("Can't find the key '", key.as_str(), "' in config file."),
            ConfigError::MissingKey(key) => framed("Config don't have the key '", key.as_str(), "'."),
            ConfigError::NotUnsignedInteger { key, value } => {
                let head = framed("The value of key '", key.as_str(), "' is '");
                framed(head.as_str(), json_display(value).as_str(), "' which should be an unsigned integer.")
            },
            ConfigError::NotString { key, value } => {
                let head = framed("The value of key '", key.as_str(), "' is '");
                framed(head.as_str(), json_display(value).as_str(), "' which should be a string.")
            },
            ConfigError::NotArray { item, value } => {
                let shown = json_debug(value);
                match item {
                    ItemKind::Pipe => framed("Pipe array is '", shown.as_str(), "', which should be an array."),
                    _ => {
                        let mut head = item_name(*item).to_owned();
                        head.append(" item is '");
                        framed(head.as_str(), shown.as_str(), "', which should be an array.")
                    },
                }
            },
            ConfigError::PipeEntryNotString(value) => framed(
                "The item of the array in pipelining is '",
                json_debug(value).as_str(),
                "', which should be a string.",
            ),
            ConfigError::PathNotString(value) => framed(
                "The value of key 'path' is '",
                json_display(value).as_str(),
                "' which should be a string.",
            ),
        }
    }
}

/// The member `key` of `config`, or the fault of `get_json_value`.
pub open spec fn value_at(config: Json, key: Seq<char>) -> Result<Json, ConfigFault> {
    match member(config, key) {
        Some(v) => Ok(v),
        None => Err(ConfigFault::KeyNotFound(key)),
    }
}

/// The member `key` of `config` as a non-negative integer, or why not.
pub open spec fn unsigned_at(config: Json, key: Seq<char>) -> Result<u64, ConfigFault> {
    match member(config, key) {
        Some(v) => match unsigned_of(v) {
            Some(n) => Ok(n),
            None => Err(ConfigFault::NotUnsignedInteger { key, value: v }),
        },
        None => Err(ConfigFault::MissingKey(key)),
    }
}

/// The member `key` of `config` as a string, or why not.
pub open spec fn string_at(config: Json, key: Seq<char>) -> Result<Seq<char>, ConfigFault> {
    match member(config, key) {
        Some(v) => match text_of(v) {
            Some(s) => Ok(s),
            None => Err(ConfigFault::NotString { key, value: v }),
        },
        None => Err(ConfigFault::MissingKey(key)),
    }
}

/// The member `key` of `config`; fails with `KeyNotFound` when it is missing.
pub fn get_json_value(config: &JsonValue, key: &str) -> (r: Result<JsonValue, ConfigError>)
    ensures
        match r {
            Ok(v) => value_at(config@, key@) == Ok::<Json, ConfigFault>(v@),
            Err(e) => value_at(config@, key@) == Err::<Json, ConfigFault>(e@),
        },
{
    match config.get(key) {
        Some(value) => Ok(value.deep_copy()),
        None => Err(ConfigError::KeyNotFound(key.to_owned())),
    }
}

/// The member `key` of `config` as a non-negative integer.
pub fn get_json_value_as_u64(config: &JsonValue, key: &str) -> (r: Result<u64, ConfigError>)
    ensures
        match r {
            Ok(n) => unsigned_at(config@, key@) == Ok::<u64, ConfigFault>(n),
            Err(e) => unsigned_at(config@, key@) == Err::<u64, ConfigFault>(e@),
        },
{
    match config.get(key) {
        Some(value) => match value.as_u64() {
            Some(n) => Ok(n),
            None => Err(ConfigError::NotUnsignedInteger { key: key.to_owned(), value: value.deep_copy() }),
        },
        None => Err(ConfigError::MissingKey(key.to_owned())),
    }
}

/// The member `key` of `config` as a string.
pub fn get_json_value_as_string(config: &JsonValue, key: &str) -> (r: Result<String, ConfigError>)
    ensures
        match r {
            Ok(s) => string_at(config@, key@) == Ok::<Seq<char>, ConfigFault>(s@),
            Err(e) => string_at(config@, key@) == Err::<Seq<char>, ConfigFault>(e@),
        },
{
    match config.get(key) {
        Some(value) => match value.as_str() {
            Some(s) => Ok(s.to_owned()),
            None => Err(ConfigError::NotString { key: key.to_owned(), value: value.deep_copy() }),
        },
        None => Err(ConfigError::MissingKey(key.to_owned())),
    }
}

/// What a typed getter returns is the member that `get_json_value` returns, read as
/// that type: a string member as its text, an unsigned member as its number.
pub proof fn lemma_typed_getters_agree(config: Json, key: Seq<char>)
    ensures
        string_at(config, key) matches Ok(s) ==> value_at(config, key) == Ok::<Json, ConfigFault>(Json::Str(s)),
        unsigned_at(config, key) matches Ok(n) ==> value_at(config, key) == Ok::<Json, ConfigFault>(
            Json::Number(JsonNum::PosInt(n)),
        ),
        value_at(config, key) is Err <==> string_at(config, key) == Err::<Seq<char>, ConfigFault>(
            ConfigFault::MissingKey(key),
        ),
{
}

/// The arguments that start the server: `--ip {ip} --port {port} --threads {threads}`.
pub open spec fn server_args_text(ip: Seq<char>, port: u64, threads: u64) -> Seq<char> {
    "--ip "@ + ip + " --port "@ + decimal(port as nat) + " --threads "@ + decimal(threads as nat)
}

/// The address of the server: `http://{ip}:{port}`.
pub open spec fn base_url_text(ip: Seq<char>, port: u64) -> Seq<char> {
    "http://"@ + ip + ":"@ + decimal(port as nat)
}

/// The server arguments and base address that the member `server` of `config` gives, or why not.
pub open spec fn server_settings(config: Json) -> Result<(Seq<char>, Seq<char>), ConfigFault> {
    match value_at(config, "server"@) {
        Err(e) => Err(e),
        Ok(server) => match string_at(server, "ip"@) {
            Err(e) => Err(e),
            Ok(ip) => match unsigned_at(server, "port"@) {
                Err(e) => Err(e),
                Ok(port) => match unsigned_at(server, "threads"@) {
                    Err(e) => Err(e),
                    Ok(threads) => Ok((server_args_text(ip, port, threads), base_url_text(ip, port))),
                },
            },
        },
    }
}

/// The server's command-line arguments and its base address, from the member `server`.
pub fn parse_server_args(config: &JsonValue) -> (r: Result<(String, String), ConfigError>)
    ensures
        match r {
            Ok((args, url)) => server_settings(config@) == Ok::<(Seq<char>, Seq<char>), ConfigFault>(
                (args@, url@),
            ),
            Err(e) => server_settings(config@) == Err::<(Seq<char>, Seq<char>), ConfigFault>(e@),
        },
{
    let server = get_json_value(config, "server")?;
    let ip = get_json_value_as_string(&server, "ip")?;
    let port = get_json_value_as_u64(&server, "port")?;
    let threads = get_json_value_as_u64(&server, "threads")?;
    let mut args = String::from_str("--ip ");
    args.append(ip.as_str());
    args.append(" --port ");
    push_decimal(&mut args, port);
    args.append(" --threads ");
    push_decimal(&mut args, threads);
    let mut url = String::from_str("http://");
    url.append(ip.as_str());
    url.append(":");
    push_decimal(&mut url, port);
    Ok((args, url))
}

} // verus!
