use http_server_tester::config::{
    get_json_value, get_json_value_as_string, get_json_value_as_u64, parse_server_args,
    ConfigError,
};
use http_server_tester::json::{JsonNumber, JsonValue};

fn s(text: &str) -> JsonValue {
    JsonValue::String(text.to_string())
}

fn n(value: u64) -> JsonValue {
    JsonValue::Number(JsonNumber::PosInt(value))
}

fn obj(entries: Vec<(&str, JsonValue)>) -> JsonValue {
    JsonValue::Object(entries.into_iter().map(|(k, v)| (k.to_string(), v)).collect())
}

fn readme_config() -> JsonValue {
    obj(vec![
        ("bin", s("./http-server")),
        ("build", s("make")),
        ("clean", s("make clean")),
        ("directory", s("/home/user/projects/http-server")),
        ("server", obj(vec![("ip", s("127.0.0.1")), ("port", n(8080)), ("threads", n(8))])),
    ])
}

#[test]
fn server_arguments_of_the_readme_example() {
    let (args, url) = parse_server_args(&readme_config()).unwrap();
    assert_eq!(args, "--ip 127.0.0.1 --port 8080 --threads 8");
    assert_eq!(url, "http://127.0.0.1:8080");
}

#[test]
fn server_arguments_errors() {
    assert_eq!(
        parse_server_args(&obj(vec![])),
        Err(ConfigError::KeyNotFound("server".to_string()))
    );
    let no_port = obj(vec![("server", obj(vec![("ip", s("1.2.3.4")), ("threads", n(2))]))]);
    assert_eq!(parse_server_args(&no_port), Err(ConfigError::MissingKey("port".to_string())));
    let bad_ip = obj(vec![("server", obj(vec![("ip", n(1)), ("port", n(1)), ("threads", n(1))]))]);
    assert_eq!(
        parse_server_args(&bad_ip),
        Err(ConfigError::NotString { key: "ip".to_string(), value: n(1) })
    );
}

#[test]
fn typed_getters() {
    let config = readme_config();
    assert_eq!(get_json_value_as_string(&config, "build"), Ok("make".to_string()));
    assert_eq!(get_json_value_as_string(&config, "missing"), Err(ConfigError::MissingKey("missing".to_string())));
    let server = get_json_value(&config, "server").unwrap();
    assert_eq!(get_json_value_as_u64(&server, "port"), Ok(8080));
    assert_eq!(
        get_json_value_as_u64(&server, "ip"),
        Err(ConfigError::NotUnsignedInteger { key: "ip".to_string(), value: s("127.0.0.1") })
    );
    let negative = obj(vec![("wait_seconds", JsonValue::Number(JsonNumber::NegInt(-1)))]);
    assert!(matches!(
        get_json_value_as_u64(&negative, "wait_seconds"),
        Err(ConfigError::NotUnsignedInteger { .. })
    ));
    let float = obj(vec![("wait_seconds", JsonValue::Number(JsonNumber::Float("1.5".to_string())))]);
    assert!(get_json_value_as_u64(&float, "wait_seconds").is_err());
}

#[test]
fn get_json_value_copies_the_member() {
    let config = readme_config();
    assert_eq!(
        get_json_value(&config, "server").unwrap(),
        obj(vec![("ip", s("127.0.0.1")), ("port", n(8080)), ("threads", n(8))])
    );
    assert_eq!(get_json_value(&config, "items"), Err(ConfigError::KeyNotFound("items".to_string())));
    assert_eq!(get_json_value(&s("x"), "items"), Err(ConfigError::KeyNotFound("items".to_string())));
}

#[test]
fn json_accessors() {
    let v = JsonValue::Array(vec![JsonValue::Null, JsonValue::Bool(true), n(3), s("a")]);
    assert_eq!(v.as_array().map(|a| a.len()), Some(4));
    assert_eq!(n(3).as_u64(), Some(3));
    assert_eq!(s("a").as_str(), Some("a"));
    assert_eq!(s("a").as_u64(), None);
    assert!(n(3).as_array().is_none());
    assert_eq!(v.deep_copy(), v);
    let config = readme_config();
    assert_eq!(config.deep_copy(), config);
    assert_eq!(config.get("bin"), Some(&s("./http-server")));
    assert_eq!(v.get("bin"), None);
}

#[test]
fn getter_errors_read_as_messages() {
    let config = obj(vec![("port", n(8080))]);
    assert_eq!(
        get_json_value_as_string(&config, "port").unwrap_err().message(),
        "The value of key 'port' is '8080' which should be a string."
    );
    assert_eq!(
        get_json_value_as_string(&config, "bin").unwrap_err().message(),
        "Config don't have the key 'bin'."
    );
    let server = obj(vec![("server", obj(vec![("ip", s("127.0.0.1")), ("port", s("8080")), ("threads", n(8))]))]);
    assert_eq!(
        parse_server_args(&server).unwrap_err().message(),
        "The value of key 'port' is '\"8080\"' which should be an unsigned integer."
    );
}
