use std::collections::hash_map::DefaultHasher;
use std::hash::{Hash, Hasher};
use std::num::NonZeroU32;
use std::path::PathBuf;

use cistell_core::error::ConfigError;
use cistell_core::field::{field_can_be_missing, FieldMeta, Secret};
use cistell_core::provenance::{FieldProvenance, Source};
use cistell_core::source::default::DefaultSource;
use cistell_core::source::env::{EnvSource, Environment};
use cistell_core::source::map::MapSource;
use cistell_core::source::ConfigSource;
use cistell_core::value::ConfigValue;

fn test_meta(is_secret: bool) -> FieldMeta {
    FieldMeta {
        name: "port",
        config_key: "redis.port",
        env_key: "REDIS__PORT",
        generic_env_key: None,
        is_secret,
        expected_type: "u16",
        has_default: true,
        deserialize_fn: None,
    }
}

fn int_parse_message() -> String {
    "abc".parse::<u16>().unwrap_err().to_string()
}

#[test]
fn test_error_parse_redacts_secret() {
    let meta = test_meta(true);
    let err = ConfigError::parse(&meta, "hunter2", &int_parse_message());
    let msg = err.to_string();
    assert!(msg.contains("<secret>"), "should contain <secret>: {msg}");
    assert!(!msg.contains("hunter2"), "should NOT leak raw: {msg}");
}

#[test]
fn test_error_parse_shows_raw_for_non_secret() {
    let meta = test_meta(false);
    let err = ConfigError::parse(&meta, "bad_value", &int_parse_message());
    let msg = err.to_string();
    assert!(msg.contains("bad_value"), "should show raw: {msg}");
}

#[test]
fn test_error_display_messages() {
    let meta = test_meta(false);

    let err = ConfigError::parse(&meta, "abc", &int_parse_message());
    let msg = err.to_string();
    assert!(msg.contains("port"));
    assert!(msg.contains("abc"));
    assert!(msg.contains("u16"));

    let err = ConfigError::FileError {
        path: "/etc/config.toml".into(),
        cause: "not found".into(),
    };
    assert!(err.to_string().contains("/etc/config.toml"));

    let err = ConfigError::EnvVar {
        key: "MY_VAR".into(),
        cause: "not valid unicode".into(),
    };
    assert!(err.to_string().contains("MY_VAR"));

    let err = ConfigError::FieldConflict {
        field: "host".into(),
        a: Source::Default,
        b: Source::EnvVar {
            name: "HOST".into(),
        },
    };
    assert!(err.to_string().contains("host"));

    let err = ConfigError::MissingRequired {
        field: "port".into(),
    };
    assert!(err.to_string().contains("port"));
    assert!(err.to_string().contains("required"));
}

#[test]
fn test_error_source_chain() {
    let meta = test_meta(false);
    let err = ConfigError::parse(&meta, "abc", &int_parse_message());
    assert!(err.source().is_some());

    let err = ConfigError::MissingRequired {
        field: "port".into(),
    };
    assert!(err.source().is_none());
}

#[test]
fn error_messages_exact() {
    let meta = test_meta(false);
    let err = ConfigError::parse(&meta, "abc", "invalid digit found in string");
    assert_eq!(
        err.to_string(),
        "field 'port': cannot parse 'abc' as u16: invalid digit found in string"
    );
    assert_eq!(err.source(), Some("invalid digit found in string"));
    let err = ConfigError::FieldConflict {
        field: "host".into(),
        a: Source::Default,
        b: Source::EnvVar { name: "HOST".into() },
    };
    assert_eq!(
        err.to_string(),
        "field 'host': conflicting values from default and env var 'HOST'"
    );
    let err = ConfigError::Internal { message: "boom".into() };
    assert_eq!(err.to_string(), "internal error: boom");
    let err = ConfigError::MissingRequired { field: "port".into() };
    assert_eq!(err.to_string(), "field 'port': required but no value provided");
    let err = ConfigError::EnvVar { key: "K".into(), cause: "c".into() };
    assert_eq!(err.to_string(), "env var 'K': c");
    let err = ConfigError::FileError { path: "/p".into(), cause: "c".into() };
    assert_eq!(err.to_string(), "config file '/p': c");
    assert_eq!(err.source(), Some("c"));
}

#[test]
fn test_source_display_default() {
    assert_eq!(Source::Default.to_string(), "default");
}

#[test]
fn test_source_display_file() {
    let s = Source::File {
        path: "/etc/app.toml".into(),
        key: "redis.host".into(),
    };
    assert_eq!(s.to_string(), "file '/etc/app.toml' key 'redis.host'");
}

#[test]
fn test_source_display_env() {
    let s = Source::EnvVar {
        name: "MY_VAR".into(),
    };
    assert_eq!(s.to_string(), "env var 'MY_VAR'");
}

#[test]
fn test_source_display_programmatic() {
    let s = Source::Programmatic {
        location: Some("main.rs:42".into()),
    };
    assert_eq!(s.to_string(), "code (main.rs:42)");

    let s2 = Source::Programmatic { location: None };
    assert_eq!(s2.to_string(), "code");
}

#[test]
fn test_source_display_map() {
    let s = Source::Mapping {
        label: "test_overrides".into(),
    };
    assert_eq!(s.to_string(), "map 'test_overrides'");
}

#[test]
fn test_source_eq_hash() {
    let a = Source::EnvVar {
        name: "MY_VAR".into(),
    };
    let b = Source::EnvVar {
        name: "MY_VAR".into(),
    };
    assert_eq!(a, b);

    let mut ha = DefaultHasher::new();
    a.hash(&mut ha);
    let mut hb = DefaultHasher::new();
    b.hash(&mut hb);
    assert_eq!(ha.finish(), hb.finish());
}

#[test]
fn test_field_provenance_display_normal() {
    let prov = FieldProvenance {
        field_name: "host".into(),
        source: Source::Default,
        is_secret: false,
        display_value: Some("localhost".into()),
        rejected_sources: vec![],
    };
    assert_eq!(prov.to_string(), "host = localhost [from: default]");
}

#[test]
fn test_field_provenance_display_secret() {
    let prov = FieldProvenance {
        field_name: "password".into(),
        source: Source::EnvVar {
            name: "DB_PASS".into(),
        },
        is_secret: true,
        display_value: None,
        rejected_sources: vec![],
    };
    assert_eq!(
        prov.to_string(),
        "password = <secret> [from: env var 'DB_PASS']"
    );
}

#[test]
fn provenance_shown_value_cases() {
    let mut prov = FieldProvenance {
        field_name: "x".into(),
        source: Source::Default,
        is_secret: false,
        display_value: None,
        rejected_sources: vec![],
    };
    assert_eq!(prov.shown_value(), "<none>");
    assert_eq!(prov.to_string(), "x = <none> [from: default]");
    prov.display_value = Some("v".into());
    assert_eq!(prov.shown_value(), "v");
    prov.is_secret = true;
    assert_eq!(prov.shown_value(), "<secret>");
}

fn env_meta() -> FieldMeta {
    FieldMeta {
        name: "host",
        config_key: "redis.host",
        env_key: "CISTELL_TEST__REDIS__HOST",
        generic_env_key: None,
        is_secret: false,
        expected_type: "String",
        has_default: true,
        deserialize_fn: None,
    }
}

#[test]
fn test_env_source_reads_var() {
    let source = EnvSource::new();
    let meta = env_meta();
    let mut env = Environment::new();
    env.set("CISTELL_TEST__REDIS__HOST", "localhost");
    let result = source.get(&meta, &env).unwrap();
    assert!(result.is_some());
    let (value, provenance) = result.unwrap();
    assert_eq!(value, ConfigValue::String("localhost".into()));
    assert_eq!(
        provenance,
        Source::EnvVar {
            name: "CISTELL_TEST__REDIS__HOST".into()
        }
    );
}

#[test]
fn test_env_source_missing_returns_none() {
    let source = EnvSource::new();
    let meta = env_meta();
    let env = Environment::new();
    let result = source.get(&meta, &env).unwrap();
    assert!(result.is_none());
}

#[test]
fn test_env_source_rank() {
    let source = EnvSource::new();
    assert_eq!(source.rank(), 20);
}

#[test]
fn env_source_with_rank_and_errors() {
    assert_eq!(EnvSource::with_rank(7).rank(), 7);
    let mut env = Environment::new();
    env.set_not_unicode("CISTELL_TEST__REDIS__HOST");
    let err = EnvSource::new().get(&env_meta(), &env).unwrap_err();
    assert_eq!(
        err.to_string(),
        "env var 'CISTELL_TEST__REDIS__HOST': value is not valid UTF-8"
    );
}

#[test]
fn env_source_generic_fallback_and_precedence() {
    let mut meta = env_meta();
    meta.generic_env_key = Some("CISTELL_TEST__HOST");
    let mut env = Environment::new();
    env.set("CISTELL_TEST__HOST", "generic");
    let (v, s) = EnvSource::new().get(&meta, &env).unwrap().unwrap();
    assert_eq!(v, ConfigValue::String("generic".into()));
    assert_eq!(s, Source::EnvVar { name: "CISTELL_TEST__HOST".into() });
    env.set("CISTELL_TEST__REDIS__HOST", "class");
    let (v, _) = EnvSource::new().get(&meta, &env).unwrap().unwrap();
    assert_eq!(v, ConfigValue::String("class".into()));
}

#[test]
fn environment_set_overrides_and_reads() {
    let mut env = Environment::new();
    assert_eq!(env.read("A"), None);
    env.set("A", "1");
    env.set("B", "2");
    env.set("A", "3");
    assert_eq!(env.read("A"), Some(Some("3")));
    assert_eq!(env.read("B"), Some(Some("2")));
    env.set_not_unicode("B");
    assert_eq!(env.read("B"), Some(None));
}

#[test]
fn test_map_source_returns_inserted() {
    let mut source = MapSource::new("test_overrides");
    source.insert("host", ConfigValue::String("override-host".into()));

    let meta = env_meta();
    let env = Environment::new();
    let result = source.get(&meta, &env).unwrap().unwrap();
    assert_eq!(result.0, ConfigValue::String("override-host".into()));
    assert_eq!(
        result.1,
        Source::Mapping {
            label: "test_overrides".into()
        }
    );
}

#[test]
fn test_map_source_missing_key() {
    let source = MapSource::new("empty");
    let meta = env_meta();
    assert!(source.get(&meta, &Environment::new()).unwrap().is_none());
}

#[test]
fn test_map_source_rank() {
    let source = MapSource::new("test");
    assert_eq!(source.rank(), 10);
}

#[test]
fn map_source_insert_replaces_and_chains() {
    let mut source = MapSource::new("m");
    source
        .insert("host", ConfigValue::String("a".into()))
        .insert("host", ConfigValue::String("b".into()));
    let (v, _) = source.get(&env_meta(), &Environment::new()).unwrap().unwrap();
    assert_eq!(v, ConfigValue::String("b".into()));
    assert_eq!(source.with_rank(3).rank(), 3);
}

#[test]
fn default_source_basics() {
    let mut d = DefaultSource::new();
    assert_eq!(d.rank(), 100);
    assert!(d.get(&env_meta(), &Environment::new()).unwrap().is_none());
    d.insert("host", ConfigValue::String("localhost".into()));
    let (v, s) = d.get(&env_meta(), &Environment::new()).unwrap().unwrap();
    assert_eq!(v, ConfigValue::String("localhost".into()));
    assert_eq!(s, Source::Default);
    assert_eq!(DefaultSource::default().rank(), 100);
    assert_eq!(d.with_rank(90).rank(), 90);
}

fn scalar_meta(name: &'static str, ty: &'static str, secret: bool) -> FieldMeta {
    FieldMeta {
        name,
        config_key: "redis.x",
        env_key: "RUSTVELLO__REDIS__X",
        generic_env_key: None,
        is_secret: secret,
        expected_type: ty,
        has_default: true,
        deserialize_fn: None,
    }
}

#[test]
fn test_config_value_coerce_string() {
    let meta = scalar_meta("host", "String", false);
    let val = ConfigValue::String("hello".into());
    let result: String = val.coerce(&meta).unwrap();
    assert_eq!(result, "hello");
}

#[test]
fn test_config_value_coerce_integer() {
    let meta = scalar_meta("port", "u16", false);
    let val = ConfigValue::Integer(42);
    let result: u16 = val.coerce(&meta).unwrap();
    assert_eq!(result, 42);
}

#[test]
fn test_config_value_coerce_bool() {
    let meta = scalar_meta("debug", "bool", false);
    let val = ConfigValue::Bool(true);
    let result: bool = val.coerce(&meta).unwrap();
    assert!(result);
}

#[test]
fn test_config_value_coerce_string_to_int() {
    let meta = scalar_meta("port", "u16", false);
    let val = ConfigValue::String("42".into());
    let result: u16 = val.coerce(&meta).unwrap();
    assert_eq!(result, 42);
}

#[test]
fn test_config_value_coerce_type_mismatch() {
    let meta = scalar_meta("port", "u16", false);
    let val = ConfigValue::String("not_a_number".into());
    let result = val.coerce::<u16>(&meta);
    assert!(result.is_err());
    let err_msg = result.unwrap_err().to_string();
    assert!(err_msg.contains("port"));
}

#[test]
fn test_config_value_coerce_secret_hides_raw() {
    let meta = scalar_meta("password", "u16", true);
    let val = ConfigValue::String("hunter2".into());
    let result = val.coerce::<u16>(&meta);
    assert!(result.is_err());
    let err_msg = result.unwrap_err().to_string();
    assert!(err_msg.contains("<secret>"));
    assert!(!err_msg.contains("hunter2"));
}

#[test]
fn coerce_error_messages_match_std() {
    let meta = scalar_meta("port", "u16", false);
    let cases: Vec<(&str, String)> = vec![
        ("70000", "70000".parse::<u16>().unwrap_err().to_string()),
        ("", "".parse::<u16>().unwrap_err().to_string()),
        ("-1", "-1".parse::<u16>().unwrap_err().to_string()),
        ("12a", "12a".parse::<u16>().unwrap_err().to_string()),
    ];
    for (raw, cause) in cases {
        let err = ConfigValue::String(raw.into()).coerce::<u16>(&meta).unwrap_err();
        assert_eq!(
            err.to_string(),
            format!("field 'port': cannot parse '{raw}' as u16: {cause}")
        );
    }
    let meta = scalar_meta("n", "i8", false);
    assert_eq!(ConfigValue::String("-128".into()).coerce::<i8>(&meta).unwrap(), -128);
    assert_eq!(ConfigValue::String("+12".into()).coerce::<i8>(&meta).unwrap(), 12);
    let e = ConfigValue::String("-129".into()).coerce::<i8>(&meta).unwrap_err();
    assert!(e.to_string().ends_with(&"-129".parse::<i8>().unwrap_err().to_string()));
    let meta = scalar_meta("b", "bool", false);
    let e = ConfigValue::String("yes".into()).coerce::<bool>(&meta).unwrap_err();
    assert!(e.to_string().ends_with(&"yes".parse::<bool>().unwrap_err().to_string()));
}

#[test]
fn coerce_array_to_scalar_fails() {
    let meta = scalar_meta("port", "u16", false);
    let v = ConfigValue::Array(vec![ConfigValue::Integer(1)]);
    let e = v.coerce::<u16>(&meta).unwrap_err();
    assert_eq!(
        e.to_string(),
        "field 'port': cannot parse '[1]' as u16: cannot coerce array/table to scalar"
    );
}

#[test]
fn coerce_vec_cases() {
    let meta = scalar_meta("hosts", "Vec<String>", false);
    let v = ConfigValue::String("a, b ,,c,".into());
    assert_eq!(v.coerce_vec::<String>(&meta).unwrap(), vec!["a", "b", "c"]);
    let v = ConfigValue::String("   ".into());
    assert!(v.coerce_vec::<String>(&meta).unwrap().is_empty());
    let v = ConfigValue::Array(vec![ConfigValue::Integer(1), ConfigValue::String("2".into())]);
    assert_eq!(v.coerce_vec::<u8>(&meta).unwrap(), vec![1u8, 2u8]);
    let v = ConfigValue::Integer(5);
    let e = v.coerce_vec::<u8>(&meta).unwrap_err();
    assert_eq!(
        e.to_string(),
        "field 'hosts': cannot parse '5' as Vec<String>: cannot coerce integer to Vec"
    );
    let v = ConfigValue::Table(vec![]);
    let e = v.coerce_vec::<u8>(&meta).unwrap_err();
    assert!(e.to_string().ends_with("cannot coerce table to Vec"));
}

#[test]
fn coerce_string_renders_other_values() {
    let meta = scalar_meta("x", "String", false);
    assert_eq!(ConfigValue::Integer(-7).coerce_string(&meta).unwrap(), "-7");
    assert_eq!(ConfigValue::Bool(false).coerce_string(&meta).unwrap(), "false");
    let arr = ConfigValue::Array(vec![ConfigValue::Integer(1), ConfigValue::String("b".into())]);
    assert_eq!(arr.coerce_string(&meta).unwrap(), "[1, b]");
    assert_eq!(ConfigValue::Table(vec![]).to_string(), "{...}");
    assert_eq!(ConfigValue::Float("2.5".into()).to_string(), "2.5");
}

#[test]
fn test_config_value_get_by_dotted_key() {
    let inner = vec![
        ("host".to_owned(), ConfigValue::String("localhost".into())),
        ("port".to_owned(), ConfigValue::Integer(6379)),
    ];
    let root = vec![("redis".to_owned(), ConfigValue::Table(inner))];

    let table = ConfigValue::Table(root);
    let host = table.get_by_dotted_key("redis.host");
    assert_eq!(host, Some(&ConfigValue::String("localhost".into())));

    let port = table.get_by_dotted_key("redis.port");
    assert_eq!(port, Some(&ConfigValue::Integer(6379)));

    let missing = table.get_by_dotted_key("redis.missing");
    assert!(missing.is_none());
    assert!(table.get_by_dotted_key("redis.host.deeper").is_none());
}

#[test]
fn secret_wrapper() {
    let s = Secret::new("hunter2".to_owned());
    assert_eq!(s.expose(), "hunter2");
    assert_eq!(s.redacted(), "***");
    assert_eq!(s.into_inner(), "hunter2");
}

#[test]
fn option_types_may_be_missing() {
    let mut m = scalar_meta("x", "Option<String>", false);
    assert!(field_can_be_missing(&m));
    m.expected_type = "std :: option :: Option < u8 >";
    assert!(field_can_be_missing(&m));
    m.expected_type = "core::option::Option<u8>";
    assert!(field_can_be_missing(&m));
    m.expected_type = "Vec<Option<u8>>";
    assert!(!field_can_be_missing(&m));
    m.expected_type = "MyOption<u8>";
    assert!(!field_can_be_missing(&m));
}

fn list_meta() -> FieldMeta {
    FieldMeta {
        name: "hosts",
        config_key: "app.hosts",
        env_key: "APP__HOSTS",
        generic_env_key: None,
        is_secret: false,
        expected_type: "Vec<NonZeroU32>",
        has_default: false,
        deserialize_fn: None,
    }
}

#[test]
fn list_item_texts_of_each_kind() {
    let m = list_meta();
    let texts = ConfigValue::String(" a, ,b ,".into()).list_item_texts(&m).unwrap();
    let texts: Vec<String> = texts.into_iter().map(|t| t.unwrap()).collect();
    assert_eq!(texts, vec!["a".to_string(), "b".to_string()]);
    assert!(ConfigValue::String("  ".into()).list_item_texts(&m).unwrap().is_empty());
    let items = ConfigValue::Array(vec![
        ConfigValue::Integer(3),
        ConfigValue::Table(vec![]),
        ConfigValue::Bool(true),
    ])
    .list_item_texts(&m)
    .unwrap();
    assert_eq!(items.len(), 3);
    assert_eq!(items[0].as_ref().unwrap(), "3");
    assert!(items[1].as_ref().unwrap_err().to_string().ends_with("cannot coerce array/table to scalar"));
    assert_eq!(items[2].as_ref().unwrap(), "true");
    let e = ConfigValue::Integer(4).list_item_texts(&m).unwrap_err();
    assert!(e.to_string().ends_with("cannot coerce integer to Vec"));
}

#[test]
fn any_from_str_type_reads_from_the_value_text() {
    let m = list_meta();
    let text = ConfigValue::String("/etc/app.toml".into()).scalar_text(&m).unwrap();
    assert_eq!(text.parse::<PathBuf>().unwrap(), PathBuf::from("/etc/app.toml"));
    let mut counts = Vec::new();
    for item in ConfigValue::String("4, 2".into()).list_item_texts(&m).unwrap() {
        counts.push(item.unwrap().parse::<NonZeroU32>().unwrap());
    }
    assert_eq!(counts, vec![NonZeroU32::new(4).unwrap(), NonZeroU32::new(2).unwrap()]);
}
