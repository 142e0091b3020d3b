use std::time::Duration;

use cistell_core::config::{Config, ValueMap};
use cistell_core::derive::{
    expand_derive_config, parse_field_attrs, parse_struct_attrs, AttrItem, Coercion, DefaultPlan,
    DerivedConfig, FieldDef, FieldPlan,
};
use cistell_core::error::ConfigError;
use cistell_core::field::{DeserializeFn, FieldMeta, Secret};
use cistell_core::provenance::Source;
use cistell_core::resolver::Resolver;
use cistell_core::source::env::Environment;
use cistell_core::source::map::MapSource;
use cistell_core::value::ConfigValue;

fn leak(v: Vec<FieldMeta>) -> &'static [FieldMeta] {
    Box::leak(v.into_boxed_slice())
}

fn field_value(
    values: &ValueMap,
    fields: &[FieldMeta],
    name: &str,
) -> Result<Option<(ConfigValue, FieldMeta)>, ConfigError> {
    values.field_input(fields, name)
}

struct BasicRedisConfig {
    host: String,
    port: u16,
    password: Secret<String>,
    sentinel_host: Option<String>,
    allowed_hosts: Vec<String>,
}

fn basic_redis_derived() -> DerivedConfig {
    expand_derive_config(
        &[
            AttrItem::lit("prefix", "CISTELL_DERIVE"),
            AttrItem::lit("group", "redis"),
        ],
        &[
            FieldDef::new("host", "String", vec![AttrItem::lit("default", "localhost")]),
            FieldDef::new("port", "u16", vec![AttrItem::expr("default", "6379u16")]),
            FieldDef::new(
                "password",
                "Secret<String>",
                vec![AttrItem::flag("secret"), AttrItem::lit("default", "")],
            ),
            FieldDef::new("sentinel_host", "Option<String>", vec![]),
            FieldDef::new(
                "allowed_hosts",
                "Vec<String>",
                vec![AttrItem::expr("default", "vec![\"localhost\".to_owned()]")],
            ),
        ],
    )
    .unwrap()
}

impl Config for BasicRedisConfig {
    fn fields() -> &'static [FieldMeta] {
        leak(basic_redis_derived().fields(&[]))
    }

    fn defaults() -> Self {
        BasicRedisConfig {
            host: "localhost".into(),
            port: 6379u16,
            password: Secret::new("".into()),
            sentinel_host: None,
            allowed_hosts: vec!["localhost".to_owned()],
        }
    }

    fn from_values(values: &ValueMap) -> Result<Self, ConfigError> {
        let fields = Self::fields();
        let d = Self::defaults();
        Ok(BasicRedisConfig {
            host: match field_value(values, fields, "host")? {
                Some((v, m)) => v.coerce_string(&m)?,
                None => d.host,
            },
            port: match field_value(values, fields, "port")? {
                Some((v, m)) => v.coerce::<u16>(&m)?,
                None => d.port,
            },
            password: match field_value(values, fields, "password")? {
                Some((v, m)) => Secret::new(v.coerce::<String>(&m)?),
                None => d.password,
            },
            sentinel_host: match field_value(values, fields, "sentinel_host")? {
                Some((v, m)) => Some(v.coerce_string(&m)?),
                None => None,
            },
            allowed_hosts: match field_value(values, fields, "allowed_hosts")? {
                Some((v, m)) => v.coerce_vec::<String>(&m)?,
                None => d.allowed_hosts,
            },
        })
    }
}

#[derive(Debug, PartialEq)]
struct CustomKeysConfig {
    host: String,
}

fn custom_keys_derived() -> DerivedConfig {
    expand_derive_config(
        &[
            AttrItem::lit("prefix", "CISTELL_DERIVE"),
            AttrItem::lit("group", "custom"),
            AttrItem::lit("sep", "_"),
            AttrItem::lit("toml_key", "service.custom"),
        ],
        &[FieldDef::new(
            "host",
            "String",
            vec![
                AttrItem::lit("default", "localhost"),
                AttrItem::lit("env_key", "CUSTOM_HOST"),
                AttrItem::lit("toml_key", "hostname"),
            ],
        )],
    )
    .unwrap()
}

impl Config for CustomKeysConfig {
    fn fields() -> &'static [FieldMeta] {
        leak(custom_keys_derived().fields(&[]))
    }

    fn defaults() -> Self {
        CustomKeysConfig { host: "localhost".into() }
    }

    fn from_values(values: &ValueMap) -> Result<Self, ConfigError> {
        let fields = Self::fields();
        Ok(CustomKeysConfig {
            host: match field_value(values, fields, "host")? {
                Some((v, m)) => v.coerce_string(&m)?,
                None => Self::defaults().host,
            },
        })
    }
}

#[derive(Debug, PartialEq)]
struct TlsConfig {
    enabled: bool,
    cert_path: String,
}

fn tls_derived() -> DerivedConfig {
    expand_derive_config(
        &[
            AttrItem::lit("prefix", "CISTELL_DERIVE"),
            AttrItem::lit("group", "tls"),
        ],
        &[
            FieldDef::new("enabled", "bool", vec![AttrItem::expr("default", "false")]),
            FieldDef::new("cert_path", "String", vec![AttrItem::lit("default", "cert.pem")]),
        ],
    )
    .unwrap()
}

impl Config for TlsConfig {
    fn fields() -> &'static [FieldMeta] {
        leak(tls_derived().fields(&[]))
    }

    fn defaults() -> Self {
        TlsConfig { enabled: false, cert_path: "cert.pem".into() }
    }

    fn from_values(values: &ValueMap) -> Result<Self, ConfigError> {
        let fields = Self::fields();
        let d = Self::defaults();
        Ok(TlsConfig {
            enabled: match field_value(values, fields, "enabled")? {
                Some((v, m)) => v.coerce::<bool>(&m)?,
                None => d.enabled,
            },
            cert_path: match field_value(values, fields, "cert_path")? {
                Some((v, m)) => v.coerce_string(&m)?,
                None => d.cert_path,
            },
        })
    }
}

#[derive(Debug, PartialEq)]
struct RedisWithFlatten {
    host: String,
    tls: TlsConfig,
}

fn redis_with_flatten_derived() -> DerivedConfig {
    expand_derive_config(
        &[
            AttrItem::lit("prefix", "CISTELL_DERIVE"),
            AttrItem::lit("group", "redis"),
        ],
        &[
            FieldDef::new("host", "String", vec![AttrItem::lit("default", "localhost")]),
            FieldDef::new("tls", "TlsConfig", vec![AttrItem::flag("flatten")]),
        ],
    )
    .unwrap()
}

impl Config for RedisWithFlatten {
    fn fields() -> &'static [FieldMeta] {
        leak(redis_with_flatten_derived().fields(&[TlsConfig::fields()]))
    }

    fn defaults() -> Self {
        RedisWithFlatten { host: "localhost".into(), tls: TlsConfig::defaults() }
    }

    fn from_values(values: &ValueMap) -> Result<Self, ConfigError> {
        let fields = Self::fields();
        Ok(RedisWithFlatten {
            host: match field_value(values, fields, "host")? {
                Some((v, m)) => v.coerce_string(&m)?,
                None => "localhost".into(),
            },
            tls: TlsConfig::from_values(&values.nested("tls"))?,
        })
    }
}

#[derive(Debug, PartialEq)]
struct SkipConfig {
    host: String,
    cached_count: u32,
}

fn skip_derived() -> DerivedConfig {
    expand_derive_config(
        &[
            AttrItem::lit("prefix", "CISTELL_DERIVE"),
            AttrItem::lit("group", "skip"),
        ],
        &[
            FieldDef::new("host", "String", vec![AttrItem::lit("default", "localhost")]),
            FieldDef::new("cached_count", "u32", vec![AttrItem::flag("skip")]),
        ],
    )
    .unwrap()
}

impl Config for SkipConfig {
    fn fields() -> &'static [FieldMeta] {
        leak(skip_derived().fields(&[]))
    }

    fn defaults() -> Self {
        SkipConfig { host: "localhost".into(), cached_count: Default::default() }
    }

    fn from_values(values: &ValueMap) -> Result<Self, ConfigError> {
        let fields = Self::fields();
        Ok(SkipConfig {
            host: match field_value(values, fields, "host")? {
                Some((v, m)) => v.coerce_string(&m)?,
                None => "localhost".into(),
            },
            cached_count: Default::default(),
        })
    }
}

#[derive(Debug, PartialEq)]
struct DurationConfig {
    connect_timeout: Duration,
}

fn duration_derived() -> DerivedConfig {
    expand_derive_config(
        &[
            AttrItem::lit("prefix", "CISTELL_DERIVE"),
            AttrItem::lit("group", "timeouts"),
        ],
        &[FieldDef::new(
            "connect_timeout",
            "Duration",
            vec![
                AttrItem::expr("default", "::std::time::Duration::from_secs(30)"),
                AttrItem::lit("deserialize_with", "cistell_core::duration_from_secs"),
            ],
        )],
    )
    .unwrap()
}

impl Config for DurationConfig {
    fn fields() -> &'static [FieldMeta] {
        leak(duration_derived().fields(&[]))
    }

    fn defaults() -> Self {
        DurationConfig { connect_timeout: Duration::from_secs(30) }
    }

    fn from_values(values: &ValueMap) -> Result<Self, ConfigError> {
        let fields = Self::fields();
        Ok(DurationConfig {
            connect_timeout: match field_value(values, fields, "connect_timeout")? {
                Some((v, m)) => Duration::from_secs(v.coerce::<u64>(&m)?),
                None => Self::defaults().connect_timeout,
            },
        })
    }
}

#[test]
fn test_derive_basic_struct() {
    let fields = BasicRedisConfig::fields();
    assert_eq!(fields.len(), 5);
    assert_eq!(fields[0].name, "host");
    assert_eq!(fields[1].name, "port");
    assert_eq!(fields[2].name, "password");
    assert_eq!(fields[3].name, "sentinel_host");
    assert_eq!(fields[4].name, "allowed_hosts");
}

#[test]
fn test_derive_defaults() {
    let defaults = BasicRedisConfig::defaults();
    assert_eq!(defaults.host, "localhost");
    assert_eq!(defaults.port, 6379);
    assert_eq!(*defaults.password.expose(), "");
    assert_eq!(defaults.sentinel_host, None);
    assert_eq!(defaults.allowed_hosts, vec!["localhost"]);
}

#[test]
fn test_derive_from_values() {
    let mut values = ValueMap::new();
    values.insert("host", ConfigValue::String("redis.internal".into()));
    values.insert("port", ConfigValue::Integer(6380));
    values.insert("password", ConfigValue::String("hunter2".into()));
    values.insert(
        "allowed_hosts",
        ConfigValue::Array(vec![
            ConfigValue::String("a".into()),
            ConfigValue::String("b".into()),
        ]),
    );

    let cfg = BasicRedisConfig::from_values(&values).unwrap();
    assert_eq!(cfg.host, "redis.internal");
    assert_eq!(cfg.port, 6380);
    assert_eq!(*cfg.password.expose(), "hunter2");
    assert_eq!(cfg.sentinel_host, None);
    assert_eq!(cfg.allowed_hosts, vec!["a", "b"]);
}

#[test]
fn test_derive_env_key_generation() {
    let fields = BasicRedisConfig::fields();
    let host = fields.iter().find(|f| f.name == "host").unwrap();
    assert_eq!(host.env_key, "CISTELL_DERIVE__REDIS__HOST");
}

#[test]
fn test_derive_config_key_generation() {
    let fields = BasicRedisConfig::fields();
    let host = fields.iter().find(|f| f.name == "host").unwrap();
    assert_eq!(host.config_key, "redis.host");
}

#[test]
fn test_derive_secret_field() {
    let fields = BasicRedisConfig::fields();
    let password = fields.iter().find(|f| f.name == "password").unwrap();
    assert!(password.is_secret);
}

#[test]
fn test_derive_option_field_no_default() {
    let fields = BasicRedisConfig::fields();
    let sentinel = fields.iter().find(|f| f.name == "sentinel_host").unwrap();
    assert!(!sentinel.has_default);

    let defaults = BasicRedisConfig::defaults();
    assert!(defaults.sentinel_host.is_none());
}

#[test]
fn test_derive_skip_field() {
    let fields = SkipConfig::fields();
    assert_eq!(fields.len(), 1);
    assert_eq!(fields[0].name, "host");

    let defaults = SkipConfig::defaults();
    assert_eq!(defaults.host, "localhost");
    assert_eq!(defaults.cached_count, 0);
}

#[test]
fn test_derive_custom_env_key() {
    let fields = CustomKeysConfig::fields();
    assert_eq!(fields.len(), 1);
    assert_eq!(fields[0].env_key, "CUSTOM_HOST");
}

#[test]
fn test_derive_custom_toml_key() {
    let fields = CustomKeysConfig::fields();
    assert_eq!(fields.len(), 1);
    assert_eq!(fields[0].config_key, "service.custom.hostname");
}

#[test]
fn test_derive_flatten_includes_inner_fields() {
    let fields = RedisWithFlatten::fields();
    assert_eq!(fields.len(), 3);
    assert!(fields.iter().any(|f| f.name == "host"));
    assert!(fields.iter().any(|f| f.name == "tls.enabled"));
    assert!(fields.iter().any(|f| f.name == "tls.cert_path"));
}

#[test]
fn test_derive_flatten_env_key_nesting() {
    let fields = RedisWithFlatten::fields();
    let tls_enabled = fields.iter().find(|f| f.name == "tls.enabled").unwrap();
    assert_eq!(tls_enabled.env_key, "CISTELL_DERIVE__REDIS__TLS__ENABLED");
}

#[test]
fn test_derive_flatten_resolution() {
    let resolver = Resolver::builder().env().build();
    let mut env = Environment::new();
    env.set("CISTELL_DERIVE__REDIS__TLS__ENABLED", "true");
    let resolved = resolver.resolve::<RedisWithFlatten>(&env).unwrap();
    assert!(resolved.tls.enabled);
    assert_eq!(resolved.tls.cert_path, "cert.pem");
}

#[test]
fn test_duration_deserialize_with() {
    let resolver = Resolver::builder().env().build();
    let mut env = Environment::new();
    env.set("CISTELL_DERIVE__TIMEOUTS__CONNECT_TIMEOUT", "120");
    let resolved = resolver.resolve::<DurationConfig>(&env).unwrap();
    assert_eq!(resolved.connect_timeout, Duration::from_secs(120));
}

fn toml_file(path: &str, text: &str) -> cistell_core::source::file::FileSource {
    cistell_core::source::file::FileSource::parse(
        path,
        cistell_core::source::file::FileFormat::Toml,
        text,
    )
    .unwrap()
}

#[test]
fn test_derive_and_resolve_with_file() {
    let file = toml_file(
        "/tmp/config.toml",
        "[redis]\nhost = \"from-file\"\nport = 7000\npassword = \"file-pass\"\n",
    );
    let resolver = Resolver::builder().file(file).build();
    let resolved = resolver.resolve::<BasicRedisConfig>(&Environment::new()).unwrap();

    assert_eq!(resolved.host, "from-file");
    assert_eq!(resolved.port, 7000);
    assert_eq!(*resolved.password.expose(), "file-pass");

    let host_prov = resolved.provenance.get("host").unwrap();
    assert!(matches!(host_prov.source, Source::File { .. }));
}

#[test]
fn test_derive_and_resolve_mixed_sources() {
    let file = toml_file(
        "/tmp/config.toml",
        "[redis]\nhost = \"from-file\"\nport = 7000\npassword = \"file-pass\"\nallowed_hosts = [\"f1\", \"f2\"]\n",
    );
    let mut map = MapSource::new("test-overrides");
    map.insert("host", ConfigValue::String("from-map".into()));

    let resolver = Resolver::builder().add_source(map).env().file(file).build();
    let mut env = Environment::new();
    env.set("CISTELL_DERIVE__REDIS__PORT", "9001");
    let resolved = resolver.resolve::<BasicRedisConfig>(&env).unwrap();
    assert_eq!(resolved.host, "from-map");
    assert_eq!(resolved.port, 9001);
    assert_eq!(*resolved.password.expose(), "file-pass");
    assert_eq!(resolved.allowed_hosts, vec!["f1", "f2"]);

    let host_prov = resolved.provenance.get("host").unwrap();
    assert!(matches!(host_prov.source, Source::Mapping { .. }));
    let port_prov = resolved.provenance.get("port").unwrap();
    assert!(matches!(port_prov.source, Source::EnvVar { .. }));
    let pass_prov = resolved.provenance.get("password").unwrap();
    assert!(matches!(pass_prov.source, Source::File { .. }));
}

#[test]
fn test_derive_and_resolve() {
    let resolver = Resolver::builder().env().build();
    let env = Environment::new();
    let resolved = resolver.resolve::<BasicRedisConfig>(&env).unwrap();

    assert_eq!(resolved.host, "localhost");
    assert_eq!(resolved.port, 6379);
    assert_eq!(*resolved.password.expose(), "");
    assert_eq!(resolved.allowed_hosts, vec!["localhost"]);

    let option_prov = resolved.provenance.get("sentinel_host").unwrap();
    assert_eq!(option_prov.source, Source::Default);
    assert_eq!(option_prov.display_value.as_deref(), Some("None"));
}

#[test]
fn test_derive_and_resolve_with_env() {
    let resolver = Resolver::builder().env().build();
    let mut env = Environment::new();
    env.set("CISTELL_DERIVE__REDIS__HOST", "from-env");
    env.set("CISTELL_DERIVE__REDIS__PORT", "8000");
    env.set("CISTELL_DERIVE__REDIS__ALLOWED_HOSTS", "a,b,c");
    let resolved = resolver.resolve::<BasicRedisConfig>(&env).unwrap();
    assert_eq!(resolved.host, "from-env");
    assert_eq!(resolved.port, 8000);
    assert_eq!(resolved.allowed_hosts, vec!["a", "b", "c"]);

    let host_prov = resolved.provenance.get("host").unwrap();
    assert!(matches!(host_prov.source, Source::EnvVar { .. }));
}

#[derive(Debug, PartialEq)]
struct ManualRedisConfig {
    host: String,
    port: u16,
    sentinel_host: Option<String>,
    allowed_hosts: Vec<String>,
}

fn manual_fields() -> Vec<FieldMeta> {
    vec![
        FieldMeta {
            name: "host",
            config_key: "redis.host",
            env_key: "CISTELL_DERIVE__REDIS__HOST",
            generic_env_key: None,
            is_secret: false,
            expected_type: "String",
            has_default: true,
            deserialize_fn: None,
        },
        FieldMeta {
            name: "port",
            config_key: "redis.port",
            env_key: "CISTELL_DERIVE__REDIS__PORT",
            generic_env_key: None,
            is_secret: false,
            expected_type: "u16",
            has_default: true,
            deserialize_fn: None,
        },
        FieldMeta {
            name: "sentinel_host",
            config_key: "redis.sentinel_host",
            env_key: "CISTELL_DERIVE__REDIS__SENTINEL_HOST",
            generic_env_key: None,
            is_secret: false,
            expected_type: "Option<String>",
            has_default: false,
            deserialize_fn: None,
        },
        FieldMeta {
            name: "allowed_hosts",
            config_key: "redis.allowed_hosts",
            env_key: "CISTELL_DERIVE__REDIS__ALLOWED_HOSTS",
            generic_env_key: None,
            is_secret: false,
            expected_type: "Vec<String>",
            has_default: true,
            deserialize_fn: None,
        },
    ]
}

impl Config for ManualRedisConfig {
    fn fields() -> &'static [FieldMeta] {
        leak(manual_fields())
    }

    fn defaults() -> Self {
        Self {
            host: "localhost".to_owned(),
            port: 6379,
            sentinel_host: None,
            allowed_hosts: vec!["localhost".to_owned()],
        }
    }

    fn from_values(values: &ValueMap) -> Result<Self, ConfigError> {
        let fields = Self::fields();
        let defaults = Self::defaults();
        let host = match values.get("host") {
            Some(v) => v.coerce_string(&fields[0])?,
            None => defaults.host,
        };
        let port = match values.get("port") {
            Some(v) => v.coerce::<u16>(&fields[1])?,
            None => defaults.port,
        };
        let sentinel_host = match values.get("sentinel_host") {
            Some(v) => Some(v.coerce_string(&fields[2])?),
            None => None,
        };
        let allowed_hosts = match values.get("allowed_hosts") {
            Some(v) => v.coerce_vec::<String>(&fields[3])?,
            None => defaults.allowed_hosts,
        };
        Ok(Self { host, port, sentinel_host, allowed_hosts })
    }
}

#[derive(Debug, PartialEq)]
struct DerivedRedisConfig {
    host: String,
    port: u16,
    sentinel_host: Option<String>,
    allowed_hosts: Vec<String>,
}

impl Config for DerivedRedisConfig {
    fn fields() -> &'static [FieldMeta] {
        let d = expand_derive_config(
            &[
                AttrItem::lit("prefix", "CISTELL_DERIVE"),
                AttrItem::lit("group", "redis"),
            ],
            &[
                FieldDef::new("host", "String", vec![AttrItem::lit("default", "localhost")]),
                FieldDef::new("port", "u16", vec![AttrItem::expr("default", "6379u16")]),
                FieldDef::new("sentinel_host", "Option<String>", vec![]),
                FieldDef::new(
                    "allowed_hosts",
                    "Vec<String>",
                    vec![AttrItem::expr("default", "vec![\"localhost\".to_owned()]")],
                ),
            ],
        )
        .unwrap();
        leak(d.fields(&[]))
    }

    fn defaults() -> Self {
        Self {
            host: "localhost".into(),
            port: 6379u16,
            sentinel_host: None,
            allowed_hosts: vec!["localhost".to_owned()],
        }
    }

    fn from_values(values: &ValueMap) -> Result<Self, ConfigError> {
        let fields = Self::fields();
        let d = Self::defaults();
        Ok(Self {
            host: match field_value(values, fields, "host")? {
                Some((v, m)) => v.coerce_string(&m)?,
                None => d.host,
            },
            port: match field_value(values, fields, "port")? {
                Some((v, m)) => v.coerce::<u16>(&m)?,
                None => d.port,
            },
            sentinel_host: match field_value(values, fields, "sentinel_host")? {
                Some((v, m)) => Some(v.coerce_string(&m)?),
                None => None,
            },
            allowed_hosts: match field_value(values, fields, "allowed_hosts")? {
                Some((v, m)) => v.coerce_vec::<String>(&m)?,
                None => d.allowed_hosts,
            },
        })
    }
}

#[test]
fn test_derived_redis_matches_manual_impl() {
    let mut map = MapSource::new("manual-vs-derived");
    map.insert("port", ConfigValue::Integer(7777));

    let resolver = Resolver::builder().add_source(map).env().build();
    let mut env = Environment::new();
    env.set("CISTELL_DERIVE__REDIS__HOST", "env-host");
    env.set("CISTELL_DERIVE__REDIS__ALLOWED_HOSTS", "x,y");
    env.set("CISTELL_DERIVE__REDIS__SENTINEL_HOST", "sentinel");

    let manual = resolver.resolve::<ManualRedisConfig>(&env).unwrap();
    let derived = resolver.resolve::<DerivedRedisConfig>(&env).unwrap();

    assert_eq!(manual.host, derived.host);
    assert_eq!(manual.port, derived.port);
    assert_eq!(manual.sentinel_host, derived.sentinel_host);
    assert_eq!(manual.allowed_hosts, derived.allowed_hosts);
    assert_eq!(derived.port, 7777);
    assert_eq!(derived.sentinel_host.as_deref(), Some("sentinel"));
}

#[test]
fn test_parse_struct_attrs() {
    let parsed = parse_struct_attrs(&[
        AttrItem::lit("prefix", "X"),
        AttrItem::lit("group", "redis"),
    ])
    .unwrap();
    assert_eq!(parsed.prefix, "X");
    assert_eq!(parsed.group, "redis");
    assert_eq!(parsed.sep, "__");
    assert_eq!(parsed.toml_key, "redis");
}

#[test]
fn test_parse_struct_attrs_with_sep() {
    let parsed = parse_struct_attrs(&[
        AttrItem::lit("prefix", "X"),
        AttrItem::lit("group", "redis"),
        AttrItem::lit("sep", "_"),
    ])
    .unwrap();
    assert_eq!(parsed.sep, "_");
}

#[test]
fn test_parse_field_default_string() {
    let parsed = parse_field_attrs(&[AttrItem::lit("default", "localhost")]).unwrap();
    assert!(parsed.default.is_some());
}

#[test]
fn test_parse_field_default_numeric() {
    let parsed = parse_field_attrs(&[AttrItem::expr("default", "6379u16")]).unwrap();
    assert!(parsed.default.is_some());
}

#[test]
fn test_parse_field_secret() {
    let parsed = parse_field_attrs(&[AttrItem::flag("secret")]).unwrap();
    assert!(parsed.secret);
}

#[test]
fn test_parse_field_skip() {
    let parsed = parse_field_attrs(&[AttrItem::flag("skip")]).unwrap();
    assert!(parsed.skip);
}

#[test]
fn test_parse_field_flatten() {
    let parsed = parse_field_attrs(&[AttrItem::flag("flatten")]).unwrap();
    assert!(parsed.flatten);
}

fn derive_error(items: &[AttrItem], fields: &[FieldDef]) -> String {
    match expand_derive_config(items, fields) {
        Ok(_) => panic!("expected a derive error"),
        Err(e) => e.message,
    }
}

#[test]
fn test_derive_ui_compile_failures() {
    let fields = [FieldDef::new("a", "String", vec![AttrItem::lit("default", "x")])];
    assert_eq!(
        derive_error(&[AttrItem::lit("group", "g")], &fields),
        "#[config(prefix = \"...\")] is required on the struct"
    );
    assert_eq!(
        derive_error(&[AttrItem::lit("prefix", "P")], &fields),
        "#[config(group = \"...\")] is required on the struct"
    );
    let base = [AttrItem::lit("prefix", "P"), AttrItem::lit("group", "g")];
    assert_eq!(
        derive_error(&base, &[FieldDef::new("a", "u32", vec![])]),
        "required field must have #[config(default = ...)] or be Option<T>"
    );
    assert_eq!(
        derive_error(
            &base,
            &[FieldDef::new(
                "a",
                "u32",
                vec![AttrItem::flag("skip"), AttrItem::expr("default", "1")]
            )]
        ),
        "#[config(skip)] and #[config(default = ...)] are mutually exclusive"
    );
    assert_eq!(
        derive_error(
            &base,
            &[FieldDef::new(
                "t",
                "TlsConfig",
                vec![AttrItem::flag("flatten"), AttrItem::flag("secret")]
            )]
        ),
        "#[config(flatten)] cannot be combined with secret/default/env_key"
    );
    assert_eq!(
        derive_error(
            &base,
            &[FieldDef::new("a", "u32", vec![AttrItem::flag("unknown_attr")])]
        ),
        "unknown field config attribute; expected one of: default, env_key, toml_key, secret, skip, flatten, deserialize_with"
    );
    assert_eq!(
        derive_error(&[AttrItem::lit("prefix", "P"), AttrItem::flag("bogus")], &fields),
        "unknown struct config attribute; expected one of: prefix, group, sep, toml_key"
    );
}

#[test]
fn derive_attribute_value_errors() {
    assert_eq!(
        parse_struct_attrs(&[AttrItem::flag("prefix")]).unwrap_err().message,
        "expected `=`"
    );
    assert_eq!(
        parse_struct_attrs(&[AttrItem::expr("prefix", "1")]).unwrap_err().message,
        "expected string literal"
    );
    assert_eq!(
        parse_field_attrs(&[AttrItem::expr("secret", "true")]).unwrap_err().message,
        "expected `,`"
    );
    assert_eq!(
        parse_field_attrs(&[AttrItem::flag("default")]).unwrap_err().message,
        "expected `=`"
    );
    let later_wins = parse_struct_attrs(&[
        AttrItem::lit("prefix", "A"),
        AttrItem::lit("group", "g"),
        AttrItem::lit("prefix", "B"),
    ])
    .unwrap();
    assert_eq!(later_wins.prefix, "B");
}

#[test]
fn derive_plans_coercion_and_default() {
    let d = expand_derive_config(
        &[AttrItem::lit("prefix", "app"), AttrItem::lit("group", "Db")],
        &[
            FieldDef::new("name", "String", vec![AttrItem::lit("default", "x")]),
            FieldDef::new("token", "Secret<String>", vec![AttrItem::lit("default", "")]),
            FieldDef::new("hosts", "Option<Vec<String>>", vec![]),
            FieldDef::new("keys", "Secret<Vec<u8>>", vec![AttrItem::expr("default", "vec![]")]),
            FieldDef::new("wait", "std::time::Duration", vec![AttrItem::expr("default", "d()")]),
            FieldDef::new("port", "u16", vec![AttrItem::expr("default", "1")]),
            FieldDef::new("nested", "Option<Option<u8>>", vec![]),
        ],
    )
    .unwrap();
    match &d.plans[0] {
        FieldPlan::Direct { meta, default, options, coercion } => {
            assert_eq!(meta.env_key, "APP__DB__NAME");
            assert_eq!(meta.generic_env_key, Some("APP__NAME"));
            assert_eq!(meta.config_key, "Db.name");
            assert_eq!(*options, 0);
            assert_eq!(*coercion, Coercion::Text);
            assert!(matches!(default, DefaultPlan::Into(_)));
        }
        other => panic!("unexpected plan {other:?}"),
    }
    match &d.plans[1] {
        FieldPlan::Direct { meta, default, coercion, .. } => {
            assert!(meta.is_secret);
            assert_eq!(*coercion, Coercion::Secret("String".into()));
            assert!(matches!(default, DefaultPlan::SecretNew(_)));
        }
        other => panic!("unexpected plan {other:?}"),
    }
    match &d.plans[2] {
        FieldPlan::Direct { default, options, coercion, .. } => {
            assert_eq!(*options, 1);
            assert_eq!(*coercion, Coercion::List("String".into()));
            assert_eq!(*default, DefaultPlan::NoneValue);
        }
        other => panic!("unexpected plan {other:?}"),
    }
    match &d.plans[3] {
        FieldPlan::Direct { coercion, .. } => {
            assert_eq!(*coercion, Coercion::SecretVec("u8".into()))
        }
        other => panic!("unexpected plan {other:?}"),
    }
    match &d.plans[4] {
        FieldPlan::Direct { meta, coercion, .. } => {
            assert_eq!(*coercion, Coercion::Duration);
            assert_eq!(meta.expected_type, "std::time::Duration");
        }
        other => panic!("unexpected plan {other:?}"),
    }
    match &d.plans[5] {
        FieldPlan::Direct { coercion, default, .. } => {
            assert_eq!(*coercion, Coercion::Scalar("u16".into()));
            assert!(matches!(default, DefaultPlan::Value(_)));
        }
        other => panic!("unexpected plan {other:?}"),
    }
    match &d.plans[6] {
        FieldPlan::Direct { options, coercion, .. } => {
            assert_eq!(*options, 2);
            assert_eq!(*coercion, Coercion::Scalar("u8".into()));
        }
        other => panic!("unexpected plan {other:?}"),
    }
}

#[test]
fn derive_deserialize_with_paths() {
    let base = [AttrItem::lit("prefix", "P"), AttrItem::lit("group", "g")];
    let d = expand_derive_config(
        &base,
        &[FieldDef::new(
            "t",
            "Duration",
            vec![
                AttrItem::expr("default", "x"),
                AttrItem::lit("deserialize_with", "duration_from_secs"),
            ],
        )],
    )
    .unwrap();
    let fields = d.fields(&[]);
    assert_eq!(fields[0].deserialize_fn, Some(DeserializeFn::DurationFromSecs));
    let d = expand_derive_config(
        &base,
        &[FieldDef::new(
            "t",
            "u8",
            vec![
                AttrItem::expr("default", "1"),
                AttrItem::lit("deserialize_with", "my::parse"),
            ],
        )],
    )
    .unwrap();
    let fields = d.fields(&[]);
    assert_eq!(fields[0].deserialize_fn, Some(DeserializeFn::Named("my::parse")));
    let raw = ConfigValue::String("7".into());
    assert_eq!(
        DeserializeFn::Named("my::parse").apply(&raw, &fields[0]).unwrap(),
        raw
    );
}

#[test]
fn derive_deserialize_with_must_be_a_path() {
    let base = [AttrItem::lit("prefix", "P"), AttrItem::lit("group", "g")];
    let msg = derive_error(
        &base,
        &[FieldDef::new(
            "t",
            "u8",
            vec![
                AttrItem::expr("default", "1"),
                AttrItem::lit("deserialize_with", "not a path!"),
            ],
        )],
    );
    assert!(msg.starts_with("invalid path for deserialize_with: "), "{msg}");
    assert!(msg.len() > "invalid path for deserialize_with: ".len());
    let err = parse_field_attrs(&[AttrItem::lit("deserialize_with", "")]).unwrap_err();
    assert!(err.message.starts_with("invalid path for deserialize_with: "));
    let ok = parse_field_attrs(&[AttrItem::lit("deserialize_with", "crate::conv::parse_port")]).unwrap();
    assert_eq!(ok.deserialize_with.as_deref(), Some("crate::conv::parse_port"));
}

#[test]
fn flatten_custom_separator_and_foreign_prefix() {
    let inner = [FieldMeta {
        name: "x",
        config_key: "in.x",
        env_key: "OTHER-IN-X",
        generic_env_key: Some("OTHER-X"),
        is_secret: true,
        expected_type: "u8",
        has_default: true,
        deserialize_fn: None,
    }];
    let outer = expand_derive_config(
        &[
            AttrItem::lit("prefix", "app"),
            AttrItem::lit("group", "main"),
            AttrItem::lit("sep", "-"),
            AttrItem::lit("toml_key", "svc"),
        ],
        &[FieldDef::new("sub", "Inner", vec![AttrItem::flag("flatten")])],
    )
    .unwrap();
    let f = outer.fields(&[&inner]);
    assert_eq!(f.len(), 1);
    assert_eq!(f[0].name, "sub.x");
    assert_eq!(f[0].config_key, "svc.in.x");
    assert_eq!(f[0].env_key, "APP-MAIN-OTHER-IN-X");
    assert_eq!(f[0].generic_env_key, Some("OTHER-X"));
    assert!(f[0].is_secret);

    let same_prefix = [FieldMeta { env_key: "app-in-x", ..inner[0] }];
    let f = outer.fields(&[&same_prefix]);
    assert_eq!(f[0].env_key, "APP-MAIN-in-x");
}
