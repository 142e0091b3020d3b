use cistell_core::config::ValueMap;
use cistell_core::duration::duration_from_secs;
use cistell_core::error::ConfigError;
use cistell_core::field::{DeserializeFn, FieldMeta};
use cistell_core::provenance::Source;
use cistell_core::python::{
    load_format, resolve_field, select_section, FieldPick, FieldProvenance, MappingProbe,
    SectionProbe,
};
use cistell_core::resolver::Resolver;
use cistell_core::source::default::DefaultSource;
use cistell_core::source::env::Environment;
use cistell_core::source::file::{FileFormat, FileSource};
use cistell_core::source::map::MapSource;
use cistell_core::value::ConfigValue;

fn meta_host() -> FieldMeta {
    FieldMeta {
        name: "host",
        config_key: "redis.host",
        env_key: "CISTELL_RESOLVER_TEST__HOST",
        generic_env_key: None,
        is_secret: false,
        expected_type: "String",
        has_default: true,
        deserialize_fn: None,
    }
}

fn meta_port() -> FieldMeta {
    FieldMeta {
        name: "port",
        config_key: "redis.port",
        env_key: "CISTELL_RESOLVER_TEST__PORT",
        generic_env_key: None,
        is_secret: false,
        expected_type: "u16",
        has_default: true,
        deserialize_fn: None,
    }
}

fn meta_password() -> FieldMeta {
    FieldMeta {
        name: "password",
        config_key: "redis.password",
        env_key: "CISTELL_RESOLVER_TEST__PASSWORD",
        generic_env_key: None,
        is_secret: true,
        expected_type: "String",
        has_default: false,
        deserialize_fn: None,
    }
}

#[test]
fn test_resolve_raw_default_only() {
    let mut defaults = DefaultSource::new();
    defaults.insert("host", ConfigValue::String("localhost".into()));
    let resolver = Resolver::builder().add_source(defaults).build();
    let fields = [meta_host()];
    let result = resolver.resolve_raw(&fields, &Environment::new()).unwrap();
    let (val, prov) = result.get("host").unwrap();
    assert_eq!(*val, ConfigValue::String("localhost".into()));
    assert_eq!(prov.source, Source::Default);
    assert!(prov.rejected_sources.is_empty());
}

#[test]
fn test_resolve_raw_env_overrides_default() {
    let mut defaults = DefaultSource::new();
    defaults.insert("host", ConfigValue::String("localhost".into()));
    let resolver = Resolver::builder()
        .add_source(cistell_core::source::env::EnvSource::new())
        .add_source(defaults)
        .build();
    let fields = [meta_host()];
    let mut env = Environment::new();
    env.set("CISTELL_RESOLVER_TEST__HOST", "from-env");
    let result = resolver.resolve_raw(&fields, &env).unwrap();
    let (val, prov) = result.get("host").unwrap();
    assert_eq!(*val, ConfigValue::String("from-env".into()));
    assert!(matches!(prov.source, Source::EnvVar { .. }));
    assert_eq!(prov.rejected_sources.len(), 1);
    assert_eq!(prov.rejected_sources[0], Source::Default);
}

#[test]
fn test_resolve_raw_map_overrides_env() {
    let mut map = MapSource::new("overrides");
    map.insert("host", ConfigValue::String("from-map".into()));
    let resolver = Resolver::builder().env().add_source(map).build();
    let fields = [meta_host()];
    let mut env = Environment::new();
    env.set("CISTELL_RESOLVER_TEST__HOST", "from-env");
    let result = resolver.resolve_raw(&fields, &env).unwrap();
    let (val, prov) = result.get("host").unwrap();
    assert_eq!(*val, ConfigValue::String("from-map".into()));
    assert!(matches!(prov.source, Source::Mapping { .. }));
    assert_eq!(prov.rejected_sources.len(), 1);
    assert!(matches!(prov.rejected_sources[0], Source::EnvVar { .. }));
}

#[test]
fn test_resolve_raw_file_overrides_default() {
    let doc = ConfigValue::Table(vec![(
        "redis".into(),
        ConfigValue::Table(vec![("host".into(), ConfigValue::String("from-file".into()))]),
    )]);
    let file_source = FileSource::from_document("/tmp/x.toml", doc);
    let mut defaults = DefaultSource::new();
    defaults.insert("host", ConfigValue::String("localhost".into()));
    let resolver = Resolver::builder()
        .add_source(file_source)
        .add_source(defaults)
        .build();
    let fields = [meta_host()];
    let result = resolver.resolve_raw(&fields, &Environment::new()).unwrap();
    let (val, prov) = result.get("host").unwrap();
    assert_eq!(*val, ConfigValue::String("from-file".into()));
    assert!(matches!(prov.source, Source::File { .. }));
    assert_eq!(prov.rejected_sources.len(), 1);
    assert_eq!(prov.rejected_sources[0], Source::Default);
}

#[test]
fn test_resolve_raw_missing_required_errors() {
    let resolver = Resolver::builder().build();
    let fields = [meta_password()];
    let err = match resolver.resolve_raw(&fields, &Environment::new()) {
        Ok(_) => panic!("expected an error"),
        Err(e) => e,
    };
    assert!(matches!(err, ConfigError::MissingRequired { .. }));
    assert!(err.to_string().contains("password"));
}

#[test]
fn test_resolve_raw_provenance_tracks_rejected() {
    let mut map = MapSource::new("overrides");
    map.insert("host", ConfigValue::String("from-map".into()));
    let mut defaults = DefaultSource::new();
    defaults.insert("host", ConfigValue::String("default-host".into()));
    let resolver = Resolver::builder()
        .add_source(map)
        .env()
        .add_source(defaults)
        .build();
    let fields = [meta_host()];
    let mut env = Environment::new();
    env.set("CISTELL_RESOLVER_TEST__HOST", "from-env");
    let result = resolver.resolve_raw(&fields, &env).unwrap();
    let (_, prov) = result.get("host").unwrap();
    assert_eq!(prov.rejected_sources.len(), 2);
}

#[test]
fn test_resolve_raw_secret_field_provenance() {
    let mut defaults = DefaultSource::new();
    defaults.insert("password", ConfigValue::String("hunter2".into()));
    let resolver = Resolver::builder().add_source(defaults).build();
    let fields = [meta_password()];
    let result = resolver.resolve_raw(&fields, &Environment::new()).unwrap();
    let (_, prov) = result.get("password").unwrap();
    assert!(prov.is_secret);
    assert!(prov.display_value.is_none());
    assert_eq!(prov.to_string(), "password = <secret> [from: default]");
}

#[test]
fn test_resolve_raw_multiple_fields() {
    let mut defaults = DefaultSource::new();
    defaults.insert("host", ConfigValue::String("localhost".into()));
    defaults.insert("port", ConfigValue::Integer(6379));
    let resolver = Resolver::builder().add_source(defaults).build();
    let fields = [meta_host(), meta_port()];
    let result = resolver.resolve_raw(&fields, &Environment::new()).unwrap();
    assert!(result.contains_key("host"));
    assert!(result.contains_key("port"));
    assert_eq!(
        result.get("host").unwrap().0,
        ConfigValue::String("localhost".into())
    );
    assert_eq!(result.get("port").unwrap().0, ConfigValue::Integer(6379));
}

#[test]
fn first_value_wins_and_rejected_in_order() {
    let mut a = MapSource::new("a");
    a.insert("host", ConfigValue::String("A".into()));
    let mut b = MapSource::new("b");
    b.insert("host", ConfigValue::String("B".into()));
    let mut c = DefaultSource::new();
    c.insert("host", ConfigValue::String("C".into()));
    // Added in reverse priority order: the build sorts by rank, keeping the
    // order of equal ranks.
    let resolver = Resolver::builder()
        .add_source(c)
        .add_source(b.with_rank(10))
        .add_source(a.with_rank(10))
        .build();
    let raw = resolver.resolve_raw(&[meta_host()], &Environment::new()).unwrap();
    let (v, p) = raw.get("host").unwrap();
    assert_eq!(*v, ConfigValue::String("B".into()));
    assert_eq!(
        p.rejected_sources,
        vec![Source::Mapping { label: "a".into() }, Source::Default]
    );
    assert_eq!(p.display_value.as_deref(), Some("B"));
}

#[test]
fn first_failing_source_error_is_reported() {
    let mut env = Environment::new();
    env.set_not_unicode("CISTELL_RESOLVER_TEST__HOST");
    let mut d = DefaultSource::new();
    d.insert("host", ConfigValue::String("x".into()));
    let resolver = Resolver::builder().add_source(d).env().build();
    let err = match resolver.resolve_raw(&[meta_host()], &env) {
        Ok(_) => panic!("expected an error"),
        Err(e) => e,
    };
    assert!(matches!(err, ConfigError::EnvVar { .. }));
}

#[test]
fn option_field_unresolved_is_not_an_error() {
    let mut m = meta_password();
    m.expected_type = "Option<String>";
    let resolver = Resolver::builder().build();
    let raw = resolver.resolve_raw(&[m], &Environment::new()).unwrap();
    assert!(!raw.contains_key("password"));
    let (values, prov) = resolver.resolve_fields(&[m], &Environment::new()).unwrap();
    assert!(!values.contains_key("password"));
    let p = prov.get("password").unwrap();
    assert_eq!(p.display_value, None);
    assert_eq!(p.to_string(), "password = <secret> [from: default]");
}

#[test]
fn map_source_insert_then_lookup_law() {
    let mut m = MapSource::new("m");
    m.insert("host", ConfigValue::String("1".into()));
    m.insert("port", ConfigValue::Integer(2));
    m.insert("host", ConfigValue::String("3".into()));
    let r = Resolver::builder().add_source(m).build();
    let raw = r.resolve_raw(&[meta_host(), meta_port()], &Environment::new()).unwrap();
    assert_eq!(raw.get("host").unwrap().0, ConfigValue::String("3".into()));
    assert_eq!(raw.get("port").unwrap().0, ConfigValue::Integer(2));
}

#[test]
fn value_map_latest_and_nested() {
    let mut v = ValueMap::new();
    v.insert("a", ConfigValue::Integer(1));
    v.insert("tls.enabled", ConfigValue::Bool(true));
    v.insert("a", ConfigValue::Integer(2));
    v.insert("tlsx.other", ConfigValue::Bool(false));
    assert_eq!(v.get("a"), Some(&ConfigValue::Integer(2)));
    let n = v.nested("tls");
    assert_eq!(n.get("enabled"), Some(&ConfigValue::Bool(true)));
    assert!(!n.contains_key("other"));
    assert!(!n.contains_key("a"));
}

#[test]
fn field_input_applies_deserializer_and_reports_missing_meta() {
    let mut m = meta_port();
    m.name = "timeout";
    m.deserialize_fn = Some(DeserializeFn::DurationFromSecs);
    let mut v = ValueMap::new();
    v.insert("timeout", ConfigValue::String(" 90 ".into()));
    let (val, meta) = v.field_input(&[m], "timeout").unwrap().unwrap();
    assert_eq!(val, ConfigValue::Integer(90));
    assert_eq!(meta.name, "timeout");
    assert!(v.field_input(&[m], "other").unwrap().is_none());
    v.insert("other", ConfigValue::Integer(1));
    let err = v.field_input(&[m], "other").unwrap_err();
    assert_eq!(
        err.to_string(),
        "internal error: derived field metadata missing for 'other'"
    );
}

#[test]
fn duration_from_secs_cases() {
    let m = meta_port();
    assert_eq!(duration_from_secs(&ConfigValue::Integer(5), &m).unwrap(), ConfigValue::Integer(5));
    assert_eq!(
        duration_from_secs(&ConfigValue::Float("2.5".into()), &m).unwrap(),
        ConfigValue::Integer(3)
    );
    assert_eq!(
        duration_from_secs(&ConfigValue::Float("inf".into()), &m).unwrap(),
        ConfigValue::Integer(i64::MAX)
    );
    assert_eq!(
        duration_from_secs(&ConfigValue::Float("NaN".into()), &m).unwrap(),
        ConfigValue::Integer(0)
    );
    assert!(duration_from_secs(&ConfigValue::Float("-0.5".into()), &m).is_err());
    let e = duration_from_secs(&ConfigValue::Integer(-1), &m).unwrap_err();
    assert_eq!(
        e.to_string(),
        "field 'port': cannot parse '-1' as u16: duration cannot be negative"
    );
    let e = duration_from_secs(&ConfigValue::Bool(true), &m).unwrap_err();
    assert!(e.to_string().ends_with("cannot convert bool to duration"));
    let e = duration_from_secs(&ConfigValue::String("x".into()), &m).unwrap_err();
    assert!(e.to_string().ends_with(&"x".parse::<u64>().unwrap_err().to_string()));
}

#[test]
fn duration_from_secs_text_counts_fit_in_i64() {
    let m = meta_port();
    assert_eq!(
        duration_from_secs(&ConfigValue::String(" 42 ".into()), &m).unwrap(),
        ConfigValue::Integer(42)
    );
    assert_eq!(
        duration_from_secs(&ConfigValue::String("9223372036854775807".into()), &m).unwrap(),
        ConfigValue::Integer(i64::MAX)
    );
    let e = duration_from_secs(&ConfigValue::String("18446744073709551615".into()), &m).unwrap_err();
    assert_eq!(
        e.to_string(),
        "field 'port': cannot parse '18446744073709551615' as u16: number too large to fit in target type"
    );
    assert!(duration_from_secs(&ConfigValue::String("9223372036854775808".into()), &m).is_err());
}

#[test]
fn python_load_format_and_sections() {
    assert_eq!(load_format("a/B.Yml").unwrap(), FileFormat::Yaml);
    assert_eq!(
        load_format("conf.ini").unwrap_err(),
        "Unsupported file extension in conf.ini"
    );
    let root = ConfigValue::Table(vec![
        ("x".into(), ConfigValue::Integer(1)),
        (
            "tool".into(),
            ConfigValue::Table(vec![("app".into(), ConfigValue::Table(vec![]))]),
        ),
    ]);
    assert_eq!(select_section("/p/PyProject.toml", Some("app"), &root), Some(&ConfigValue::Table(vec![])));
    assert_eq!(select_section("/p/pyproject.toml", Some("zzz"), &root), None);
    assert_eq!(select_section("/p/pyproject.toml", None, &root), Some(&root));
    assert_eq!(select_section("/p/conf.toml", Some("app"), &root), Some(&root));
    assert_eq!(select_section("/p/conf.toml", None, &ConfigValue::Integer(3)), None);
}

fn probes() -> Vec<MappingProbe> {
    vec![
        MappingProbe {
            source: "file".into(),
            has_field: true,
            section: SectionProbe::Table { has_field: false },
        },
        MappingProbe {
            source: "config_values".into(),
            has_field: true,
            section: SectionProbe::Table { has_field: true },
        },
    ]
}

#[test]
fn python_resolve_field_priorities() {
    let env = Environment::new();
    let mut marks: Vec<String> = Vec::new();
    let (pick, prov) =
        resolve_field("f", "cid", "P__C__F", "P__F", true, &probes(), false, &mut marks, &env)
            .unwrap();
    assert_eq!(pick, FieldPick::Mapping { index: 1, class_section: true });
    assert_eq!(prov.source, "config_values");
    assert!(prov.is_secret && !prov.is_default && prov.display_value.is_none());
    assert!(marks.is_empty());

    let mut env = Environment::new();
    env.set("P__F", "g");
    let (pick, prov) =
        resolve_field("f", "cid", "P__C__F", "P__F", false, &probes(), false, &mut marks, &env)
            .unwrap();
    assert_eq!(pick, FieldPick::Env { key: "P__F".into(), value: "g".into() });
    assert_eq!(prov.source, "env var 'P__F'");
    env.set("P__C__F", "c");
    let (pick, _) =
        resolve_field("f", "cid", "P__C__F", "P__F", false, &probes(), false, &mut marks, &env)
            .unwrap();
    assert_eq!(pick, FieldPick::Env { key: "P__C__F".into(), value: "c".into() });

    assert!(resolve_field("f", "cid", "A", "B", false, &[], false, &mut marks, &Environment::new())
        .is_none());
}

#[test]
fn python_marks_prevent_reapplication() {
    let env = Environment::new();
    let mut marks: Vec<String> = Vec::new();
    let first =
        resolve_field("f", "cid", "A", "B", false, &probes(), true, &mut marks, &env).unwrap();
    assert_eq!(first.0, FieldPick::Mapping { index: 1, class_section: true });
    assert_eq!(
        marks,
        vec![
            "file##f".to_owned(),
            "config_values##f".to_owned(),
            "config_values##cid##f".to_owned()
        ]
    );
    let again = resolve_field("f", "cid", "A", "B", false, &probes(), true, &mut marks, &env);
    assert!(again.is_none());
    assert_eq!(marks.len(), 3);
}

#[test]
fn python_provenance_repr() {
    let p = FieldProvenance::new("env var 'X'".into(), false, true, None);
    assert_eq!(p.repr(), "FieldProvenance(source='env var 'X'', is_secret=True)");
    let p = FieldProvenance::new("file".into(), true, false, Some("1".into()));
    assert_eq!(p.repr(), "FieldProvenance(source='file', is_secret=False)");
}

fn law_sources() -> (MapSource, DefaultSource, FileSource) {
    let mut map = MapSource::new("m");
    map.insert("host", ConfigValue::String("from-map".into()));
    let mut defaults = DefaultSource::new();
    defaults.insert("host", ConfigValue::String("from-defaults".into()));
    defaults.insert("port", ConfigValue::Integer(1));
    let file = FileSource::parse("/t/c.toml", FileFormat::Toml, "[redis]\nport = 2\n").unwrap();
    (map, defaults, file)
}

#[test]
fn add_order_of_distinct_ranks_does_not_matter() {
    let fields = [meta_host(), meta_port()];
    let (m, d, f) = law_sources();
    let a = Resolver::builder().add_source(m).add_source(d).file(f).build();
    let (m, d, f) = law_sources();
    let b = Resolver::builder().file(f).add_source(d).add_source(m).build();
    let ra = a.resolve_raw(&fields, &Environment::new()).unwrap();
    let rb = b.resolve_raw(&fields, &Environment::new()).unwrap();
    for name in ["host", "port"] {
        let (va, pa) = ra.get(name).unwrap();
        let (vb, pb) = rb.get(name).unwrap();
        assert_eq!(va, vb);
        assert_eq!(pa.source, pb.source);
        assert_eq!(pa.display_value, pb.display_value);
        assert_eq!(pa.rejected_sources, pb.rejected_sources);
    }
    assert_eq!(ra.get("host").unwrap().0, ConfigValue::String("from-map".into()));
    assert_eq!(ra.get("port").unwrap().0, ConfigValue::Integer(2));
}

#[test]
fn coerce_to_char() {
    let mut m = meta_host();
    m.expected_type = "char";
    assert_eq!(ConfigValue::String("x".into()).coerce::<char>(&m).unwrap(), 'x');
    assert_eq!(ConfigValue::Integer(7).coerce::<char>(&m).unwrap(), '7');
    let e = ConfigValue::String("ab".into()).coerce::<char>(&m).unwrap_err();
    assert!(e.to_string().ends_with(&"ab".parse::<char>().unwrap_err().to_string()));
    let e = ConfigValue::String(String::new()).coerce::<char>(&m).unwrap_err();
    assert!(e.to_string().ends_with(&"".parse::<char>().unwrap_err().to_string()));
}

#[test]
fn coerce_to_wide_integers() {
    let mut m = meta_port();
    m.expected_type = "u128";
    assert_eq!(
        ConfigValue::String(u128::MAX.to_string()).coerce::<u128>(&m).unwrap(),
        u128::MAX
    );
    let too_big = "340282366920938463463374607431768211456";
    let e = ConfigValue::String(too_big.into()).coerce::<u128>(&m).unwrap_err();
    assert!(e.to_string().ends_with(&too_big.parse::<u128>().unwrap_err().to_string()));
    let e = ConfigValue::String("-1".into()).coerce::<u128>(&m).unwrap_err();
    assert!(e.to_string().ends_with(&"-1".parse::<u128>().unwrap_err().to_string()));
    m.expected_type = "i128";
    assert_eq!(
        ConfigValue::String(i128::MIN.to_string()).coerce::<i128>(&m).unwrap(),
        i128::MIN
    );
    assert_eq!(ConfigValue::Integer(-5).coerce::<i128>(&m).unwrap(), -5);
    let too_small = "-170141183460469231731687303715884105729";
    let e = ConfigValue::String(too_small.into()).coerce::<i128>(&m).unwrap_err();
    assert!(e.to_string().ends_with(&too_small.parse::<i128>().unwrap_err().to_string()));
    let e = ConfigValue::String("+".into()).coerce::<i128>(&m).unwrap_err();
    assert!(e.to_string().ends_with(&"+".parse::<i128>().unwrap_err().to_string()));
}
