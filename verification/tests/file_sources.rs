use cistell_core::document::parse_document_text;
use cistell_core::error::ConfigError;
use cistell_core::field::FieldMeta;
use cistell_core::provenance::Source;
use cistell_core::python::document_section;
use cistell_core::source::env::Environment;
use cistell_core::source::file::{FileFormat, FileSource};
use cistell_core::source::pyproject::PyprojectTomlSource;
use cistell_core::source::ConfigSource;
use cistell_core::value::ConfigValue;

/// Reads `text` as `FileSource::load` would read a file named `path`.
fn load(path: &str, text: &str) -> Result<FileSource, ConfigError> {
    FileSource::from_text(path, text)
}

fn test_meta(config_key: &'static str) -> FieldMeta {
    FieldMeta {
        name: "host",
        config_key,
        env_key: "REDIS__HOST",
        generic_env_key: None,
        is_secret: false,
        expected_type: "String",
        has_default: true,
        deserialize_fn: None,
    }
}

fn get(source: &FileSource, meta: &FieldMeta) -> Option<(ConfigValue, Source)> {
    source.get(meta, &Environment::new()).unwrap()
}

#[test]
fn test_file_source_toml_reads_key() {
    let source = load("/t/a.toml", "host = \"localhost\"\n").unwrap();
    let result = get(&source, &test_meta("host")).unwrap();
    assert_eq!(result.0, ConfigValue::String("localhost".into()));
}

#[test]
fn test_file_source_toml_nested_key() {
    let source = load("/t/a.toml", "[redis]\nhost = \"127.0.0.1\"\nport = 6379\n").unwrap();
    let result = get(&source, &test_meta("redis.host")).unwrap();
    assert_eq!(result.0, ConfigValue::String("127.0.0.1".into()));
    assert_eq!(
        result.1,
        Source::File { path: "/t/a.toml".into(), key: "redis.host".into() }
    );

    let meta_port = FieldMeta {
        name: "port",
        config_key: "redis.port",
        env_key: "REDIS__PORT",
        generic_env_key: None,
        is_secret: false,
        expected_type: "u16",
        has_default: true,
        deserialize_fn: None,
    };
    let result_port = get(&source, &meta_port).unwrap();
    assert_eq!(result_port.0, ConfigValue::Integer(6379));
}

#[test]
fn test_file_source_toml_missing_key() {
    let source = load("/t/a.toml", "host = \"localhost\"\n").unwrap();
    assert!(get(&source, &test_meta("nonexistent")).is_none());
}

#[test]
fn test_file_source_invalid_toml() {
    let err = match load("/t/a.toml", "not valid toml [[[\n") {
        Ok(_) => panic!("expected an error"),
        Err(e) => e,
    };
    assert!(matches!(err, ConfigError::FileError { .. }));
}

#[test]
fn test_file_source_rank() {
    let source = load("/t/a.toml", "x = 1\n").unwrap();
    assert_eq!(source.rank(), 40);
}

#[test]
fn test_yaml_file_source_reads_key() {
    let source = load("/t/a.yaml", "host: localhost\n").unwrap();
    let result = get(&source, &test_meta("host")).unwrap();
    assert_eq!(result.0, ConfigValue::String("localhost".into()));
}

#[test]
fn test_yaml_file_source_nested_key() {
    let source = load("/t/a.yml", "redis:\n  host: '127.0.0.1'\n  port: 6379\n").unwrap();
    let result = get(&source, &test_meta("redis.host")).unwrap();
    assert_eq!(result.0, ConfigValue::String("127.0.0.1".into()));
}

#[test]
fn test_yaml_file_source_array() {
    let source = load("/t/a.yml", "hosts:\n  - a\n  - b\n").unwrap();
    let result = get(&source, &test_meta("hosts")).unwrap();
    assert_eq!(
        result.0,
        ConfigValue::Array(vec![
            ConfigValue::String("a".into()),
            ConfigValue::String("b".into())
        ])
    );
}

#[test]
fn test_yaml_file_source_anchor() {
    let source = load("/t/a.yml", "template: &T\n  host: a\nredis: *T\n").unwrap();
    let result = get(&source, &test_meta("redis.host")).unwrap();
    assert_eq!(result.0, ConfigValue::String("a".into()));
}

#[test]
fn test_yaml_file_source_missing_key() {
    let source = load("/t/a.yaml", "host: localhost\n").unwrap();
    assert!(get(&source, &test_meta("nonexistent")).is_none());
}

#[test]
fn test_yaml_file_source_invalid() {
    let err = match load("/t/a.yaml", "  bad:\nyaml: [[[\n") {
        Ok(_) => panic!("expected an error"),
        Err(e) => e,
    };
    assert!(matches!(err, ConfigError::FileError { .. }));
}

#[test]
fn test_json_file_source_reads_key() {
    let source = load("/t/a.json", "{\"host\": \"localhost\"}\n").unwrap();
    let result = get(&source, &test_meta("host")).unwrap();
    assert_eq!(result.0, ConfigValue::String("localhost".into()));
}

#[test]
fn test_json_file_source_nested_key() {
    let source =
        load("/t/a.json", "{\"redis\": {\"host\": \"127.0.0.1\", \"port\": 6379}}\n").unwrap();
    let result = get(&source, &test_meta("redis.host")).unwrap();
    assert_eq!(result.0, ConfigValue::String("127.0.0.1".into()));
    let mut m2 = test_meta("redis.port");
    m2.expected_type = "u16";
    let r2 = get(&source, &m2).unwrap();
    assert_eq!(r2.0, ConfigValue::Integer(6379));
}

#[test]
fn test_json_file_source_integer_preserved() {
    let source = load("/t/a.json", "{\"count\": 42}\n").unwrap();
    let mut meta = test_meta("count");
    meta.expected_type = "i64";
    let result = get(&source, &meta).unwrap();
    assert_eq!(result.0, ConfigValue::Integer(42));
}

#[test]
fn test_json_file_source_array() {
    let source = load("/t/a.json", "{\"hosts\": [\"a\", \"b\"]}\n").unwrap();
    let result = get(&source, &test_meta("hosts")).unwrap();
    assert_eq!(
        result.0,
        ConfigValue::Array(vec![
            ConfigValue::String("a".into()),
            ConfigValue::String("b".into())
        ])
    );
}

#[test]
fn test_json_file_source_invalid() {
    let err = match load("/t/a.json", "not valid json {{\n") {
        Ok(_) => panic!("expected an error"),
        Err(e) => e,
    };
    assert!(matches!(err, ConfigError::FileError { .. }));
}

#[test]
fn test_auto_detect_toml() {
    assert_eq!(FileSource::detect_format("/x/a.toml").unwrap(), FileFormat::Toml);
    assert_eq!(FileSource::detect_format("/x/A.TOML").unwrap(), FileFormat::Toml);
}

#[test]
fn test_auto_detect_yaml() {
    assert_eq!(FileSource::detect_format("/x/a.yaml").unwrap(), FileFormat::Yaml);
}

#[test]
fn test_auto_detect_yml() {
    assert_eq!(FileSource::detect_format("/x/a.yml").unwrap(), FileFormat::Yaml);
}

#[test]
fn test_auto_detect_json() {
    assert_eq!(FileSource::detect_format("/x/a.json").unwrap(), FileFormat::Json);
}

#[test]
fn test_auto_detect_unsupported() {
    let err = FileSource::detect_format("/tmp/file.xml").unwrap_err();
    assert!(err.to_string().contains("unsupported format"));
    assert_eq!(err.to_string(), "config file '/tmp/file.xml': unsupported format");
}

#[test]
fn test_auto_detect_no_extension() {
    let err = FileSource::detect_format("/tmp/tmpfile").unwrap_err();
    assert!(err.to_string().contains("unsupported format"));
    assert!(FileSource::detect_format("/tmp/.toml").is_err());
}

#[test]
fn file_source_group_strips_prefix_and_flat_fallback() {
    let doc = load("/t/c.toml", "host = \"flat\"\n[redis]\nport = 1\n").unwrap();
    let grouped = doc.with_group("REDIS");
    let (v, s) = get(&grouped, &test_meta("redis.host")).unwrap();
    assert_eq!(v, ConfigValue::String("flat".into()));
    assert_eq!(s, Source::File { path: "/t/c.toml".into(), key: "redis.host".into() });

    let plain = load("/t/c.toml", "host = \"flat\"\n").unwrap();
    let (v, s) = get(&plain, &test_meta("redis.host")).unwrap();
    assert_eq!(v, ConfigValue::String("flat".into()));
    assert_eq!(s, Source::File { path: "/t/c.toml".into(), key: "host".into() });
}

fn py_meta(name: &'static str) -> FieldMeta {
    FieldMeta {
        name,
        config_key: "doesn'tmatter",
        env_key: "DOESNT_MATTER",
        generic_env_key: None,
        is_secret: false,
        expected_type: "String",
        has_default: true,
        deserialize_fn: None,
    }
}

fn pyproject(text: &str, prefix: &str, group: &str) -> PyprojectTomlSource {
    PyprojectTomlSource::from_text("/p/pyproject.toml", Some(text), prefix, group).unwrap()
}

#[test]
fn test_pyproject_reads_tool_section() {
    let source = pyproject(
        "[tool.rustvello.redis]\nhost = \"from-pyproject\"\nport = 6380\n",
        "RUSTVELLO",
        "redis",
    );
    let result = source.get(&py_meta("host"), &Environment::new()).unwrap().unwrap();
    assert_eq!(result.0, ConfigValue::String("from-pyproject".into()));
    assert!(
        matches!(result.1, Source::File { ref key, .. } if key == "tool.rustvello.redis.host")
    );
    let mut p_meta = py_meta("port");
    p_meta.expected_type = "u16";
    let r2 = source.get(&p_meta, &Environment::new()).unwrap().unwrap();
    assert_eq!(r2.0, ConfigValue::Integer(6380));
}

#[test]
fn test_pyproject_missing_file() {
    let source =
        PyprojectTomlSource::from_document("/nonexistent/pyproject.toml", None, "rustvello", "redis");
    assert!(source.get(&py_meta("host"), &Environment::new()).unwrap().is_none());
}

#[test]
fn test_pyproject_no_tool_section() {
    let source = pyproject("[some.other.section]\nhost = \"xyz\"\n", "rustvello", "redis");
    assert!(source.get(&py_meta("host"), &Environment::new()).unwrap().is_none());
}

#[test]
fn test_pyproject_no_group_section() {
    let source = pyproject("[tool.rustvello]\nother = 1\n", "rustvello", "redis");
    assert!(source.get(&py_meta("host"), &Environment::new()).unwrap().is_none());
}

#[test]
fn test_pyproject_rank() {
    let source = pyproject("", "rustvello", "redis");
    assert_eq!(source.rank(), 50);
    assert_eq!(source.with_rank(55).rank(), 55);
}

#[test]
fn test_json_file_source_float() {
    let source = load("/t/a.json", "{\"val\": 3.14}\n").unwrap();
    let mut meta = test_meta("val");
    meta.expected_type = "f64";
    let result = get(&source, &meta).unwrap();
    assert_eq!(result.0, ConfigValue::Float(3.14f64.to_string()));
}

#[test]
fn test_config_value_from_toml() {
    let cv = parse_document_text(FileFormat::Toml, "v = 42").unwrap();
    assert_eq!(cv, ConfigValue::Table(vec![("v".into(), ConfigValue::Integer(42))]));

    let cv = parse_document_text(FileFormat::Toml, "v = \"hello\"").unwrap();
    assert_eq!(cv, ConfigValue::Table(vec![("v".into(), ConfigValue::String("hello".into()))]));

    let cv = parse_document_text(FileFormat::Toml, "v = true").unwrap();
    assert_eq!(cv, ConfigValue::Table(vec![("v".into(), ConfigValue::Bool(true))]));
}

#[test]
fn test_pyproject_malformed() {
    let result = PyprojectTomlSource::from_text("/p/pyproject.toml", Some("invalid [[[\n"), "rustvello", "redis");
    assert!(result.is_err());
    assert!(matches!(result.unwrap_err(), ConfigError::FileError { .. }));
}

#[test]
fn pyproject_without_file_has_no_values() {
    let source = PyprojectTomlSource::from_text("/p/pyproject.toml", None, "Rustvello", "Redis").unwrap();
    assert!(source.get(&py_meta("host"), &Environment::new()).unwrap().is_none());
}

#[test]
fn documents_read_nodes_by_the_library_rules() {
    let doc = parse_document_text(FileFormat::Yaml, "a: ~\nb: 1.5\n7: x\n? [1]\n: y\nc: !tag 3\n").unwrap();
    assert_eq!(
        doc,
        ConfigValue::Table(vec![
            ("a".into(), ConfigValue::String(String::new())),
            ("b".into(), ConfigValue::Float("1.5".into())),
            ("7".into(), ConfigValue::String("x".into())),
            ("c".into(), ConfigValue::Integer(3)),
        ])
    );
    let doc = parse_document_text(FileFormat::Json, "{\"n\": null, \"big\": 18446744073709551615}").unwrap();
    assert_eq!(
        doc,
        ConfigValue::Table(vec![
            ("big".into(), ConfigValue::Float((18446744073709551615u64 as f64).to_string())),
            ("n".into(), ConfigValue::String(String::new())),
        ])
    );
    let doc = parse_document_text(FileFormat::Toml, "d = 1979-05-27T07:32:00Z\nf = 2.0").unwrap();
    assert_eq!(
        doc,
        ConfigValue::Table(vec![
            ("d".into(), ConfigValue::String("1979-05-27T07:32:00Z".into())),
            ("f".into(), ConfigValue::Float("2".into())),
        ])
    );
    let err = parse_document_text(FileFormat::Json, "{").unwrap_err();
    assert!(!err.is_empty());
}

#[test]
fn from_text_reports_parse_errors_with_the_path() {
    let err = FileSource::from_text("/t/bad.toml", "x = [").unwrap_err();
    match err {
        ConfigError::FileError { path, cause } => {
            assert_eq!(path, "/t/bad.toml");
            assert_eq!(cause, "x = [".parse::<toml::Value>().unwrap_err().to_string());
        }
        other => panic!("unexpected {other:?}"),
    }
    let err = FileSource::from_text("/t/a.ini", "x = 1").unwrap_err();
    assert!(matches!(
        err,
        ConfigError::FileError { ref path, ref cause } if path == "/t/a.ini" && cause == "unsupported format"
    ));
}

#[test]
fn python_document_section_reads_text() {
    let sec = document_section("/x/pyproject.toml", Some("app"), "[tool.app]\nk = 1\n").unwrap();
    assert_eq!(sec, Some(ConfigValue::Table(vec![("k".into(), ConfigValue::Integer(1))])));
    assert_eq!(document_section("/x/c.json", None, "[1]").unwrap(), None);
    assert_eq!(
        document_section("/x/c.ini", None, "").unwrap_err(),
        "Unsupported file extension in /x/c.ini"
    );
    let err = document_section("/x/c.yaml", None, "a: [").unwrap_err();
    assert!(err.starts_with("Invalid YAML file /x/c.yaml: "), "{err}");
}
