//! Config documents: the trees that the TOML, YAML and JSON parsers hand
//! over, and how they become `ConfigValue`s.
use vstd::prelude::*;
use crate::source::file::FileFormat;
use crate::text::{i64_text, int_text};
use crate::value::{entries_insert, entries_model, models_of, table_insert, ConfigValue, ValueView};
use serde_json::Value as JsonValue;
use serde_yaml::Value as YamlValue;
use toml::Value as TomlValue;

verus! {

/// A node of a parsed document, as the parser gives it, before the
/// library's rules turn it into a `ConfigValue`.
///
/// `Float` and `Datetime` hold the `Display` renderings of the parser's
/// values; `Number` holds a YAML or JSON number as its `i64` value (if it
/// has one), its `f64` rendering (if it has one) and its own rendering.
/// `Table` is a map with string keys (TOML, JSON); `Mapping` a YAML mapping,
/// whose keys are nodes; `Tagged` a YAML node with a tag.
#[derive(Debug)]
pub enum RawValue {
    Null,
    Bool(bool),
    Int(i64),
    Float(String),
    Datetime(String),
    Number(Option<i64>, Option<String>, String),
    Text(String),
    List(Vec<RawValue>),
    Table(Vec<(String, RawValue)>),
    Mapping(Vec<(RawValue, RawValue)>),
    Tagged(Box<RawValue>),
}

/// The mathematical content of a `RawValue`.
pub enum RawView {
    Null,
    Bool(bool),
    Int(int),
    Float(Seq<char>),
    Datetime(Seq<char>),
    Number(Option<int>, Option<Seq<char>>, Seq<char>),
    Text(Seq<char>),
    List(Seq<RawView>),
    Table(Seq<(Seq<char>, RawView)>),
    Mapping(Seq<(RawView, RawView)>),
    Tagged(Box<RawView>),
}

/// The views of a sequence of nodes.
pub open spec fn raw_models(s: Seq<RawValue>) -> Seq<RawView>
    decreases s,
{
    if s.len() == 0 {
        Seq::empty()
    } else {
        raw_models(s.drop_last()).push(s.last().model())
    }
}

/// The views of string-keyed entries.
pub open spec fn raw_entry_models(s: Seq<(String, RawValue)>) -> Seq<(Seq<char>, RawView)>
    decreases s,
{
    if s.len() == 0 {
        Seq::empty()
    } else {
        raw_entry_models(s.drop_last()).push((s.last().0@, s.last().1.model()))
    }
}

/// The views of node-keyed entries.
pub open spec fn raw_pair_models(s: Seq<(RawValue, RawValue)>) -> Seq<(RawView, RawView)>
    decreases s,
{
    if s.len() == 0 {
        Seq::empty()
    } else {
        raw_pair_models(s.drop_last()).push((s.last().0.model(), s.last().1.model()))
    }
}

impl RawValue {
    /// The mathematical content of this node.
    pub open spec fn model(self) -> RawView
        decreases self,
    {
        match self {
            RawValue::Null => RawView::Null,
            RawValue::Bool(b) => RawView::Bool(b),
            RawValue::Int(i) => RawView::Int(i as int),
            RawValue::Float(t) => RawView::Float(t@),
            RawValue::Datetime(t) => RawView::Datetime(t@),
            RawValue::Number(i, f, t) => RawView::Number(
                match i {
                    Some(i) => Some(i as int),
                    None => None,
                },
                match f {
                    Some(f) => Some(f@),
                    None => None,
                },
                t@,
            ),
            RawValue::Text(s) => RawView::Text(s@),
            RawValue::List(items) => RawView::List(raw_models(items@)),
            RawValue::Table(e) => RawView::Table(raw_entry_models(e@)),
            RawValue::Mapping(e) => RawView::Mapping(raw_pair_models(e@)),
            RawValue::Tagged(b) => RawView::Tagged(Box::new((*b).model())),
        }
    }
}

/// The text a YAML mapping key gives a table key: a string as it is, an
/// integer that fits `i64` in decimal, looking through tags; other keys
/// give none and their entries are dropped.
pub open spec fn key_text(k: RawView) -> Option<Seq<char>>
    decreases k,
{
    match k {
        RawView::Text(s) => Some(s),
        RawView::Number(Some(i), _, _) => Some(int_text(i)),
        RawView::Tagged(b) => key_text(*b),
        _ => None,
    }
}

/// The config value of a document node: null is the empty string; a
/// datetime is its text; a YAML or JSON number is an `Integer` when it fits
/// `i64`, else a `Float` when it has an `f64` rendering, else its text; a
/// mapping keeps the entries whose key has a text, a later entry replacing
/// an earlier one with the same key; a tag is dropped.
pub open spec fn raw_value(r: RawView) -> ValueView
    decreases r,
{
    match r {
        RawView::Null => ValueView::Str(Seq::empty()),
        RawView::Bool(b) => ValueView::Bool(b),
        RawView::Int(i) => ValueView::Int(i),
        RawView::Float(t) => ValueView::Float(t),
        RawView::Datetime(t) => ValueView::Str(t),
        RawView::Number(i, f, t) => match i {
            Some(i) => ValueView::Int(i),
            None => match f {
                Some(f) => ValueView::Float(f),
                None => ValueView::Str(t),
            },
        },
        RawView::Text(s) => ValueView::Str(s),
        RawView::List(items) => ValueView::Array(raw_values(items)),
        RawView::Table(e) => ValueView::Table(raw_entries(e)),
        RawView::Mapping(e) => ValueView::Table(raw_mapping(e)),
        RawView::Tagged(b) => raw_value(*b),
    }
}

/// The config values of a sequence of nodes.
pub open spec fn raw_values(s: Seq<RawView>) -> Seq<ValueView>
    decreases s,
{
    if s.len() == 0 {
        Seq::empty()
    } else {
        raw_values(s.drop_last()).push(raw_value(s.last()))
    }
}

/// The config entries of string-keyed entries, in order.
pub open spec fn raw_entries(s: Seq<(Seq<char>, RawView)>) -> Seq<(Seq<char>, ValueView)>
    decreases s,
{
    if s.len() == 0 {
        Seq::empty()
    } else {
        raw_entries(s.drop_last()).push((s.last().0, raw_value(s.last().1)))
    }
}

/// The config entries of a YAML mapping, inserted in order.
pub open spec fn raw_mapping(s: Seq<(RawView, RawView)>) -> Seq<(Seq<char>, ValueView)>
    decreases s,
{
    if s.len() == 0 {
        Seq::empty()
    } else {
        match key_text(s.last().0) {
            Some(k) => entries_insert(raw_mapping(s.drop_last()), k, raw_value(s.last().1)),
            None => raw_mapping(s.drop_last()),
        }
    }
}

fn key_text_of(k: &RawValue) -> (r: Option<String>)
    ensures
        match r {
            Some(t) => key_text(k.model()) == Some(t@),
            None => key_text(k.model()) is None,
        },
    decreases k,
{
    match k {
        RawValue::Text(s) => Some(s.clone()),
        RawValue::Number(Some(i), _, _) => Some(i64_text(*i)),
        RawValue::Tagged(b) => key_text_of(b),
        _ => None,
    }
}

/// The config value of a document node (see `raw_value`).
pub fn to_config_value(r: &RawValue) -> (v: ConfigValue)
    ensures
        v.model() == raw_value(r.model()),
    decreases r,
{
    match r {
        RawValue::Null => ConfigValue::String(String::new()),
        RawValue::Bool(b) => ConfigValue::Bool(*b),
        RawValue::Int(i) => ConfigValue::Integer(*i),
        RawValue::Float(t) => ConfigValue::Float(t.clone()),
        RawValue::Datetime(t) => ConfigValue::String(t.clone()),
        RawValue::Number(i, f, t) => match i {
            Some(i) => ConfigValue::Integer(*i),
            None => match f {
                Some(f) => ConfigValue::Float(f.clone()),
                None => ConfigValue::String(t.clone()),
            },
        },
        RawValue::Text(s) => ConfigValue::String(s.clone()),
        RawValue::List(items) => {
            let mut out: Vec<ConfigValue> = Vec::new();
            let mut i: usize = 0;
            while i < items.len()
                invariant
                    *r == RawValue::List(*items),
                    i <= items@.len(),
                    models_of(out@) == raw_values(raw_models(items@.subrange(0, i as int))),
                decreases items@.len() - i,
            {
                proof {
                    assert(decreases_to!(*r => r->List_0));
                    assert(decreases_to!(*r => items@[i as int]));
                }
                let x = to_config_value(&items[i]);
                let ghost prev = out@;
                out.push(x);
                proof {
                    let t = items@.subrange(0, i + 1);
                    assert(out@.drop_last() =~= prev);
                    assert(t.drop_last() =~= items@.subrange(0, i as int));
                    let rm = raw_models(t);
                    assert(rm.drop_last() =~= raw_models(items@.subrange(0, i as int)));
                    assert(rm.last() == items@[i as int].model());
                }
                i = i + 1;
            }
            assert(items@.subrange(0, items@.len() as int) =~= items@);
            ConfigValue::Array(out)
        },
        RawValue::Table(e) => {
            let mut out: Vec<(String, ConfigValue)> = Vec::new();
            let mut i: usize = 0;
            while i < e.len()
                invariant
                    *r == RawValue::Table(*e),
                    i <= e@.len(),
                    entries_model(out@) == raw_entries(raw_entry_models(e@.subrange(0, i as int))),
                decreases e@.len() - i,
            {
                proof {
                    assert(decreases_to!(*r => r->Table_0));
                    assert(decreases_to!(*r => e@[i as int].1));
                }
                let k = e[i].0.clone();
                let v = to_config_value(&e[i].1);
                let ghost prev = out@;
                out.push((k, v));
                proof {
                    let t = e@.subrange(0, i + 1);
                    assert(out@.drop_last() =~= prev);
                    assert(t.drop_last() =~= e@.subrange(0, i as int));
                    let rm = raw_entry_models(t);
                    assert(rm.drop_last() =~= raw_entry_models(e@.subrange(0, i as int)));
                    assert(rm.last() == (e@[i as int].0@, e@[i as int].1.model()));
                }
                i = i + 1;
            }
            assert(e@.subrange(0, e@.len() as int) =~= e@);
            ConfigValue::Table(out)
        },
        RawValue::Mapping(e) => {
            let mut out: Vec<(String, ConfigValue)> = Vec::new();
            let mut i: usize = 0;
            while i < e.len()
                invariant
                    *r == RawValue::Mapping(*e),
                    i <= e@.len(),
                    entries_model(out@) == raw_mapping(raw_pair_models(e@.subrange(0, i as int))),
                decreases e@.len() - i,
            {
                proof {
                    assert(decreases_to!(*r => r->Mapping_0));
                    assert(decreases_to!(*r => e@[i as int].0));
                    assert(decreases_to!(*r => e@[i as int].1));
                    let t = e@.subrange(0, i + 1);
                    assert(t.drop_last() =~= e@.subrange(0, i as int));
                    let rm = raw_pair_models(t);
                    assert(rm.drop_last() =~= raw_pair_models(e@.subrange(0, i as int)));
                    assert(rm.last() == (e@[i as int].0.model(), e@[i as int].1.model()));
                }
                match key_text_of(&e[i].0) {
                    Some(k) => {
                        let v = to_config_value(&e[i].1);
                        table_insert(&mut out, k, v);
                    },
                    None => {},
                }
                i = i + 1;
            }
            assert(e@.subrange(0, e@.len() as int) =~= e@);
            ConfigValue::Table(out)
        },
        RawValue::Tagged(b) => to_config_value(b),
    }
}

/// `toml::Value`, a node of a parsed TOML document.
#[verifier::external_type_specification]
#[verifier::external_body]
pub struct ExTomlValue(toml::Value);

/// `serde_yaml::Value`, a node of a parsed YAML document.
#[verifier::external_type_specification]
#[verifier::external_body]
pub struct ExYamlValue(serde_yaml::Value);

/// `serde_json::Value`, a node of a parsed JSON document.
#[verifier::external_type_specification]
#[verifier::external_body]
pub struct ExJsonValue(serde_json::Value);

/// What the `toml` crate reads `content` as: the document's tree, or the
/// rendered message of its parse error.
pub uninterp spec fn toml_document(content: Seq<char>) -> Result<RawView, Seq<char>>;

/// What `serde_yaml` reads `content` as: the document's tree, or the
/// rendered message of its parse error.
pub uninterp spec fn yaml_document(content: Seq<char>) -> Result<RawView, Seq<char>>;

/// What `serde_json` reads `content` as: the document's tree, or the
/// rendered message of its parse error.
pub uninterp spec fn json_document(content: Seq<char>) -> Result<RawView, Seq<char>>;

/// A `toml::Value` as a `RawValue`, variant for variant; a float and a
/// datetime become their `Display` renderings. Called by `parse_toml` only.
#[verifier::external_body]
fn toml_raw(v: TomlValue) -> RawValue {
    match v {
        TomlValue::String(s) => RawValue::Text(s),
        TomlValue::Integer(i) => RawValue::Int(i),
        TomlValue::Float(f) => RawValue::Float(f.to_string()),
        TomlValue::Boolean(b) => RawValue::Bool(b),
        TomlValue::Datetime(d) => RawValue::Datetime(d.to_string()),
        TomlValue::Array(a) => RawValue::List(a.into_iter().map(toml_raw).collect()),
        TomlValue::Table(t) => RawValue::Table(t.into_iter().map(|(k, v)| (k, toml_raw(v))).collect()),
    }
}

/// A `serde_yaml::Value` as a `RawValue`, variant for variant; a number
/// becomes its `as_i64`, its `as_f64` rendered, and its own rendering.
/// Called by `parse_yaml` only.
#[verifier::external_body]
fn yaml_raw(v: YamlValue) -> RawValue {
    match v {
        YamlValue::Null => RawValue::Null,
        YamlValue::Bool(b) => RawValue::Bool(b),
        YamlValue::Number(n) => RawValue::Number(n.as_i64(), n.as_f64().map(|f| f.to_string()), n.to_string()),
        YamlValue::String(s) => RawValue::Text(s),
        YamlValue::Sequence(a) => RawValue::List(a.into_iter().map(yaml_raw).collect()),
        YamlValue::Mapping(m) => RawValue::Mapping(m.into_iter().map(|(k, v)| (yaml_raw(k), yaml_raw(v))).collect()),
        YamlValue::Tagged(t) => RawValue::Tagged(Box::new(yaml_raw(t.value))),
    }
}

/// A `serde_json::Value` as a `RawValue`, variant for variant; a number
/// becomes its `as_i64`, its `as_f64` rendered, and its own rendering.
/// Called by `parse_json` only.
#[verifier::external_body]
fn json_raw(v: JsonValue) -> RawValue {
    match v {
        JsonValue::Null => RawValue::Null,
        JsonValue::Bool(b) => RawValue::Bool(b),
        JsonValue::Number(n) => RawValue::Number(n.as_i64(), n.as_f64().map(|f| f.to_string()), n.to_string()),
        JsonValue::String(s) => RawValue::Text(s),
        JsonValue::Array(a) => RawValue::List(a.into_iter().map(json_raw).collect()),
        JsonValue::Object(m) => RawValue::Table(m.into_iter().map(|(k, v)| (k, json_raw(v))).collect()),
    }
}

/// `content.parse::<toml::Value>()`: the document as a tree, or the
/// rendering of the `toml::de::Error`. The contract names both by
/// `toml_document`, a function of the text; the TOML grammar is the
/// crate's and is not restated.
#[verifier::external_body]
fn parse_toml(content: &str) -> (r: Result<RawValue, String>)
    ensures
        match r {
            Ok(v) => toml_document(content@) == Ok::<RawView, Seq<char>>(v.model()),
            Err(m) => toml_document(content@) == Err::<RawView, Seq<char>>(m@),
        },
{
    match content.parse::<TomlValue>() {
        Ok(v) => Ok(toml_raw(v)),
        Err(e) => Err(e.to_string()),
    }
}

/// `serde_yaml::from_str::<serde_yaml::Value>`: the document as a tree, or
/// the rendering of the `serde_yaml::Error`. The contract names both by
/// `yaml_document`, a function of the text; the YAML grammar is the
/// crate's and is not restated.
#[verifier::external_body]
fn parse_yaml(content: &str) -> (r: Result<RawValue, String>)
    ensures
        match r {
            Ok(v) => yaml_document(content@) == Ok::<RawView, Seq<char>>(v.model()),
            Err(m) => yaml_document(content@) == Err::<RawView, Seq<char>>(m@),
        },
{
    match serde_yaml::from_str::<YamlValue>(content) {
        Ok(v) => Ok(yaml_raw(v)),
        Err(e) => Err(e.to_string()),
    }
}

/// `serde_json::from_str::<serde_json::Value>`: the document as a tree, or
/// the rendering of the `serde_json::Error`. The contract names both by
/// `json_document`, a function of the text; the JSON grammar is the
/// crate's and is not restated.
#[verifier::external_body]
fn parse_json(content: &str) -> (r: Result<RawValue, String>)
    ensures
        match r {
            Ok(v) => json_document(content@) == Ok::<RawView, Seq<char>>(v.model()),
            Err(m) => json_document(content@) == Err::<RawView, Seq<char>>(m@),
        },
{
    match serde_json::from_str::<JsonValue>(content) {
        Ok(v) => Ok(json_raw(v)),
        Err(e) => Err(e.to_string()),
    }
}

/// What the parser of `format` reads `content` as.
pub open spec fn format_document(format: FileFormat, content: Seq<char>) -> Result<RawView, Seq<char>> {
    match format {
        FileFormat::Toml => toml_document(content),
        FileFormat::Yaml => yaml_document(content),
        FileFormat::Json => json_document(content),
    }
}

/// The config value of a document of `format`, or the parser's message.
pub open spec fn document_value(format: FileFormat, content: Seq<char>) -> Result<ValueView, Seq<char>> {
    match format_document(format, content) {
        Ok(r) => Ok(raw_value(r)),
        Err(m) => Err(m),
    }
}

/// Parses the text of a config document in `format` into a `ConfigValue`
/// (see `raw_value` for how each node is read), or gives the parser's
/// message.
pub fn parse_document_text(format: FileFormat, content: &str) -> (r: Result<ConfigValue, String>)
    ensures
        match r {
            Ok(v) => document_value(format, content@) == Ok::<ValueView, Seq<char>>(v.model()),
            Err(m) => document_value(format, content@) == Err::<ValueView, Seq<char>>(m@),
        },
{
    let parsed = match format {
        FileFormat::Toml => parse_toml(content),
        FileFormat::Yaml => parse_yaml(content),
        FileFormat::Json => parse_json(content),
    };
    match parsed {
        Ok(raw) => Ok(to_config_value(&raw)),
        Err(m) => Err(m),
    }
}

} // verus!
