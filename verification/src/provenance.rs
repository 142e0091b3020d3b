//! Where a value came from: the `Source` of each resolved field, the
//! per-field provenance record, and the ordered map that holds one record
//! per field.
use vstd::prelude::*;
use indexmap::IndexMap;
use crate::text::owned;

verus! {

/// Where a config value came from.
#[derive(Debug, Clone, PartialEq, Eq, Hash)]
#[non_exhaustive]
pub enum Source {
    /// Hardcoded default, declared in the field definition.
    Default,
    /// Loaded from a TOML, YAML, or JSON file.
    File { path: String, key: String },
    /// Loaded from an environment variable.
    EnvVar { name: String },
    /// Set explicitly in code.
    Programmatic { location: Option<String> },
    /// Injected through an in-memory map.
    Mapping { label: String },
}

/// The mathematical content of a `Source`.
pub enum SourceView {
    Default,
    File { path: Seq<char>, key: Seq<char> },
    EnvVar { name: Seq<char> },
    Programmatic { location: Option<Seq<char>> },
    Mapping { label: Seq<char> },
}

impl View for Source {
    type V = SourceView;

    open spec fn view(&self) -> SourceView {
        match self {
            Source::Default => SourceView::Default,
            Source::File { path, key } => SourceView::File { path: path@, key: key@ },
            Source::EnvVar { name } => SourceView::EnvVar { name: name@ },
            Source::Programmatic { location } => SourceView::Programmatic {
                location: match location {
                    Some(l) => Some(l@),
                    None => None,
                },
            },
            Source::Mapping { label } => SourceView::Mapping { label: label@ },
        }
    }
}

/// The human-readable rendering of a source.
pub open spec fn source_text(s: SourceView) -> Seq<char> {
    match s {
        SourceView::Default => "default"@,
        SourceView::File { path, key } => "file '"@ + path + "' key '"@ + key + "'"@,
        SourceView::EnvVar { name } => "env var '"@ + name + "'"@,
        SourceView::Programmatic { location } => match location {
            Some(loc) => "code ("@ + loc + ")"@,
            None => "code"@,
        },
        SourceView::Mapping { label } => "map '"@ + label + "'"@,
    }
}

/// The views of a sequence of sources.
pub open spec fn sources_view(s: Seq<Source>) -> Seq<SourceView> {
    s.map_values(|x: Source| x@)
}

impl Source {
    /// A copy of this source.
    pub fn duplicate(&self) -> (r: Source)
        ensures
            r@ == self@,
    {
        match self {
            Source::Default => Source::Default,
            Source::File { path, key } => Source::File { path: path.clone(), key: key.clone() },
            Source::EnvVar { name } => Source::EnvVar { name: name.clone() },
            Source::Programmatic { location } => Source::Programmatic {
                location: match location {
                    Some(l) => Some(l.clone()),
                    None => None,
                },
            },
            Source::Mapping { label } => Source::Mapping { label: label.clone() },
        }
    }

    /// The human-readable rendering, e.g. `env var 'MY_VAR'`.
    pub fn to_string(&self) -> (r: String)
        ensures
            r@ == source_text(self@),
    {
        match self {
            Source::Default => owned("default"),
            Source::File { path, key } => {
                let mut r = owned("file '");
                r.append(path.as_str());
                r.append("' key '");
                r.append(key.as_str());
                r.append("'");
                r
            },
            Source::EnvVar { name } => {
                let mut r = owned("env var '");
                r.append(name.as_str());
                r.append("'");
                r
            },
            Source::Programmatic { location } => match location {
                Some(loc) => {
                    let mut r = owned("code (");
                    r.append(loc.as_str());
                    r.append(")");
                    r
                },
                None => owned("code"),
            },
            Source::Mapping { label } => {
                let mut r = owned("map '");
                r.append(label.as_str());
                r.append("'");
                r
            },
        }
    }
}

/// The resolved value for one field, bundled with its provenance.
#[derive(Debug, Clone)]
pub struct FieldProvenance {
    pub field_name: String,
    pub source: Source,
    pub is_secret: bool,
    /// Rendering of the value; `None` when the field is secret.
    pub display_value: Option<String>,
    /// Sources that also had a value but lost to the winner, in priority order.
    pub rejected_sources: Vec<Source>,
}

/// The mathematical content of a `FieldProvenance`.
pub struct ProvenanceView {
    pub field_name: Seq<char>,
    pub source: SourceView,
    pub is_secret: bool,
    pub display_value: Option<Seq<char>>,
    pub rejected_sources: Seq<SourceView>,
}

impl View for FieldProvenance {
    type V = ProvenanceView;

    open spec fn view(&self) -> ProvenanceView {
        ProvenanceView {
            field_name: self.field_name@,
            source: self.source@,
            is_secret: self.is_secret,
            display_value: match self.display_value {
                Some(d) => Some(d@),
                None => None,
            },
            rejected_sources: sources_view(self.rejected_sources@),
        }
    }
}

/// The value a record shows: `<secret>` for a secret field, else its
/// rendering, or `<none>` when it has none.
pub open spec fn shown_value(p: ProvenanceView) -> Seq<char> {
    if p.is_secret {
        "<secret>"@
    } else {
        match p.display_value {
            Some(d) => d,
            None => "<none>"@,
        }
    }
}

/// The rendering of a provenance record:
/// `{field} = {value} [from: {source}]`, with the value as `shown_value`
/// gives it.
pub open spec fn provenance_text(p: ProvenanceView) -> Seq<char> {
    p.field_name + " = "@ + shown_value(p) + " [from: "@ + source_text(p.source) + "]"@
}

/// A copy of a sequence of sources.
pub fn duplicate_sources(s: &Vec<Source>) -> (r: Vec<Source>)
    ensures
        sources_view(r@) == sources_view(s@),
{
    let mut r: Vec<Source> = Vec::new();
    let mut i: usize = 0;
    while i < s.len()
        invariant
            i <= s@.len(),
            r@.len() == i,
            forall|j: int| 0 <= j < i ==> #[trigger] r@[j]@ == s@[j]@,
        decreases s@.len() - i,
    {
        r.push(s[i].duplicate());
        i = i + 1;
    }
    assert(sources_view(r@) =~= sources_view(s@));
    r
}

impl FieldProvenance {
    /// A copy of this record.
    pub fn duplicate(&self) -> (r: FieldProvenance)
        ensures
            r@ == self@,
    {
        FieldProvenance {
            field_name: self.field_name.clone(),
            source: self.source.duplicate(),
            is_secret: self.is_secret,
            display_value: match &self.display_value {
                Some(d) => Some(d.clone()),
                None => None,
            },
            rejected_sources: duplicate_sources(&self.rejected_sources),
        }
    }

    /// The value this record shows in reports and logs (see `shown_value`).
    pub fn shown_value(&self) -> (r: String)
        ensures
            r@ == shown_value(self@),
    {
        if self.is_secret {
            owned("<secret>")
        } else {
            match &self.display_value {
                Some(d) => d.clone(),
                None => owned("<none>"),
            }
        }
    }

    /// The rendering, e.g. `host = localhost [from: default]`.
    pub fn to_string(&self) -> (r: String)
        ensures
            r@ == provenance_text(self@),
    {
        let mut r = self.field_name.clone();
        r.append(" = ");
        if self.is_secret {
            r.append("<secret>");
        } else {
            match &self.display_value {
                Some(d) => r.append(d.as_str()),
                None => r.append("<none>"),
            }
        }
        r.append(" [from: ");
        let s = self.source.to_string();
        r.append(s.as_str());
        r.append("]");
        r
    }
}

#[verifier::external_type_specification]
#[verifier::external_body]
#[verifier::reject_recursive_types(K)]
#[verifier::reject_recursive_types(V)]
#[verifier::reject_recursive_types(S)]
pub struct ExIndexMap<K, V, S>(IndexMap<K, V, S>);

/// The complete provenance map for one config struct instance, in field
/// declaration order.
pub type ProvenanceMap = IndexMap<String, FieldProvenance>;

/// The entries of a provenance map, in order: each key with its record.
pub uninterp spec fn provenance_entries(m: IndexMap<String, FieldProvenance>) -> Seq<
    (Seq<char>, ProvenanceView),
>;

/// The first position in `e` whose key is `k`, if any.
pub open spec fn key_position(e: Seq<(Seq<char>, ProvenanceView)>, k: Seq<char>) -> Option<int>
    decreases e.len(),
{
    if e.len() == 0 {
        None
    } else {
        match key_position(e.drop_last(), k) {
            Some(i) => Some(i),
            None => if e.last().0 == k {
                Some((e.len() - 1) as int)
            } else {
                None
            },
        }
    }
}

/// What `IndexMap::insert` does to the entries: an existing key keeps its
/// place and takes the new value; a new key goes last.
pub open spec fn entries_insert(
    e: Seq<(Seq<char>, ProvenanceView)>,
    k: Seq<char>,
    v: ProvenanceView,
) -> Seq<(Seq<char>, ProvenanceView)> {
    match key_position(e, k) {
        Some(i) => e.update(i, (k, v)),
        None => e.push((k, v)),
    }
}

/// `IndexMap::new`: a map with no entries.
#[verifier::external_body]
pub fn provenance_map_new() -> (m: ProvenanceMap)
    ensures
        provenance_entries(m) == Seq::<(Seq<char>, ProvenanceView)>::empty(),
{
    IndexMap::new()
}

/// `IndexMap::insert`: replaces the value of an existing key in place, or
/// appends a new entry.
#[verifier::external_body]
pub fn provenance_map_insert(m: &mut ProvenanceMap, k: String, v: FieldProvenance)
    ensures
        provenance_entries(*final(m)) == entries_insert(provenance_entries(*old(m)), k@, v@),
{
    m.insert(k, v);
}

/// `IndexMap::len`: the number of entries.
#[verifier::external_body]
pub fn provenance_map_len(m: &ProvenanceMap) -> (n: usize)
    ensures
        n == provenance_entries(*m).len(),
{
    m.len()
}

/// `IndexMap::get_index`: the entry at position `i`.
#[verifier::external_body]
pub fn provenance_map_get_index(m: &ProvenanceMap, i: usize) -> (r: Option<(&String, &FieldProvenance)>)
    ensures
        r is Some <==> i < provenance_entries(*m).len(),
        r matches Some((k, v)) ==> k@ == provenance_entries(*m)[i as int].0 && v@
            == provenance_entries(*m)[i as int].1,
{
    m.get_index(i)
}

} // verus!
