//! The decisions behind the Python bindings: which section of a loaded
//! file is returned, and which source gives a single field its value.
use vstd::prelude::*;
use crate::source::env::{env_read, EnvRead, Environment};
use crate::source::file::{format_for_path, file_format, FileFormat};
use crate::text::{chars_of, lower_text, owned, str_eq, to_lowercase};
use crate::document::{document_value, parse_document_text};
use crate::value::{entry_lookup, table_get, ConfigValue, ValueView};

verus! {

/// Whether `p` occurs in `s`.
pub open spec fn contains_text(s: Seq<char>, p: Seq<char>) -> bool {
    exists|i: int| 0 <= i <= s.len() - p.len() && #[trigger] s.subrange(i, i + p.len()) == p
}

fn text_contains(s: &Vec<char>, p: &Vec<char>) -> (r: bool)
    ensures
        r == contains_text(s@, p@),
{
    let sl = s.len();
    if p.len() > sl {
        return false;
    }
    if p.len() == 0 {
        assert(s@.subrange(0, 0 + p@.len() as int) =~= p@);
        return true;
    }
    let last = sl - p.len();
    let mut i: usize = 0;
    while i <= last
        invariant
            sl == s@.len(),
            last == s@.len() - p@.len(),
            0 < p@.len() <= s@.len(),
            i <= last + 1,
            forall|j: int| 0 <= j < i ==> #[trigger] s@.subrange(j, j + p@.len()) != p@,
        decreases last + 1 - i,
    {
        let mut k: usize = 0;
        let mut same = true;
        while k < p.len()
            invariant
                sl == s@.len(),
                i <= last,
                last == s@.len() - p@.len(),
                k <= p@.len(),
                same == forall|q: int| 0 <= q < k ==> s@[i + q] == p@[q],
            decreases p@.len() - k,
        {
            if s[i + k] != p[k] {
                same = false;
            }
            k = k + 1;
        }
        if same {
            assert(s@.subrange(i as int, i + p@.len()) =~= p@);
            return true;
        }
        proof {
            let q = choose|q: int| 0 <= q < p@.len() && s@[i + q] != p@[q];
            assert(s@.subrange(i as int, i + p@.len())[q] != p@[q]);
        }
        i = i + 1;
    }
    false
}

/// The message the Python loader raises for a file it cannot read as any
/// format.
pub open spec fn unsupported_extension_text(path: Seq<char>) -> Seq<char> {
    "Unsupported file extension in "@ + path
}

/// The format the Python loader parses a file as, by its extension.
pub fn load_format(path: &str) -> (r: Result<FileFormat, String>)
    ensures
        match r {
            Ok(f) => file_format(path@) == Some(f),
            Err(m) => file_format(path@) is None && m@ == unsupported_extension_text(path@),
        },
{
    match format_for_path(path) {
        Some(f) => Ok(f),
        None => {
            let mut m = owned("Unsupported file extension in ");
            m.append(path);
            Err(m)
        },
    }
}

/// What the Python loader returns of a parsed document: nothing (an empty
/// dict) unless the root is a table; for a `pyproject.toml` path (any
/// case) with a config id, the section `tool.{config_id}` if there is one;
/// else the whole document.
pub open spec fn selected_section(path: Seq<char>, config_id: Option<Seq<char>>, root: ValueView) -> Option<
    ValueView,
> {
    match root {
        ValueView::Table(entries) => if contains_text(lower_text(path), "pyproject.toml"@)
            && config_id is Some {
            match entry_lookup(entries, "tool"@) {
                Some(ValueView::Table(tool)) => entry_lookup(tool, config_id->Some_0),
                _ => None,
            }
        } else {
            Some(root)
        },
        _ => None,
    }
}

/// The part of a loaded document that the Python loader returns; `None`
/// stands for an empty dict.
pub fn select_section<'a>(path: &str, config_id: Option<&str>, root: &'a ConfigValue) -> (r: Option<
    &'a ConfigValue,
>)
    ensures
        match r {
            Some(v) => selected_section(
                path@,
                match config_id {
                    Some(c) => Some(c@),
                    None => None,
                },
                root.model(),
            ) == Some(v.model()),
            None => selected_section(
                path@,
                match config_id {
                    Some(c) => Some(c@),
                    None => None,
                },
                root.model(),
            ) is None,
        },
{
    match root {
        ConfigValue::Table(entries) => {
            let lower = to_lowercase(path);
            let lc = chars_of(lower.as_str());
            let needle = chars_of("pyproject.toml");
            let is_pyproject = text_contains(&lc, &needle);
            proof {
                crate::value::lemma_entries_model(entries@);
            }
            match config_id {
                Some(cid) => {
                    if is_pyproject {
                        let tool_key = chars_of("tool");
                        match table_get(entries, &tool_key) {
                            Some(ConfigValue::Table(tool)) => {
                                let ck = chars_of(cid);
                                table_get(tool, &ck)
                            },
                            _ => None,
                        }
                    } else {
                        Some(root)
                    }
                },
                None => Some(root),
            }
        },
        _ => None,
    }
}

/// The name the Python loader gives a format in its messages.
pub open spec fn format_name(f: FileFormat) -> Seq<char> {
    match f {
        FileFormat::Toml => "TOML"@,
        FileFormat::Yaml => "YAML"@,
        FileFormat::Json => "JSON"@,
    }
}

/// What the Python loader makes of the text of the file at `path`: the
/// selected section (`None` for an empty dict), or the message of the
/// `ValueError` it raises for an unsupported extension or a document that
/// does not parse (`Invalid {FORMAT} file {path}: {message}`).
pub open spec fn document_section_view(path: Seq<char>, config_id: Option<Seq<char>>, content: Seq<char>) -> Result<
    Option<ValueView>,
    Seq<char>,
> {
    match file_format(path) {
        None => Err(unsupported_extension_text(path)),
        Some(f) => match document_value(f, content) {
            Err(m) => Err("Invalid "@ + format_name(f) + " file "@ + path + ": "@ + m),
            Ok(root) => Ok(selected_section(path, config_id, root)),
        },
    }
}

/// Reads the text of a config file for the Python loader and returns the
/// section it hands back (see `document_section_view`).
pub fn document_section(path: &str, config_id: Option<&str>, content: &str) -> (r: Result<
    Option<ConfigValue>,
    String,
>)
    ensures
        match r {
            Ok(Some(v)) => document_section_view(
                path@,
                match config_id {
                    Some(c) => Some(c@),
                    None => None,
                },
                content@,
            ) == Ok::<Option<ValueView>, Seq<char>>(Some(v.model())),
            Ok(None) => document_section_view(
                path@,
                match config_id {
                    Some(c) => Some(c@),
                    None => None,
                },
                content@,
            ) == Ok::<Option<ValueView>, Seq<char>>(None),
            Err(m) => document_section_view(
                path@,
                match config_id {
                    Some(c) => Some(c@),
                    None => None,
                },
                content@,
            ) == Err::<Option<ValueView>, Seq<char>>(m@),
        },
{
    let format = load_format(path)?;
    match parse_document_text(format, content) {
        Err(e) => {
            let mut m = owned("Invalid ");
            m.append(
                match format {
                    FileFormat::Toml => "TOML",
                    FileFormat::Yaml => "YAML",
                    FileFormat::Json => "JSON",
                },
            );
            m.append(" file ");
            m.append(path);
            m.append(": ");
            m.append(e.as_str());
            Err(m)
        },
        Ok(root) => match select_section(path, config_id, &root) {
            Some(v) => Ok(Some(v.duplicate())),
            None => Ok(None),
        },
    }
}

/// What one mapping of the Python bindings has for a field, at its top
/// level and in the class section `mapping[config_id]`.
#[derive(Debug, Clone, Copy, PartialEq, Eq)]
pub enum SectionProbe {
    /// The mapping has no class section.
    Absent,
    /// The class section is not a dict.
    NotTable,
    /// The class section is a dict, with or without the field.
    Table { has_field: bool },
}

/// One mapping source of the Python bindings, as far as the decision needs
/// it: its name, whether it has the field at its top level, and its class
/// section.
#[derive(Debug, Clone)]
pub struct MappingProbe {
    pub source: String,
    pub has_field: bool,
    pub section: SectionProbe,
}

/// The marker recorded once a mapping's top-level value for a field was
/// applied: `{source}##{field}`.
pub open spec fn generic_mark(source: Seq<char>, field: Seq<char>) -> Seq<char> {
    source + "##"@ + field
}

/// The marker recorded once a mapping's class-section value for a field
/// was applied: `{source}##{config_id}##{field}`.
pub open spec fn class_mark(source: Seq<char>, config_id: Seq<char>, field: Seq<char>) -> Seq<char> {
    source + "##"@ + config_id + "##"@ + field
}

/// The mappings applied from lowest to highest priority, each value
/// overriding the previous one and the class section overriding the top
/// level of the same mapping: the last applied value (mapping index, and
/// whether it came from the class section) and the markers recorded. With
/// `track`, a value whose marker is already recorded is not applied again.
pub open spec fn mapping_scan(
    field: Seq<char>,
    config_id: Seq<char>,
    ms: Seq<MappingProbe>,
    track: bool,
    marks: Seq<Seq<char>>,
) -> (Option<(int, bool)>, Seq<Seq<char>>)
    decreases ms.len(),
{
    if ms.len() == 0 {
        (None, marks)
    } else {
        let (cur, k1) = mapping_scan(field, config_id, ms.drop_last(), track, marks);
        let i = ms.len() - 1;
        let m = ms.last();
        let g = generic_mark(m.source@, field);
        let (cur2, k2) = if (!track || !k1.contains(g)) && m.has_field {
            (
                Some((i, false)),
                if track {
                    k1.push(g)
                } else {
                    k1
                },
            )
        } else {
            (cur, k1)
        };
        let c = class_mark(m.source@, config_id, field);
        if (!track || !k2.contains(c)) && m.section == (SectionProbe::Table { has_field: true }) {
            (
                Some((i, true)),
                if track {
                    k2.push(c)
                } else {
                    k2
                },
            )
        } else {
            (cur2, k2)
        }
    }
}

/// Where a field's value comes from in the Python bindings.
#[derive(Debug, Clone, PartialEq, Eq)]
pub enum FieldPick {
    /// An environment variable, with its value.
    Env { key: String, value: String },
    /// A mapping's value: the mapping's index, and whether it is taken from
    /// the class section.
    Mapping { index: usize, class_section: bool },
}

/// The mathematical content of a `FieldPick`.
pub enum FieldPickView {
    Env { key: Seq<char>, value: Seq<char> },
    Mapping { index: int, class_section: bool },
}

impl View for FieldPick {
    type V = FieldPickView;

    open spec fn view(&self) -> FieldPickView {
        match self {
            FieldPick::Env { key, value } => FieldPickView::Env { key: key@, value: value@ },
            FieldPick::Mapping { index, class_section } => FieldPickView::Mapping {
                index: *index as int,
                class_section: *class_section,
            },
        }
    }
}

/// Where a field's value comes from: the class-specific variable, else the
/// generic one (either always overrides the mappings), else the last
/// mapping value applied.
pub open spec fn field_pick(
    class_env_key: Seq<char>,
    generic_env_key: Seq<char>,
    env: Seq<crate::source::env::EnvEntryView>,
    scanned: Option<(int, bool)>,
) -> Option<FieldPickView> {
    match env_read(env, class_env_key) {
        EnvRead::Present(v) => Some(FieldPickView::Env { key: class_env_key, value: v }),
        _ => match env_read(env, generic_env_key) {
            EnvRead::Present(v) => Some(FieldPickView::Env { key: generic_env_key, value: v }),
            _ => match scanned {
                Some((i, c)) => Some(FieldPickView::Mapping { index: i, class_section: c }),
                None => None,
            },
        },
    }
}

/// The views of a list of markers.
pub open spec fn marks_view(v: Seq<String>) -> Seq<Seq<char>> {
    v.map_values(|s: String| s@)
}

fn marks_contain(marks: &Vec<String>, k: &str) -> (r: bool)
    ensures
        r == marks_view(marks@).contains(k@),
{
    let mut i: usize = 0;
    while i < marks.len()
        invariant
            i <= marks@.len(),
            forall|j: int| 0 <= j < i ==> marks@[j]@ != k@,
        decreases marks@.len() - i,
    {
        if str_eq(marks[i].as_str(), k) {
            assert(marks_view(marks@)[i as int] == k@);
            return true;
        }
        i = i + 1;
    }
    proof {
        if marks_view(marks@).contains(k@) {
            let j = choose|j: int| 0 <= j < marks_view(marks@).len() && marks_view(marks@)[j] == k@;
            assert(marks@[j]@ == k@);
        }
    }
    false
}

/// Records marker `k` (with `track`) and returns it.
fn record(track: bool, marks: &mut Vec<String>, k: String)
    ensures
        marks_view(final(marks)@) == if track {
            marks_view(old(marks)@).push(k@)
        } else {
            marks_view(old(marks)@)
        },
{
    if track {
        let ghost before = marks_view(marks@);
        let ghost kv = k@;
        marks.push(k);
        assert(marks_view(marks@) =~= before.push(kv));
    }
}

/// The provenance record of the Python bindings.
#[derive(Debug, Clone, PartialEq, Eq)]
pub struct FieldProvenance {
    pub source: String,
    pub is_default: bool,
    pub is_secret: bool,
    pub display_value: Option<String>,
}

impl FieldProvenance {
    /// A record with the given parts.
    pub fn new(source: String, is_default: bool, is_secret: bool, display_value: Option<String>) -> (r:
        FieldProvenance)
        ensures
            r == (FieldProvenance { source, is_default, is_secret, display_value }),
    {
        FieldProvenance { source, is_default, is_secret, display_value }
    }

    /// `FieldProvenance(source='{source}', is_secret={True|False})`.
    pub fn repr(&self) -> (r: String)
        ensures
            r@ == "FieldProvenance(source='"@ + self.source@ + "', is_secret="@ + (if self.is_secret {
                "True"@
            } else {
                "False"@
            }) + ")"@,
    {
        let mut r = owned("FieldProvenance(source='");
        r.append(self.source.as_str());
        r.append("', is_secret=");
        if self.is_secret {
            r.append("True");
        } else {
            r.append("False");
        }
        r.append(")");
        r
    }
}

/// The source text of a pick: `env var '{key}'` or the mapping's name.
pub open spec fn pick_source(p: FieldPickView, ms: Seq<MappingProbe>) -> Seq<char> {
    match p {
        FieldPickView::Env { key, .. } => "env var '"@ + key + "'"@,
        FieldPickView::Mapping { index, .. } => ms[index].source@,
    }
}

/// Resolves one field for the Python bindings: applies the mappings from
/// lowest to highest priority (recording markers in `marks` when `track`),
/// then lets the class-specific and the generic environment variables
/// override them. Returns where the value comes from, with its provenance
/// record (never a default, no rendering), or `None` when nothing has one.
pub fn resolve_field(
    field_name: &str,
    config_id: &str,
    class_env_key: &str,
    generic_env_key: &str,
    secret: bool,
    mappings: &[MappingProbe],
    track: bool,
    marks: &mut Vec<String>,
    env: &Environment,
) -> (r: Option<(FieldPick, FieldProvenance)>)
    ensures
        marks_view(final(marks)@) == mapping_scan(
            field_name@,
            config_id@,
            mappings@,
            track,
            marks_view(old(marks)@),
        ).1,
        match r {
            Some((p, prov)) => field_pick(
                class_env_key@,
                generic_env_key@,
                env@,
                mapping_scan(field_name@, config_id@, mappings@, track, marks_view(old(marks)@)).0,
            ) == Some(p@) && prov.source@ == pick_source(p@, mappings@) && !prov.is_default
                && prov.is_secret == secret && prov.display_value is None,
            None => field_pick(
                class_env_key@,
                generic_env_key@,
                env@,
                mapping_scan(field_name@, config_id@, mappings@, track, marks_view(old(marks)@)).0,
            ) is None,
        },
{
    let ghost start = marks_view(marks@);
    let mut current: Option<(usize, bool)> = None;
    let mut i: usize = 0;
    assert(mappings@.take(0) =~= Seq::<MappingProbe>::empty());
    while i < mappings.len()
        invariant
            i <= mappings@.len(),
            ({
                let (c, k) = mapping_scan(field_name@, config_id@, mappings@.take(i as int), track, start);
                &&& k == marks_view(marks@)
                &&& c == match current {
                    Some((x, b)) => Some((x as int, b)),
                    None => None::<(int, bool)>,
                }
                &&& (c matches Some((x, _)) ==> 0 <= x < i)
            }),
        decreases mappings@.len() - i,
    {
        proof {
            let t = mappings@.take(i + 1);
            assert(t.drop_last() =~= mappings@.take(i as int));
            assert(t.last() == mappings@[i as int]);
        }
        let m = &mappings[i];
        let mut g = m.source.clone();
        g.append("##");
        g.append(field_name);
        let seen_g = track && marks_contain(marks, g.as_str());
        if !seen_g && m.has_field {
            current = Some((i, false));
            record(track, marks, g);
        }
        let mut c = m.source.clone();
        c.append("##");
        c.append(config_id);
        c.append("##");
        c.append(field_name);
        let seen_c = track && marks_contain(marks, c.as_str());
        let class_has = match m.section {
            SectionProbe::Table { has_field } => has_field,
            _ => false,
        };
        if !seen_c && class_has {
            current = Some((i, true));
            record(track, marks, c);
        }
        i = i + 1;
    }
    assert(mappings@.take(i as int) =~= mappings@);
    match env.read(class_env_key) {
        Some(Some(v)) => {
            let mut s = owned("env var '");
            s.append(class_env_key);
            s.append("'");
            return Some(
                (
                    FieldPick::Env { key: owned(class_env_key), value: owned(v) },
                    FieldProvenance { source: s, is_default: false, is_secret: secret, display_value: None },
                ),
            );
        },
        _ => {},
    }
    match env.read(generic_env_key) {
        Some(Some(v)) => {
            let mut s = owned("env var '");
            s.append(generic_env_key);
            s.append("'");
            return Some(
                (
                    FieldPick::Env { key: owned(generic_env_key), value: owned(v) },
                    FieldProvenance { source: s, is_default: false, is_secret: secret, display_value: None },
                ),
            );
        },
        _ => {},
    }
    match current {
        Some((index, class_section)) => Some(
            (
                FieldPick::Mapping { index, class_section },
                FieldProvenance {
                    source: mappings[index].source.clone(),
                    is_default: false,
                    is_secret: secret,
                    display_value: None,
                },
            ),
        ),
        None => None,
    }
}


/// Whether every value a mapping has for the field is marked.
pub open spec fn mapping_marked(field: Seq<char>, config_id: Seq<char>, m: MappingProbe, marks: Seq<Seq<char>>) -> bool {
    &&& m.has_field ==> marks.contains(generic_mark(m.source@, field))
    &&& m.section == (SectionProbe::Table { has_field: true }) ==> marks.contains(
        class_mark(m.source@, config_id, field),
    )
}

/// Whether every value the mappings have for the field is marked.
pub open spec fn all_marked(field: Seq<char>, config_id: Seq<char>, ms: Seq<MappingProbe>, marks: Seq<Seq<char>>) -> bool {
    forall|i: int| 0 <= i < ms.len() ==> mapping_marked(field, config_id, #[trigger] ms[i], marks)
}

proof fn lemma_scan_when_marked(field: Seq<char>, config_id: Seq<char>, ms: Seq<MappingProbe>, marks: Seq<Seq<char>>)
    requires
        all_marked(field, config_id, ms, marks),
    ensures
        mapping_scan(field, config_id, ms, true, marks) == (None::<(int, bool)>, marks),
    decreases ms.len(),
{
    if ms.len() > 0 {
        let d = ms.drop_last();
        assert forall|i: int| 0 <= i < d.len() implies mapping_marked(field, config_id, #[trigger] d[i], marks) by {
            assert(d[i] == ms[i]);
        }
        lemma_scan_when_marked(field, config_id, d, marks);
        assert(mapping_marked(field, config_id, ms[ms.len() - 1], marks));
    }
}

proof fn lemma_scan_marks_all(field: Seq<char>, config_id: Seq<char>, ms: Seq<MappingProbe>, marks: Seq<Seq<char>>)
    ensures
        all_marked(field, config_id, ms, mapping_scan(field, config_id, ms, true, marks).1),
        forall|x: Seq<char>| marks.contains(x) ==> #[trigger] mapping_scan(
            field,
            config_id,
            ms,
            true,
            marks,
        ).1.contains(x),
    decreases ms.len(),
{
    if ms.len() > 0 {
        let d = ms.drop_last();
        lemma_scan_marks_all(field, config_id, d, marks);
        let k1 = mapping_scan(field, config_id, d, true, marks).1;
        let m = ms.last();
        let g = generic_mark(m.source@, field);
        let k2 = if !k1.contains(g) && m.has_field {
            k1.push(g)
        } else {
            k1
        };
        let c = class_mark(m.source@, config_id, field);
        let k3 = if !k2.contains(c) && m.section == (SectionProbe::Table { has_field: true }) {
            k2.push(c)
        } else {
            k2
        };
        assert(k3 == mapping_scan(field, config_id, ms, true, marks).1);
        assert forall|x: Seq<char>| k1.contains(x) implies #[trigger] k3.contains(x) by {
            let j = choose|j: int| 0 <= j < k1.len() && k1[j] == x;
            assert(k2[j] == x);
            assert(k3[j] == x);
        }
        if m.has_field {
            if !k1.contains(g) {
                assert(k2[k2.len() - 1] == g);
            }
            assert(k2.contains(g));
            let j = choose|j: int| 0 <= j < k2.len() && k2[j] == g;
            assert(k3[j] == g);
        }
        if m.section == (SectionProbe::Table { has_field: true }) {
            if !k2.contains(c) {
                assert(k3[k3.len() - 1] == c);
            }
        }
        assert forall|x: Seq<char>| marks.contains(x) implies #[trigger] k3.contains(x) by {
            assert(k1.contains(x));
        }
        assert forall|i: int| 0 <= i < ms.len() implies mapping_marked(field, config_id, #[trigger] ms[i], k3) by {
            if i < d.len() {
                assert(d[i] == ms[i]);
                assert(mapping_marked(field, config_id, d[i], k1));
                if ms[i].has_field {
                    assert(k3.contains(generic_mark(ms[i].source@, field)));
                }
                if ms[i].section == (SectionProbe::Table { has_field: true }) {
                    assert(k3.contains(class_mark(ms[i].source@, config_id, field)));
                }
            } else {
                assert(ms[i] == m);
            }
        }
    }
}

/// With markers tracked, the mappings never apply the same value twice:
/// scanning them again with the markers the first scan left applies
/// nothing and records nothing new.
pub proof fn lemma_marks_prevent_reapplication(
    field: Seq<char>,
    config_id: Seq<char>,
    ms: Seq<MappingProbe>,
    marks: Seq<Seq<char>>,
)
    ensures
        mapping_scan(field, config_id, ms, true, mapping_scan(field, config_id, ms, true, marks).1)
            == (None::<(int, bool)>, mapping_scan(field, config_id, ms, true, marks).1),
{
    lemma_scan_marks_all(field, config_id, ms, marks);
    lemma_scan_when_marked(field, config_id, ms, mapping_scan(field, config_id, ms, true, marks).1);
}

/// An environment variable always overrides the mappings: the
/// class-specific one first, then the generic one.
pub proof fn lemma_env_overrides_mappings(
    class_env_key: Seq<char>,
    generic_env_key: Seq<char>,
    env: Seq<crate::source::env::EnvEntryView>,
    scanned: Option<(int, bool)>,
)
    ensures
        env_read(env, class_env_key) matches EnvRead::Present(v) ==> field_pick(
            class_env_key,
            generic_env_key,
            env,
            scanned,
        ) == Some(FieldPickView::Env { key: class_env_key, value: v }),
        !(env_read(env, class_env_key) is Present) ==> (env_read(env, generic_env_key) matches EnvRead::Present(v)
            ==> field_pick(class_env_key, generic_env_key, env, scanned) == Some(
            FieldPickView::Env { key: generic_env_key, value: v },
        )),
{
}


/// Whether a mapping has a value for the field: at its top level or in its
/// class section.
pub open spec fn provides_field(m: MappingProbe) -> bool {
    m.has_field || m.section == (SectionProbe::Table { has_field: true })
}

/// Without tracking, the scan picks the last mapping that has a value for
/// the field (the mappings coming from lowest to highest priority), taking
/// its class-section value when it has one and its top-level value
/// otherwise; when no mapping has a value there is none. The markers are
/// left as they were.
pub proof fn lemma_last_mapping_wins(field: Seq<char>, config_id: Seq<char>, ms: Seq<MappingProbe>, marks: Seq<Seq<char>>)
    ensures
        mapping_scan(field, config_id, ms, false, marks).1 == marks,
        (forall|i: int| 0 <= i < ms.len() ==> !provides_field(#[trigger] ms[i])) ==> mapping_scan(
            field,
            config_id,
            ms,
            false,
            marks,
        ).0 is None,
        forall|i: int|
            0 <= i < ms.len() && provides_field(#[trigger] ms[i]) && (forall|j: int|
                i < j < ms.len() ==> !provides_field(#[trigger] ms[j])) ==> mapping_scan(
                field,
                config_id,
                ms,
                false,
                marks,
            ).0 == Some((i, ms[i].section == (SectionProbe::Table { has_field: true }))),
    decreases ms.len(),
{
    if ms.len() > 0 {
        let d = ms.drop_last();
        lemma_last_mapping_wins(field, config_id, d, marks);
        assert forall|i: int| 0 <= i < d.len() implies #[trigger] d[i] == ms[i] by {}
        let last = ms.len() - 1;
        assert(ms.last() == ms[last]);
        if !provides_field(ms[last]) {
            assert forall|i: int|
                0 <= i < d.len() && provides_field(#[trigger] d[i]) && (forall|j: int|
                    i < j < d.len() ==> !provides_field(#[trigger] d[j])) implies mapping_scan(
                    field,
                    config_id,
                    d,
                    false,
                    marks,
                ).0 == Some((i, d[i].section == (SectionProbe::Table { has_field: true }))) by {}
            assert forall|i: int|
                0 <= i < ms.len() && provides_field(#[trigger] ms[i]) && (forall|j: int|
                    i < j < ms.len() ==> !provides_field(#[trigger] ms[j])) implies mapping_scan(
                    field,
                    config_id,
                    ms,
                    false,
                    marks,
                ).0 == Some((i, ms[i].section == (SectionProbe::Table { has_field: true }))) by {
                assert(i < last);
                assert(d[i] == ms[i]);
                assert forall|j: int| i < j < d.len() implies !provides_field(#[trigger] d[j]) by {
                    assert(d[j] == ms[j]);
                }
            }
            if forall|i: int| 0 <= i < ms.len() ==> !provides_field(#[trigger] ms[i]) {
                assert forall|i: int| 0 <= i < d.len() implies !provides_field(#[trigger] d[i]) by {
                    assert(d[i] == ms[i]);
                }
            }
        } else {
            assert forall|i: int|
                0 <= i < ms.len() && provides_field(#[trigger] ms[i]) && (forall|j: int|
                    i < j < ms.len() ==> !provides_field(#[trigger] ms[j])) implies i == last by {
                if i < last {
                    assert(!provides_field(ms[last]));
                }
            }
        }
    }
}

} // verus!
