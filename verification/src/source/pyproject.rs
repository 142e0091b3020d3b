//! Reads config values from `[tool.{prefix}.{group}]` of a `pyproject.toml`.
use vstd::prelude::*;
use crate::error::ErrorView;
use crate::field::FieldMeta;
use crate::provenance::{Source, SourceView};
use crate::text::{lower_text, owned, to_lowercase};
use crate::document::{document_value, parse_document_text};
use crate::error::ConfigError;
use crate::source::file::FileFormat;
use crate::value::{dotted_lookup, ConfigValue, ValueView};

verus! {

/// Reads config values from `[tool.{prefix}.{group}]` in a parsed
/// `pyproject.toml`. A missing file (no document) or missing sections give
/// no value for any field.
///
/// Default rank: 50.
#[derive(Debug)]
pub struct PyprojectTomlSource {
    path: String,
    root: Option<ConfigValue>,
    rank: u8,
    prefix: String,
    group: String,
}

/// The mathematical content of a `PyprojectTomlSource`.
pub struct PyprojectView {
    pub path: Seq<char>,
    pub root: Option<ValueView>,
    pub rank: u8,
    pub prefix: Seq<char>,
    pub group: Seq<char>,
}

impl View for PyprojectTomlSource {
    type V = PyprojectView;

    closed spec fn view(&self) -> PyprojectView {
        PyprojectView {
            path: self.path@,
            root: match self.root {
                Some(r) => Some(r.model()),
                None => None,
            },
            rank: self.rank,
            prefix: self.prefix@,
            group: self.group@,
        }
    }
}

/// The dotted key of a field in the tool section: `tool.{prefix}.{group}.{name}`.
pub open spec fn tool_key(p: PyprojectView, name: Seq<char>) -> Seq<char> {
    "tool."@ + p.prefix + "."@ + p.group + "."@ + name
}

/// What the pyproject source gives for a field: the value at its tool key,
/// recorded under that key.
pub open spec fn pyproject_lookup(p: PyprojectView, meta: FieldMeta) -> Result<
    Option<(ValueView, SourceView)>,
    ErrorView,
> {
    match p.root {
        None => Ok(None),
        Some(root) => match dotted_lookup(root, tool_key(p, meta.name@)) {
            Some(v) => Ok(Some((v, SourceView::File { path: p.path, key: tool_key(p, meta.name@) }))),
            None => Ok(None),
        },
    }
}

impl PyprojectTomlSource {
    /// A source over the document read from `path` (`None` when there is no
    /// such file), for section `[tool.{prefix}.{group}]` with both names
    /// lower-cased, rank 50.
    pub fn from_document(path: &str, root: Option<ConfigValue>, prefix: &str, group: &str) -> (s:
        PyprojectTomlSource)
        ensures
            s@ == (PyprojectView {
                path: path@,
                root: match root {
                    Some(r) => Some(r.model()),
                    None => None,
                },
                rank: 50,
                prefix: lower_text(prefix@),
                group: lower_text(group@),
            }),
    {
        PyprojectTomlSource {
            path: owned(path),
            root,
            rank: 50,
            prefix: to_lowercase(prefix),
            group: to_lowercase(group),
        }
    }

    /// This source with a different rank.
    pub fn with_rank(self, rank: u8) -> (s: PyprojectTomlSource)
        ensures
            s@ == (PyprojectView { rank, ..self@ }),
    {
        PyprojectTomlSource { rank, ..self }
    }

    pub(crate) fn lookup(&self, meta: &FieldMeta) -> (r: Result<
        Option<(ConfigValue, Source)>,
        crate::error::ConfigError,
    >)
        ensures
            crate::source::lookup_view(r) == pyproject_lookup(self@, *meta),
    {
        match &self.root {
            None => Ok(None),
            Some(root) => {
                let mut key = owned("tool.");
                key.append(self.prefix.as_str());
                key.append(".");
                key.append(self.group.as_str());
                key.append(".");
                key.append(meta.name);
                match root.get_by_dotted_key(key.as_str()) {
                    Some(v) => {
                        let recorded = key.clone();
                        Ok(Some((v.duplicate(), Source::File { path: self.path.clone(), key: recorded })))
                    },
                    None => Ok(None),
                }
            },
        }
    }

    pub(crate) fn rank_value(&self) -> (r: u8)
        ensures
            r == self@.rank,
    {
        self.rank
    }
}

/// The `pyproject.toml` source read from the text of the file at `path`
/// (`None` when there is no such file): as `from_document` gives it for the
/// parsed TOML document, or a `FileError` with the parser's message.
pub open spec fn pyproject_from_text(
    path: Seq<char>,
    content: Option<Seq<char>>,
    prefix: Seq<char>,
    group: Seq<char>,
) -> Result<PyprojectView, ErrorView> {
    match content {
        None => Ok(
            PyprojectView { path, root: None, rank: 50, prefix: lower_text(prefix), group: lower_text(group) },
        ),
        Some(c) => match document_value(FileFormat::Toml, c) {
            Ok(v) => Ok(
                PyprojectView {
                    path,
                    root: Some(v),
                    rank: 50,
                    prefix: lower_text(prefix),
                    group: lower_text(group),
                },
            ),
            Err(m) => Err(ErrorView::FileError { path, cause: m }),
        },
    }
}

impl PyprojectTomlSource {
    /// Reads the `pyproject.toml` at `path` from its text, if it exists.
    pub fn from_text(path: &str, content: Option<&str>, prefix: &str, group: &str) -> (r: Result<
        PyprojectTomlSource,
        ConfigError,
    >)
        ensures
            match r {
                Ok(s) => pyproject_from_text(
                    path@,
                    match content {
                        Some(c) => Some(c@),
                        None => None,
                    },
                    prefix@,
                    group@,
                ) == Ok::<PyprojectView, ErrorView>(s@),
                Err(e) => pyproject_from_text(
                    path@,
                    match content {
                        Some(c) => Some(c@),
                        None => None,
                    },
                    prefix@,
                    group@,
                ) == Err::<PyprojectView, ErrorView>(e@),
            },
    {
        match content {
            None => Ok(PyprojectTomlSource::from_document(path, None, prefix, group)),
            Some(c) => match parse_document_text(FileFormat::Toml, c) {
                Ok(root) => Ok(PyprojectTomlSource::from_document(path, Some(root), prefix, group)),
                Err(m) => Err(ConfigError::FileError { path: owned(path), cause: m }),
            },
        }
    }
}

} // verus!
