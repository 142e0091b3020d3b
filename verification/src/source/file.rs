//! A source backed by a parsed config file, looked up by dotted key.
use vstd::prelude::*;
use crate::error::ErrorView;
use crate::field::FieldMeta;
use crate::provenance::{Source, SourceView};
use crate::text::{lemma_split_then, lemma_split_without_sep, split_on, chars_of, concat2, has_prefix, owned, str_eq, string_from_chars, to_lowercase, lower_text, vec_contains, vec_starts_with};
use crate::error::ConfigError;
use crate::document::{document_value, parse_document_text};
use crate::value::{dotted_lookup, entry_lookup, walk, ConfigValue, ValueView};

verus! {

/// Reads config values from a parsed config file.
///
/// Lookup walks the dotted `config_key` (e.g. `"redis.host"`) into the
/// document. With a group set, a leading `{group}.` is stripped first; with
/// no group, a dotted key that is not found falls back to the bare field
/// name.
///
/// Default rank: 40.
#[derive(Debug)]
pub struct FileSource {
    path: String,
    root: ConfigValue,
    rank: u8,
    group: Option<String>,
}

/// The mathematical content of a `FileSource`.
pub struct FileSourceView {
    pub path: Seq<char>,
    pub root: ValueView,
    pub rank: u8,
    pub group: Option<Seq<char>>,
}

impl View for FileSource {
    type V = FileSourceView;

    closed spec fn view(&self) -> FileSourceView {
        FileSourceView {
            path: self.path@,
            root: self.root.model(),
            rank: self.rank,
            group: match self.group {
                Some(g) => Some(g@),
                None => None,
            },
        }
    }
}

/// `s` without the prefix `p`, or `s` itself when `p` is not a prefix.
pub open spec fn strip_prefix(s: Seq<char>, p: Seq<char>) -> Seq<char> {
    if has_prefix(s, p) {
        s.subrange(p.len() as int, s.len() as int)
    } else {
        s
    }
}

/// The key looked up for a field: its `config_key`, without a leading
/// `{group}.` when the source has a group.
pub open spec fn file_lookup_key(f: FileSourceView, meta: FieldMeta) -> Seq<char> {
    match f.group {
        Some(g) => strip_prefix(meta.config_key@, g + "."@),
        None => meta.config_key@,
    }
}

/// What a file source gives for a field: the value at the lookup key,
/// recorded under the field's `config_key`; failing that, for a source
/// without group and a dotted lookup key, the value at the bare field name.
pub open spec fn file_lookup(f: FileSourceView, meta: FieldMeta) -> Result<
    Option<(ValueView, SourceView)>,
    ErrorView,
> {
    let key = file_lookup_key(f, meta);
    match dotted_lookup(f.root, key) {
        Some(v) => Ok(Some((v, SourceView::File { path: f.path, key: meta.config_key@ }))),
        None => if f.group is None && key.contains('.') {
            match dotted_lookup(f.root, meta.name@) {
                Some(v) => Ok(Some((v, SourceView::File { path: f.path, key: meta.name@ }))),
                None => Ok(None),
            }
        } else {
            Ok(None)
        },
    }
}

impl FileSource {
    /// A source over an already parsed document read from `path`, with rank
    /// 40 and no group.
    pub fn from_document(path: &str, root: ConfigValue) -> (s: FileSource)
        ensures
            s@ == (FileSourceView { path: path@, root: root.model(), rank: 40, group: None }),
    {
        FileSource { path: owned(path), root, rank: 40, group: None }
    }

    /// This source with a different rank.
    pub fn with_rank(self, rank: u8) -> (s: FileSource)
        ensures
            s@ == (FileSourceView { rank, ..self@ }),
    {
        FileSource { rank, ..self }
    }

    /// This source scoped to a group: lookups strip a leading `{group}.`
    /// (the group lower-cased) from the config key.
    pub fn with_group(self, group: &str) -> (s: FileSource)
        ensures
            s@ == (FileSourceView { group: Some(lower_text(group@)), ..self@ }),
    {
        FileSource { group: Some(to_lowercase(group)), ..self }
    }

    pub(crate) fn lookup(&self, meta: &FieldMeta) -> (r: Result<
        Option<(ConfigValue, Source)>,
        crate::error::ConfigError,
    >)
        ensures
            crate::source::lookup_view(r) == file_lookup(self@, *meta),
    {
        let config_key = chars_of(meta.config_key);
        let key: Vec<char> = match &self.group {
            Some(g) => {
                let prefix_text = concat2(g.as_str(), ".");
                let prefix = chars_of(prefix_text.as_str());
                if vec_starts_with(&config_key, &prefix) {
                    let mut rest: Vec<char> = Vec::new();
                    let mut i: usize = prefix.len();
                    while i < config_key.len()
                        invariant
                            prefix@.len() <= i <= config_key@.len(),
                            rest@ == config_key@.subrange(prefix@.len() as int, i as int),
                        decreases config_key@.len() - i,
                    {
                        rest.push(config_key[i]);
                        i = i + 1;
                        assert(rest@ =~= config_key@.subrange(prefix@.len() as int, i as int));
                    }
                    rest
                } else {
                    config_key
                }
            },
            None => config_key,
        };
        let key_text = string_from_chars(&key);
        match self.root.get_by_dotted_key(key_text.as_str()) {
            Some(v) => {
                return Ok(
                    Some(
                        (
                            v.duplicate(),
                            Source::File { path: self.path.clone(), key: owned(meta.config_key) },
                        ),
                    ),
                );
            },
            None => {},
        }
        if self.group.is_none() && vec_contains(&key, '.') {
            match self.root.get_by_dotted_key(meta.name) {
                Some(v) => {
                    return Ok(
                        Some(
                            (v.duplicate(), Source::File { path: self.path.clone(), key: owned(meta.name) }),
                        ),
                    );
                },
                None => {},
            }
        }
        Ok(None)
    }

    pub(crate) fn rank_value(&self) -> (r: u8)
        ensures
            r == self@.rank,
    {
        self.rank
    }
}


/// The extension of the last component of a path, as `Path::extension`
/// gives it, when it is valid Unicode. It is fixed for a given build
/// target: which characters separate components differs between Unix and
/// Windows.
pub uninterp spec fn path_extension(path: Seq<char>) -> Option<Seq<char>>;

/// `Path::extension` (with `OsStr::to_str`): the part of the file name
/// after its last `.`. The contract names the result by `path_extension`, a
/// function of the path's characters; the path grammar is not stated.
#[verifier::external_body]
pub(crate) fn file_extension(path: &str) -> (r: Option<String>)
    ensures
        match r {
            Some(e) => path_extension(path@) == Some(e@),
            None => path_extension(path@) is None,
        },
{
    std::path::Path::new(path).extension().and_then(|s| s.to_str()).map(|s| s.to_owned())
}

/// The formats a config file may have.
#[derive(Debug, Clone, Copy, PartialEq, Eq)]
pub enum FileFormat {
    Toml,
    Yaml,
    Json,
}

/// The format named by a lower-cased extension.
pub open spec fn format_of_extension(ext: Seq<char>) -> Option<FileFormat> {
    if ext == "toml"@ {
        Some(FileFormat::Toml)
    } else if ext == "yaml"@ || ext == "yml"@ {
        Some(FileFormat::Yaml)
    } else if ext == "json"@ {
        Some(FileFormat::Json)
    } else {
        None
    }
}

/// The format of a file, by the lower-cased extension of its path (none
/// counts as the empty extension).
pub open spec fn file_format(path: Seq<char>) -> Option<FileFormat> {
    format_of_extension(
        lower_text(
            match path_extension(path) {
                Some(e) => e,
                None => Seq::empty(),
            },
        ),
    )
}

/// The format of a file by its lower-cased extension, if supported.
pub fn format_for_path(path: &str) -> (r: Option<FileFormat>)
    ensures
        r == file_format(path@),
{
    let ext = match file_extension(path) {
        Some(e) => e,
        None => String::new(),
    };
    let lower = to_lowercase(ext.as_str());
    let l = lower.as_str();
    if str_eq(l, "toml") {
        Some(FileFormat::Toml)
    } else if str_eq(l, "yaml") || str_eq(l, "yml") {
        Some(FileFormat::Yaml)
    } else if str_eq(l, "json") {
        Some(FileFormat::Json)
    } else {
        None
    }
}

impl FileSource {
    /// The format `FileSource::load` reads a file as: by its extension,
    /// `toml`, `yaml`/`yml` or `json` (any case); any other extension is a
    /// `FileError` with cause `unsupported format`.
    pub fn detect_format(path: &str) -> (r: Result<FileFormat, ConfigError>)
        ensures
            match r {
                Ok(f) => file_format(path@) == Some(f),
                Err(e) => file_format(path@) is None && e@ == (ErrorView::FileError {
                    path: path@,
                    cause: "unsupported format"@,
                }),
            },
    {
        match format_for_path(path) {
            Some(f) => Ok(f),
            None => Err(ConfigError::FileError { path: owned(path), cause: owned("unsupported format") }),
        }
    }
}

/// The source read from `content`, the text of the file at `path`, in
/// `format`: rank 40, no group; a document that does not parse is a
/// `FileError` with the parser's message.
pub open spec fn file_from_text(path: Seq<char>, format: FileFormat, content: Seq<char>) -> Result<
    FileSourceView,
    ErrorView,
> {
    match document_value(format, content) {
        Ok(v) => Ok(FileSourceView { path, root: v, rank: 40, group: None }),
        Err(m) => Err(ErrorView::FileError { path, cause: m }),
    }
}

/// The source read from the text of the file at `path`, in the format its
/// extension names (else a `FileError` with cause `unsupported format`).
pub open spec fn file_from_path_text(path: Seq<char>, content: Seq<char>) -> Result<FileSourceView, ErrorView> {
    match file_format(path) {
        Some(f) => file_from_text(path, f, content),
        None => Err(ErrorView::FileError { path, cause: "unsupported format"@ }),
    }
}

impl FileSource {
    /// Parses `content`, the text of the file at `path`, in `format`.
    pub fn parse(path: &str, format: FileFormat, content: &str) -> (r: Result<FileSource, ConfigError>)
        ensures
            match r {
                Ok(s) => file_from_text(path@, format, content@) == Ok::<FileSourceView, ErrorView>(s@),
                Err(e) => file_from_text(path@, format, content@) == Err::<FileSourceView, ErrorView>(e@),
            },
    {
        match parse_document_text(format, content) {
            Ok(root) => Ok(FileSource::from_document(path, root)),
            Err(m) => Err(ConfigError::FileError { path: owned(path), cause: m }),
        }
    }

    /// Parses `content`, the text of the file at `path`, in the format that
    /// the path's extension names.
    pub fn from_text(path: &str, content: &str) -> (r: Result<FileSource, ConfigError>)
        ensures
            match r {
                Ok(s) => file_from_path_text(path@, content@) == Ok::<FileSourceView, ErrorView>(s@),
                Err(e) => file_from_path_text(path@, content@) == Err::<FileSourceView, ErrorView>(e@),
            },
    {
        let format = FileSource::detect_format(path)?;
        FileSource::parse(path, format, content)
    }
}

/// A key found under its full dotted name wins over the field's flat name;
/// the flat name is tried only by a source without a group, only for a
/// dotted key that is absent.
pub proof fn lemma_dotted_key_before_flat_key(f: FileSourceView, meta: FieldMeta)
    ensures
        dotted_lookup(f.root, file_lookup_key(f, meta)) matches Some(v) ==> file_lookup(f, meta)
            == Ok::<Option<(ValueView, SourceView)>, ErrorView>(
            Some((v, SourceView::File { path: f.path, key: meta.config_key@ })),
        ),
        dotted_lookup(f.root, file_lookup_key(f, meta)) is None && (f.group is Some
            || !file_lookup_key(f, meta).contains('.')) ==> file_lookup(f, meta) == Ok::<
            Option<(ValueView, SourceView)>,
            ErrorView,
        >(None),
{
}


/// A source without a group that does not have the field's dotted lookup
/// key falls back to the field's name, itself read as a dotted path: the
/// value found there, recorded under the name, or nothing.
pub proof fn lemma_flat_name_fallback(f: FileSourceView, meta: FieldMeta)
    requires
        f.group is None,
        dotted_lookup(f.root, meta.config_key@) is None,
        meta.config_key@.contains('.'),
    ensures
        file_lookup(f, meta) == match dotted_lookup(f.root, meta.name@) {
            Some(v) => Ok::<Option<(ValueView, SourceView)>, ErrorView>(
                Some((v, SourceView::File { path: f.path, key: meta.name@ })),
            ),
            None => Ok(None),
        },
{
}

/// A field named `a.b` (the name a flattened field gets) is found, by a
/// source without a group that lacks its lookup key, in the table `a` of
/// the document under the key `b`.
pub proof fn lemma_flat_name_reaches_nested_table(
    f: FileSourceView,
    meta: FieldMeta,
    a: Seq<char>,
    b: Seq<char>,
    outer: Seq<(Seq<char>, ValueView)>,
    inner: Seq<(Seq<char>, ValueView)>,
    v: ValueView,
)
    requires
        f.group is None,
        dotted_lookup(f.root, meta.config_key@) is None,
        meta.config_key@.contains('.'),
        !a.contains('.'),
        !b.contains('.'),
        meta.name@ == a + seq!['.'] + b,
        f.root == ValueView::Table(outer),
        entry_lookup(outer, a) == Some(ValueView::Table(inner)),
        entry_lookup(inner, b) == Some(v),
    ensures
        file_lookup(f, meta) == Ok::<Option<(ValueView, SourceView)>, ErrorView>(
            Some((v, SourceView::File { path: f.path, key: meta.name@ })),
        ),
{
    assert(a + seq!['.'] + b =~= a.push('.') + b);
    lemma_split_without_sep(a, '.');
    lemma_split_then(a, '.', b);
    let segs = split_on(meta.name@, '.');
    assert(segs =~= seq![a, b]);
    assert(segs.drop_first() =~= seq![b]);
    assert(seq![b].drop_first() =~= Seq::<Seq<char>>::empty());
    assert(walk(ValueView::Table(inner), seq![b]) == walk(v, Seq::<Seq<char>>::empty()));
    assert(walk(f.root, segs) == walk(ValueView::Table(inner), seq![b]));
}

} // verus!
