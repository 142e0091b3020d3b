//! Pluggable sources of config values, each with a priority rank.
use vstd::prelude::*;
use crate::error::{ConfigError, ErrorView};
use crate::field::FieldMeta;
use crate::provenance::{Source, SourceView};
use crate::value::{entry_lookup, ConfigValue, ValueView};
use self::default::{DefaultSource, DefaultSourceView};
use self::env::{env_lookup, EnvEntryView, EnvSource, Environment};
use self::file::{file_lookup, FileSource, FileSourceView};
use self::map::{MapSource, MapSourceView};
use self::pyproject::{pyproject_lookup, PyprojectTomlSource, PyprojectView};

pub mod default;
pub mod env;
pub mod file;
pub mod map;
pub mod pyproject;

verus! {

/// What a lookup in a source gives, as values: the value with its source,
/// nothing, or an error.
pub type LookupView = Result<Option<(ValueView, SourceView)>, ErrorView>;

/// The view of a lookup result.
pub open spec fn lookup_view(r: Result<Option<(ConfigValue, Source)>, ConfigError>) -> LookupView {
    match r {
        Ok(Some((v, s))) => Ok(Some((v.model(), s@))),
        Ok(None) => Ok(None),
        Err(e) => Err(e@),
    }
}

/// A source of the user's own, boxed so that sources of any type can be
/// held together.
pub struct UserSource {
    source: Box<dyn ConfigSource>,
}

/// Any source: one of the built-in kinds, or one of the user's.
pub enum AnySource {
    Mapping(MapSource),
    Env(EnvSource),
    File(FileSource),
    Pyproject(PyprojectTomlSource),
    Defaults(DefaultSource),
    Custom(UserSource),
}

/// The mathematical content of a source; a source of the user's is given
/// by its lookup and its rank.
pub enum AnySourceView {
    Mapping(MapSourceView),
    Env(u8),
    File(FileSourceView),
    Pyproject(PyprojectView),
    Defaults(DefaultSourceView),
    Custom(spec_fn(FieldMeta, Seq<EnvEntryView>) -> LookupView, u8),
}

/// The view of any source, by its own lookup and rank.
pub open spec fn custom_view<S: ConfigSource + ?Sized>(s: &S) -> AnySourceView {
    AnySourceView::Custom(|m: FieldMeta, e: Seq<EnvEntryView>| s.lookup_spec(m, e), s.rank_spec())
}

/// `Box::new`, turning a source into a `Box<dyn ConfigSource>`: calls on
/// the box run the source's own `get` and `rank`, so the box answers as the
/// source does.
#[verifier::external_body]
fn box_source<S: ConfigSource + 'static>(s: S) -> (u: UserSource)
    ensures
        forall|m: FieldMeta, e: Seq<EnvEntryView>| #[trigger] u.source.lookup_spec(m, e) == s.lookup_spec(m, e),
        u.source.rank_spec() == s.rank_spec(),
{
    UserSource { source: Box::new(s) }
}

impl UserSource {
    /// Boxes a source of the user's.
    pub fn new<S: ConfigSource + 'static>(s: S) -> (u: UserSource)
        ensures
            u.source_view() == custom_view(&s),
    {
        let u = box_source(s);
        assert(custom_view(&*u.source) == custom_view(&s)) by {
            let f = |m: FieldMeta, e: Seq<EnvEntryView>| u.source.lookup_spec(m, e);
            let g = |m: FieldMeta, e: Seq<EnvEntryView>| s.lookup_spec(m, e);
            assert(f =~= g);
        }
        u
    }

    /// The view of this source: the boxed source's lookup and rank.
    pub closed spec fn source_view(&self) -> AnySourceView {
        custom_view(&*self.source)
    }
}

impl View for AnySource {
    type V = AnySourceView;

    open spec fn view(&self) -> AnySourceView {
        match self {
            AnySource::Mapping(s) => AnySourceView::Mapping(s@),
            AnySource::Env(s) => AnySourceView::Env(s@),
            AnySource::File(s) => AnySourceView::File(s@),
            AnySource::Pyproject(s) => AnySourceView::Pyproject(s@),
            AnySource::Defaults(s) => AnySourceView::Defaults(s@),
            AnySource::Custom(u) => u.source_view(),
        }
    }
}

/// The rank of a source: lower ranks win.
pub open spec fn source_rank(s: AnySourceView) -> u8 {
    match s {
        AnySourceView::Mapping(m) => m.rank,
        AnySourceView::Env(r) => r,
        AnySourceView::File(f) => f.rank,
        AnySourceView::Pyproject(p) => p.rank,
        AnySourceView::Defaults(d) => d.rank,
        AnySourceView::Custom(_, r) => r,
    }
}

/// What a source gives for one field, in environment `env`.
///
/// A map source and the defaults look the field up by its name.
pub open spec fn source_lookup(s: AnySourceView, meta: FieldMeta, env: Seq<EnvEntryView>) -> LookupView {
    match s {
        AnySourceView::Mapping(m) => match entry_lookup(m.entries, meta.name@) {
            Some(v) => Ok(Some((v, SourceView::Mapping { label: m.label }))),
            None => Ok(None),
        },
        AnySourceView::Env(_) => env_lookup(meta, env),
        AnySourceView::File(f) => file_lookup(f, meta),
        AnySourceView::Pyproject(p) => pyproject_lookup(p, meta),
        AnySourceView::Defaults(d) => match entry_lookup(d.entries, meta.name@) {
            Some(v) => Ok(Some((v, SourceView::Default))),
            None => Ok(None),
        },
        AnySourceView::Custom(f, _) => f(meta, env),
    }
}

/// A source of config values with a priority rank (lower wins).
///
/// The resolver asks each source in rank order; the first that returns a
/// value wins. Users may implement it for sources of their own; the
/// resolver relies on `get` and `rank` answering as `lookup_spec` and
/// `rank_spec` say.
pub trait ConfigSource {
    /// What a lookup for `meta` gives in environment `env`.
    spec fn lookup_spec(&self, meta: FieldMeta, env: Seq<EnvEntryView>) -> LookupView;

    /// The source's rank.
    spec fn rank_spec(&self) -> u8;

    /// Looks up the value for one field; `Ok(None)` when the source has no
    /// value for it.
    fn get(&self, meta: &FieldMeta, env: &Environment) -> (r: Result<
        Option<(ConfigValue, Source)>,
        ConfigError,
    >)
        ensures
            lookup_view(r) == self.lookup_spec(*meta, env@),
    ;

    /// The priority rank: lower values win over higher values.
    fn rank(&self) -> (r: u8)
        ensures
            r == self.rank_spec(),
    ;
}

impl ConfigSource for AnySource {
    open spec fn lookup_spec(&self, meta: FieldMeta, env: Seq<EnvEntryView>) -> LookupView {
        source_lookup(self@, meta, env)
    }

    open spec fn rank_spec(&self) -> u8 {
        source_rank(self@)
    }

    fn get(&self, meta: &FieldMeta, env: &Environment) -> (r: Result<
        Option<(ConfigValue, Source)>,
        ConfigError,
    >) {
        match self {
            AnySource::Mapping(s) => s.get(meta, env),
            AnySource::Env(s) => s.get(meta, env),
            AnySource::File(s) => s.get(meta, env),
            AnySource::Pyproject(s) => s.get(meta, env),
            AnySource::Defaults(s) => s.get(meta, env),
            AnySource::Custom(u) => u.source.get(meta, env),
        }
    }

    fn rank(&self) -> (r: u8) {
        match self {
            AnySource::Mapping(s) => s.rank(),
            AnySource::Env(s) => s.rank(),
            AnySource::File(s) => s.rank(),
            AnySource::Pyproject(s) => s.rank(),
            AnySource::Defaults(s) => s.rank(),
            AnySource::Custom(u) => u.source.rank(),
        }
    }
}

impl ConfigSource for MapSource {
    open spec fn lookup_spec(&self, meta: FieldMeta, env: Seq<EnvEntryView>) -> LookupView {
        source_lookup(AnySourceView::Mapping(self@), meta, env)
    }

    open spec fn rank_spec(&self) -> u8 {
        source_rank(AnySourceView::Mapping(self@))
    }

    fn get(&self, meta: &FieldMeta, env: &Environment) -> (r: Result<
        Option<(ConfigValue, Source)>,
        ConfigError,
    >) {
        Ok(self.lookup(meta.name))
    }

    fn rank(&self) -> (r: u8) {
        self.rank_value()
    }
}

impl ConfigSource for DefaultSource {
    open spec fn lookup_spec(&self, meta: FieldMeta, env: Seq<EnvEntryView>) -> LookupView {
        source_lookup(AnySourceView::Defaults(self@), meta, env)
    }

    open spec fn rank_spec(&self) -> u8 {
        source_rank(AnySourceView::Defaults(self@))
    }

    fn get(&self, meta: &FieldMeta, env: &Environment) -> (r: Result<
        Option<(ConfigValue, Source)>,
        ConfigError,
    >) {
        Ok(self.lookup(meta.name))
    }

    fn rank(&self) -> (r: u8) {
        self.rank_value()
    }
}

impl ConfigSource for EnvSource {
    open spec fn lookup_spec(&self, meta: FieldMeta, env: Seq<EnvEntryView>) -> LookupView {
        source_lookup(AnySourceView::Env(self@), meta, env)
    }

    open spec fn rank_spec(&self) -> u8 {
        source_rank(AnySourceView::Env(self@))
    }

    fn get(&self, meta: &FieldMeta, env: &Environment) -> (r: Result<
        Option<(ConfigValue, Source)>,
        ConfigError,
    >) {
        self.lookup(meta, env)
    }

    fn rank(&self) -> (r: u8) {
        self.rank_value()
    }
}

impl ConfigSource for FileSource {
    open spec fn lookup_spec(&self, meta: FieldMeta, env: Seq<EnvEntryView>) -> LookupView {
        source_lookup(AnySourceView::File(self@), meta, env)
    }

    open spec fn rank_spec(&self) -> u8 {
        source_rank(AnySourceView::File(self@))
    }

    fn get(&self, meta: &FieldMeta, env: &Environment) -> (r: Result<
        Option<(ConfigValue, Source)>,
        ConfigError,
    >) {
        self.lookup(meta)
    }

    fn rank(&self) -> (r: u8) {
        self.rank_value()
    }
}

impl ConfigSource for PyprojectTomlSource {
    open spec fn lookup_spec(&self, meta: FieldMeta, env: Seq<EnvEntryView>) -> LookupView {
        source_lookup(AnySourceView::Pyproject(self@), meta, env)
    }

    open spec fn rank_spec(&self) -> u8 {
        source_rank(AnySourceView::Pyproject(self@))
    }

    fn get(&self, meta: &FieldMeta, env: &Environment) -> (r: Result<
        Option<(ConfigValue, Source)>,
        ConfigError,
    >) {
        self.lookup(meta)
    }

    fn rank(&self) -> (r: u8) {
        self.rank_value()
    }
}

} // verus!
