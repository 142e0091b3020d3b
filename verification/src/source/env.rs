//! A snapshot of the process environment, and the source that reads
//! config values from it.
use vstd::prelude::*;
use crate::error::{ConfigError, ErrorView};
use crate::field::FieldMeta;
use crate::provenance::{Source, SourceView};
use crate::text::{owned, str_eq};
use crate::value::{ConfigValue, ValueView};

verus! {

/// The value of one environment variable: its text, or `None` when it is
/// not valid Unicode.
pub type EnvEntryView = (Seq<char>, Option<Seq<char>>);

/// The environment variables visible to a resolution, as plain values.
///
/// The names are distinct; reads take the first entry with a name.
pub struct Environment {
    vars: Vec<(String, Option<String>)>,
}

/// What reading one variable gives.
pub enum EnvRead {
    Present(Seq<char>),
    NotUnicode,
    Absent,
}

/// The first entry of `vars` named `name`, read.
pub open spec fn env_read(vars: Seq<EnvEntryView>, name: Seq<char>) -> EnvRead
    decreases vars.len(),
{
    if vars.len() == 0 {
        EnvRead::Absent
    } else if vars[0].0 == name {
        match vars[0].1 {
            Some(v) => EnvRead::Present(v),
            None => EnvRead::NotUnicode,
        }
    } else {
        env_read(vars.drop_first(), name)
    }
}

/// The entries of a list of variables.
pub open spec fn vars_view(v: Seq<(String, Option<String>)>) -> Seq<EnvEntryView> {
    v.map_values(
        |e: (String, Option<String>)|
            (
                e.0@,
                match e.1 {
                    Some(s) => Some(s@),
                    None => None,
                },
            ),
    )
}

impl View for Environment {
    type V = Seq<EnvEntryView>;

    closed spec fn view(&self) -> Seq<EnvEntryView> {
        vars_view(self.vars@)
    }
}

proof fn lemma_env_read_skip(vars: Seq<EnvEntryView>, name: Seq<char>, i: int)
    requires
        0 <= i <= vars.len(),
        forall|j: int| 0 <= j < i ==> (#[trigger] vars[j]).0 != name,
    ensures
        env_read(vars, name) == env_read(vars.subrange(i, vars.len() as int), name),
    decreases i,
{
    if i > 0 {
        lemma_env_read_skip(vars.drop_first(), name, i - 1);
        assert(vars.drop_first().subrange(i - 1, vars.drop_first().len() as int)
            =~= vars.subrange(i, vars.len() as int));
    } else {
        assert(vars.subrange(0, vars.len() as int) =~= vars);
    }
}

impl Environment {
    /// An environment with no variables.
    pub fn new() -> (e: Environment)
        ensures
            e@ == Seq::<EnvEntryView>::empty(),
    {
        let e = Environment { vars: Vec::new() };
        assert(e@ =~= Seq::<EnvEntryView>::empty());
        e
    }

    /// The position of the first variable named `name`.
    fn position(&self, name: &str) -> (r: Option<usize>)
        ensures
            match r {
                Some(i) => i < self@.len() && self@[i as int].0 == name@ && forall|j: int|
                    0 <= j < i ==> (#[trigger] self@[j]).0 != name@,
                None => forall|j: int| 0 <= j < self@.len() ==> (#[trigger] self@[j]).0 != name@,
            },
    {
        let mut i: usize = 0;
        while i < self.vars.len()
            invariant
                i <= self.vars@.len(),
                self@ == vars_view(self.vars@),
                self@.len() == self.vars@.len(),
                forall|j: int| 0 <= j < i ==> (#[trigger] self@[j]).0 != name@,
            decreases self.vars@.len() - i,
        {
            if str_eq(self.vars[i].0.as_str(), name) {
                return Some(i);
            }
            i = i + 1;
        }
        None
    }

    /// Sets `name` to `value`, replacing an earlier value.
    pub fn set(&mut self, name: &str, value: &str)
        ensures
            env_read(final(self)@, name@) == EnvRead::Present(value@),
            forall|n: Seq<char>| n != name@ ==> env_read(final(self)@, n) == env_read(old(self)@, n),
    {
        self.put(name, Some(owned(value)));
    }

    /// Marks `name` as set to a value that is not valid Unicode.
    pub fn set_not_unicode(&mut self, name: &str)
        ensures
            env_read(final(self)@, name@) == EnvRead::NotUnicode,
            forall|n: Seq<char>| n != name@ ==> env_read(final(self)@, n) == env_read(old(self)@, n),
    {
        self.put(name, None);
    }

    fn put(&mut self, name: &str, value: Option<String>)
        ensures
            env_read(final(self)@, name@) == match value {
                Some(v) => EnvRead::Present(v@),
                None => EnvRead::NotUnicode,
            },
            forall|n: Seq<char>| n != name@ ==> env_read(final(self)@, n) == env_read(old(self)@, n),
    {
        let ghost before = self@;
        match self.position(name) {
            Some(i) => {
                self.vars.set(i, (owned(name), value));
                proof {
                    assert(self@ =~= before.update(i as int, self@[i as int]));
                    lemma_env_read_skip(self@, name@, i as int);
                    assert(self@.subrange(i as int, self@.len() as int)[0] == self@[i as int]);
                    assert forall|n: Seq<char>| n != name@ implies env_read(self@, n) == env_read(
                        before,
                        n,
                    ) by {
                        lemma_env_read_same(before, self@, n, i as int);
                    }
                }
            },
            None => {
                self.vars.push((owned(name), value));
                proof {
                    assert(self@ =~= before.push(self@.last()));
                    lemma_env_read_push(before, self@.last(), name@);
                }
            },
        }
    }

    /// Reads the variable `name`.
    pub fn read(&self, name: &str) -> (r: Option<Option<&str>>)
        ensures
            match r {
                Some(Some(v)) => env_read(self@, name@) == EnvRead::Present(v@),
                Some(None) => env_read(self@, name@) == EnvRead::NotUnicode,
                None => env_read(self@, name@) == EnvRead::Absent,
            },
    {
        match self.position(name) {
            Some(i) => {
                proof {
                    lemma_env_read_skip(self@, name@, i as int);
                }
                match &self.vars[i].1 {
                    Some(v) => Some(Some(v.as_str())),
                    None => Some(None),
                }
            },
            None => {
                proof {
                    lemma_env_read_skip(self@, name@, self@.len() as int);
                }
                None
            },
        }
    }
}

proof fn lemma_env_read_push(vars: Seq<EnvEntryView>, e: EnvEntryView, name: Seq<char>)
    requires
        forall|j: int| 0 <= j < vars.len() ==> (#[trigger] vars[j]).0 != name,
        e.0 == name,
    ensures
        env_read(vars.push(e), name) == match e.1 {
            Some(v) => EnvRead::Present(v),
            None => EnvRead::NotUnicode,
        },
        forall|n: Seq<char>| n != name ==> env_read(vars.push(e), n) == env_read(vars, n),
    decreases vars.len(),
{
    if vars.len() > 0 {
        lemma_env_read_push(vars.drop_first(), e, name);
        assert(vars.push(e).drop_first() =~= vars.drop_first().push(e));
        assert(vars.push(e)[0] == vars[0]);
        assert forall|n: Seq<char>| n != name implies env_read(vars.push(e), n) == env_read(
            vars,
            n,
        ) by {
            assert(env_read(vars.drop_first().push(e), n) == env_read(vars.drop_first(), n));
        }
    } else {
        assert(vars.push(e).drop_first() =~= Seq::<EnvEntryView>::empty());
        assert forall|n: Seq<char>| n != name implies env_read(vars.push(e), n) == env_read(
            vars,
            n,
        ) by {
            assert(vars.push(e)[0] == e);
            assert(vars =~= Seq::<EnvEntryView>::empty());
            assert(env_read(vars.push(e).drop_first(), n) == EnvRead::Absent);
        }
    }
}

proof fn lemma_env_read_same(a: Seq<EnvEntryView>, b: Seq<EnvEntryView>, n: Seq<char>, i: int)
    requires
        a.len() == b.len(),
        0 <= i < a.len(),
        forall|j: int| 0 <= j < a.len() && j != i ==> a[j] == b[j],
        a[i].0 != n,
        b[i].0 != n,
    ensures
        env_read(a, n) == env_read(b, n),
    decreases a.len(),
{
    if i > 0 {
        lemma_env_read_same(a.drop_first(), b.drop_first(), n, i - 1);
        assert(a[0] == b[0]);
    } else {
        assert(a.drop_first() =~= b.drop_first());
    }
}

} // verus!

verus! {

/// Reads config values from environment variables: the field's `env_key`
/// first, then its `generic_env_key`. Values are `ConfigValue::String`.
///
/// Default rank: 20.
#[derive(Debug, Clone, Copy)]
pub struct EnvSource {
    rank: u8,
}

impl View for EnvSource {
    type V = u8;

    closed spec fn view(&self) -> u8 {
        self.rank
    }
}

/// What reading one variable contributes: its value with an `EnvVar`
/// source, an error when it is not Unicode, or nothing when it is unset.
pub open spec fn env_var_lookup(env: Seq<EnvEntryView>, key: Seq<char>) -> Result<
    Option<(ValueView, SourceView)>,
    ErrorView,
> {
    match env_read(env, key) {
        EnvRead::Present(v) => Ok(Some((ValueView::Str(v), SourceView::EnvVar { name: key }))),
        EnvRead::NotUnicode => Err(
            ErrorView::EnvVar { key, cause: "value is not valid UTF-8"@ },
        ),
        EnvRead::Absent => Ok(None),
    }
}

/// What the environment source gives for a field: the class-specific
/// variable if it is set, else the generic one if the field has one.
pub open spec fn env_lookup(meta: FieldMeta, env: Seq<EnvEntryView>) -> Result<
    Option<(ValueView, SourceView)>,
    ErrorView,
> {
    match env_read(env, meta.env_key@) {
        EnvRead::Absent => match meta.generic_env_key {
            Some(g) => env_var_lookup(env, g@),
            None => Ok(None),
        },
        _ => env_var_lookup(env, meta.env_key@),
    }
}

fn env_var_get(env: &Environment, key: &str) -> (r: Result<Option<(ConfigValue, Source)>, ConfigError>)
    ensures
        crate::source::lookup_view(r) == env_var_lookup(env@, key@),
{
    match env.read(key) {
        Some(Some(v)) => Ok(
            Some((ConfigValue::String(owned(v)), Source::EnvVar { name: owned(key) })),
        ),
        Some(None) => Err(
            ConfigError::EnvVar { key: owned(key), cause: owned("value is not valid UTF-8") },
        ),
        None => Ok(None),
    }
}

impl EnvSource {
    /// An environment source with rank 20.
    pub fn new() -> (s: EnvSource)
        ensures
            s@ == 20,
    {
        EnvSource { rank: 20 }
    }

    /// An environment source with the given rank.
    pub fn with_rank(rank: u8) -> (s: EnvSource)
        ensures
            s@ == rank,
    {
        EnvSource { rank }
    }

    pub(crate) fn lookup(&self, meta: &FieldMeta, env: &Environment) -> (r: Result<
        Option<(ConfigValue, Source)>,
        ConfigError,
    >)
        ensures
            crate::source::lookup_view(r) == env_lookup(*meta, env@),
    {
        match env.read(meta.env_key) {
            None => match meta.generic_env_key {
                Some(g) => env_var_get(env, g),
                None => Ok(None),
            },
            _ => env_var_get(env, meta.env_key),
        }
    }

    pub(crate) fn rank_value(&self) -> (r: u8)
        ensures
            r == self@,
    {
        self.rank
    }
}

impl Default for EnvSource {
    fn default() -> (s: EnvSource)
        ensures
            s@ == 20,
    {
        EnvSource::new()
    }
}


/// The class-specific variable wins over the generic one: when it is set,
/// its value is used; only when it is unset does the generic variable
/// count.
pub proof fn lemma_class_variable_first(meta: FieldMeta, env: Seq<EnvEntryView>)
    ensures
        env_read(env, meta.env_key@) matches EnvRead::Present(v) ==> env_lookup(meta, env) == Ok::<
            Option<(ValueView, SourceView)>,
            ErrorView,
        >(Some((ValueView::Str(v), SourceView::EnvVar { name: meta.env_key@ }))),
        env_read(env, meta.env_key@) is Absent ==> env_lookup(meta, env) == match meta.generic_env_key {
            Some(g) => env_var_lookup(env, g@),
            None => Ok(None),
        },
{
}

} // verus!
