//! Default values: the lowest-priority fallback, looked up by field name.
use vstd::prelude::*;
use crate::provenance::Source;
use crate::text::{chars_of, owned};
use crate::value::{entries_insert, entries_model, entry_lookup, table_get, table_insert, ConfigValue, ValueView};

verus! {

/// Provides default values as the lowest-priority fallback, keyed by field
/// name.
///
/// Default rank: 100 (lowest priority among built-in sources).
#[derive(Debug)]
pub struct DefaultSource {
    defaults: Vec<(String, ConfigValue)>,
    rank: u8,
}

/// The mathematical content of a `DefaultSource`.
pub struct DefaultSourceView {
    pub entries: Seq<(Seq<char>, ValueView)>,
    pub rank: u8,
}

impl View for DefaultSource {
    type V = DefaultSourceView;

    closed spec fn view(&self) -> DefaultSourceView {
        DefaultSourceView { entries: entries_model(self.defaults@), rank: self.rank }
    }
}

impl DefaultSource {
    /// An empty default source with rank 100.
    pub fn new() -> (s: DefaultSource)
        ensures
            s@ == (DefaultSourceView { entries: Seq::<(Seq<char>, ValueView)>::empty(), rank: 100 }),
    {
        let s = DefaultSource { defaults: Vec::new(), rank: 100 };
        assert(entries_model(s.defaults@) =~= Seq::<(Seq<char>, ValueView)>::empty());
        s
    }

    /// Sets the default for field `key`, replacing an earlier one.
    pub fn insert(&mut self, key: &str, value: ConfigValue) -> (r: &mut Self)
        ensures
            r@ == (DefaultSourceView {
                entries: entries_insert(old(self)@.entries, key@, value.model()),
                ..old(self)@
            }),
            *final(self) == *final(r),
    {
        table_insert(&mut self.defaults, owned(key), value);
        self
    }

    /// This source with a different rank.
    pub fn with_rank(self, rank: u8) -> (s: DefaultSource)
        ensures
            s@ == (DefaultSourceView { rank, ..self@ }),
    {
        DefaultSource { rank, ..self }
    }

    pub(crate) fn lookup(&self, name: &str) -> (r: Option<(ConfigValue, Source)>)
        ensures
            match r {
                Some((v, s)) => entry_lookup(self@.entries, name@) == Some(v.model()) && s@
                    == crate::provenance::SourceView::Default,
                None => entry_lookup(self@.entries, name@) is None,
            },
    {
        let k = chars_of(name);
        match table_get(&self.defaults, &k) {
            Some(v) => Some((v.duplicate(), Source::Default)),
            None => None,
        }
    }

    pub(crate) fn rank_value(&self) -> (r: u8)
        ensures
            r == self@.rank,
    {
        self.rank
    }
}

impl Default for DefaultSource {
    fn default() -> (s: DefaultSource)
        ensures
            s@ == (DefaultSourceView { entries: Seq::<(Seq<char>, ValueView)>::empty(), rank: 100 }),
    {
        DefaultSource::new()
    }
}

} // verus!
