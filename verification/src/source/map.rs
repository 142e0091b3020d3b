//! A source backed by an in-memory map, looked up by field name.
use vstd::prelude::*;
use crate::provenance::Source;
use crate::text::owned;
use crate::value::{entries_insert, entries_model, table_get, table_insert, ConfigValue, ValueView};
use crate::text::chars_of;

verus! {

/// A config source backed by an in-memory map, keyed by field name.
///
/// Default rank: 10 (overrides every other built-in source).
#[derive(Debug)]
pub struct MapSource {
    label: String,
    entries: Vec<(String, ConfigValue)>,
    rank: u8,
}

/// The mathematical content of a `MapSource`.
pub struct MapSourceView {
    pub label: Seq<char>,
    pub entries: Seq<(Seq<char>, ValueView)>,
    pub rank: u8,
}

impl View for MapSource {
    type V = MapSourceView;

    closed spec fn view(&self) -> MapSourceView {
        MapSourceView { label: self.label@, entries: entries_model(self.entries@), rank: self.rank }
    }
}

impl MapSource {
    /// An empty map source with the given label and rank 10.
    pub fn new(label: &str) -> (s: MapSource)
        ensures
            s@ == (MapSourceView {
                label: label@,
                entries: Seq::<(Seq<char>, ValueView)>::empty(),
                rank: 10,
            }),
    {
        let s = MapSource { label: owned(label), entries: Vec::new(), rank: 10 };
        assert(entries_model(s.entries@) =~= Seq::<(Seq<char>, ValueView)>::empty());
        s
    }

    /// Sets the value for field `key`, replacing an earlier value.
    pub fn insert(&mut self, key: &str, value: ConfigValue) -> (r: &mut Self)
        ensures
            r@ == (MapSourceView {
                entries: entries_insert(old(self)@.entries, key@, value.model()),
                ..old(self)@
            }),
            *final(self) == *final(r),
    {
        table_insert(&mut self.entries, owned(key), value);
        self
    }

    /// This source with a different rank.
    pub fn with_rank(self, rank: u8) -> (s: MapSource)
        ensures
            s@ == (MapSourceView { rank, ..self@ }),
    {
        MapSource { rank, ..self }
    }

    pub(crate) fn lookup(&self, name: &str) -> (r: Option<(ConfigValue, Source)>)
        ensures
            match r {
                Some((v, s)) => crate::value::entry_lookup(self@.entries, name@) == Some(v.model())
                    && s@ == crate::provenance::SourceView::Mapping { label: self@.label },
                None => crate::value::entry_lookup(self@.entries, name@) is None,
            },
    {
        let k = chars_of(name);
        match table_get(&self.entries, &k) {
            Some(v) => Some((v.duplicate(), Source::Mapping { label: self.label.clone() })),
            None => None,
        }
    }

    pub(crate) fn rank_value(&self) -> (r: u8)
        ensures
            r == self@.rank,
    {
        self.rank
    }
}

} // verus!
