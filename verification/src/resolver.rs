//! Resolution of config fields across sources ordered by rank: the first
//! source (lowest rank) with a value wins, the others are recorded as
//! rejected.
use vstd::prelude::*;
use crate::error::{ConfigError, ErrorView};
use crate::field::{field_can_be_missing, type_can_be_missing, FieldMeta};
use crate::provenance::{
    entries_insert, key_position, provenance_entries, provenance_map_insert, provenance_map_new,
    provenance_text, source_text, sources_view, FieldProvenance, ProvenanceMap, ProvenanceView,
    Source, SourceView,
};
use crate::source::default::DefaultSource;
use crate::source::env::{env_read, EnvEntryView, EnvRead, EnvSource, Environment};
use crate::source::file::{FileSource, FileSourceView};
use crate::source::pyproject::PyprojectTomlSource;
use crate::source::{custom_view, source_lookup, source_rank, AnySource, AnySourceView, ConfigSource, UserSource};
use crate::config::{Config, ResolvedConfig, ValueMap};
use crate::text::{lower_text, owned, str_eq, to_uppercase, upper_text};
use crate::value::{display, entry_lookup, ConfigValue, ValueView};

verus! {

/// `x` placed into `s` after every element whose rank is not greater than
/// its own (`s` being in rank order, after the last element of rank at
/// most `x`'s).
pub open spec fn insert_by_rank(s: Seq<AnySourceView>, x: AnySourceView) -> Seq<AnySourceView>
    decreases s.len(),
{
    if s.len() == 0 {
        seq![x]
    } else if source_rank(s.last()) <= source_rank(x) {
        s.push(x)
    } else {
        insert_by_rank(s.drop_last(), x).push(s.last())
    }
}

/// The sources of `s` in rank order, sources of equal rank keeping the
/// order in which they were added.
pub open spec fn sort_by_rank(s: Seq<AnySourceView>) -> Seq<AnySourceView>
    decreases s.len(),
{
    if s.len() == 0 {
        s
    } else {
        insert_by_rank(sort_by_rank(s.drop_last()), s.last())
    }
}

/// The sources of `s` whose rank is `k`, in order.
pub open spec fn of_rank(s: Seq<AnySourceView>, k: u8) -> Seq<AnySourceView>
    decreases s.len(),
{
    if s.len() == 0 {
        s
    } else if source_rank(s.last()) == k {
        of_rank(s.drop_last(), k).push(s.last())
    } else {
        of_rank(s.drop_last(), k)
    }
}

/// Whether `s` is in rank order.
pub open spec fn rank_ordered(s: Seq<AnySourceView>) -> bool {
    forall|i: int, j: int| 0 <= i <= j < s.len() ==> source_rank(s[i]) <= source_rank(s[j])
}

/// The views of a list of sources.
pub open spec fn any_views(s: Seq<AnySource>) -> Seq<AnySourceView> {
    s.map_values(|a: AnySource| a@)
}

proof fn lemma_insert_at(s: Seq<AnySourceView>, x: AnySourceView, p: int)
    requires
        0 <= p <= s.len(),
        forall|j: int| p <= j < s.len() ==> source_rank(#[trigger] s[j]) > source_rank(x),
        p == 0 || source_rank(s[p - 1]) <= source_rank(x),
    ensures
        insert_by_rank(s, x) == s.insert(p, x),
    decreases s.len(),
{
    if p == s.len() {
        if s.len() == 0 {
            assert(s.insert(p, x) =~= seq![x]);
        } else {
            assert(s.insert(p, x) =~= s.push(x));
        }
    } else {
        assert(source_rank(s[s.len() - 1]) > source_rank(x));
        lemma_insert_at(s.drop_last(), x, p);
        assert(s.drop_last().insert(p, x).push(s.last()) =~= s.insert(p, x));
    }
}

proof fn lemma_insert_of_rank(s: Seq<AnySourceView>, x: AnySourceView, k: u8)
    ensures
        of_rank(insert_by_rank(s, x), k) == if source_rank(x) == k {
            of_rank(s, k).push(x)
        } else {
            of_rank(s, k)
        },
    decreases s.len(),
{
    if s.len() == 0 {
        assert(seq![x].drop_last() =~= s);
    } else if source_rank(s.last()) <= source_rank(x) {
        assert(s.push(x).drop_last() =~= s);
    } else {
        lemma_insert_of_rank(s.drop_last(), x, k);
        let t = insert_by_rank(s.drop_last(), x);
        assert(t.push(s.last()).drop_last() =~= t);
    }
}

proof fn lemma_insert_ordered(s: Seq<AnySourceView>, x: AnySourceView)
    requires
        rank_ordered(s),
    ensures
        rank_ordered(insert_by_rank(s, x)),
        insert_by_rank(s, x).len() == s.len() + 1,
        forall|i: int|
            0 <= i < insert_by_rank(s, x).len() ==> source_rank(#[trigger] insert_by_rank(s, x)[i])
                == source_rank(x) || exists|j: int|
                0 <= j < s.len() && source_rank(s[j]) == source_rank(insert_by_rank(s, x)[i]),
    decreases s.len(),
{
    if s.len() == 0 {
    } else if source_rank(s.last()) <= source_rank(x) {
        let r = s.push(x);
        assert forall|i: int| 0 <= i < r.len() implies source_rank(#[trigger] r[i]) == source_rank(x)
            || exists|j: int| 0 <= j < s.len() && source_rank(s[j]) == source_rank(r[i]) by {
            if i < s.len() {
                assert(source_rank(s[i]) == source_rank(r[i]));
            }
        }
    } else {
        let d = s.drop_last();
        assert(rank_ordered(d));
        lemma_insert_ordered(d, x);
        let t = insert_by_rank(d, x);
        let r = t.push(s.last());
        assert forall|i: int| 0 <= i < r.len() implies source_rank(#[trigger] r[i]) == source_rank(x)
            || exists|j: int| 0 <= j < s.len() && source_rank(s[j]) == source_rank(r[i]) by {
            if i < t.len() {
                if source_rank(t[i]) != source_rank(x) {
                    let j = choose|j: int| 0 <= j < d.len() && source_rank(d[j]) == source_rank(t[i]);
                    assert(source_rank(s[j]) == source_rank(r[i]));
                }
            } else {
                assert(source_rank(s[s.len() - 1]) == source_rank(r[i]));
            }
        }
        assert forall|i: int, j: int| 0 <= i <= j < r.len() implies source_rank(r[i]) <= source_rank(
            r[j],
        ) by {
            if j == r.len() - 1 && i < j {
                if source_rank(t[i]) != source_rank(x) {
                    let m = choose|m: int| 0 <= m < d.len() && source_rank(d[m]) == source_rank(t[i]);
                    assert(source_rank(s[m]) <= source_rank(s[s.len() - 1]));
                }
            }
        }
    }
}

/// Sorting leaves the sources in rank order.
pub proof fn lemma_sort_ordered(s: Seq<AnySourceView>)
    ensures
        rank_ordered(sort_by_rank(s)),
        sort_by_rank(s).len() == s.len(),
    decreases s.len(),
{
    if s.len() > 0 {
        lemma_sort_ordered(s.drop_last());
        lemma_insert_ordered(sort_by_rank(s.drop_last()), s.last());
    }
}

/// Sorting keeps, for every rank, the sources of that rank in the order in
/// which they were added (so it is a stable permutation).
pub proof fn lemma_sort_stable(s: Seq<AnySourceView>, k: u8)
    ensures
        of_rank(sort_by_rank(s), k) == of_rank(s, k),
    decreases s.len(),
{
    if s.len() > 0 {
        lemma_sort_stable(s.drop_last(), k);
        lemma_insert_of_rank(sort_by_rank(s.drop_last()), s.last(), k);
    }
}

/// Whether no two sources of `s` share a rank.
pub open spec fn distinct_ranks(s: Seq<AnySourceView>) -> bool {
    forall|i: int, j: int| 0 <= i < j < s.len() ==> source_rank(#[trigger] s[i]) != source_rank(#[trigger] s[j])
}

proof fn lemma_of_rank_none(s: Seq<AnySourceView>, k: u8)
    requires
        forall|i: int| 0 <= i < s.len() ==> source_rank(#[trigger] s[i]) != k,
    ensures
        of_rank(s, k) == Seq::<AnySourceView>::empty(),
    decreases s.len(),
{
    if s.len() > 0 {
        assert(source_rank(s[s.len() - 1]) != k);
        lemma_of_rank_none(s.drop_last(), k);
    }
}

proof fn lemma_of_rank_one(s: Seq<AnySourceView>, i: int)
    requires
        distinct_ranks(s),
        0 <= i < s.len(),
    ensures
        of_rank(s, source_rank(s[i])) == seq![s[i]],
    decreases s.len(),
{
    let k = source_rank(s[i]);
    let d = s.drop_last();
    if i == s.len() - 1 {
        assert forall|j: int| 0 <= j < d.len() implies source_rank(#[trigger] d[j]) != k by {
            assert(source_rank(s[j]) != source_rank(s[i]));
        }
        lemma_of_rank_none(d, k);
        assert(Seq::<AnySourceView>::empty().push(s[i]) =~= seq![s[i]]);
    } else {
        assert(source_rank(s[i]) != source_rank(s[s.len() - 1]));
        assert(d[i] == s[i]);
        lemma_of_rank_one(d, i);
    }
}

proof fn lemma_of_rank_nonempty(s: Seq<AnySourceView>, k: u8)
    requires
        of_rank(s, k).len() > 0,
    ensures
        exists|i: int| 0 <= i < s.len() && source_rank(#[trigger] s[i]) == k,
    decreases s.len(),
{
    if source_rank(s[s.len() - 1]) != k {
        lemma_of_rank_nonempty(s.drop_last(), k);
        let i = choose|i: int| 0 <= i < s.drop_last().len() && source_rank(#[trigger] s.drop_last()[i]) == k;
        assert(s[i] == s.drop_last()[i]);
    }
}

proof fn lemma_ordered_by_ranks(a: Seq<AnySourceView>, b: Seq<AnySourceView>)
    requires
        rank_ordered(a),
        rank_ordered(b),
        forall|k: u8| of_rank(a, k) == of_rank(b, k),
    ensures
        a == b,
    decreases a.len() + b.len(),
{
    if a.len() == 0 && b.len() == 0 {
        assert(a =~= b);
    } else if a.len() == 0 {
        let k = source_rank(b.last());
        assert(of_rank(b, k).len() > 0);
        assert(of_rank(a, k).len() == 0);
    } else if b.len() == 0 {
        let k = source_rank(a.last());
        assert(of_rank(a, k).len() > 0);
        assert(of_rank(b, k).len() == 0);
    } else {
        let ka = source_rank(a.last());
        let kb = source_rank(b.last());
        if ka < kb {
            assert(of_rank(b, kb).len() > 0);
            assert(of_rank(a, kb) == of_rank(b, kb));
            lemma_of_rank_nonempty(a, kb);
            let i = choose|i: int| 0 <= i < a.len() && source_rank(#[trigger] a[i]) == kb;
            assert(source_rank(a[i]) <= source_rank(a[a.len() - 1]));
        } else if kb < ka {
            assert(of_rank(a, ka).len() > 0);
            assert(of_rank(a, ka) == of_rank(b, ka));
            lemma_of_rank_nonempty(b, ka);
            let i = choose|i: int| 0 <= i < b.len() && source_rank(#[trigger] b[i]) == ka;
            assert(source_rank(b[i]) <= source_rank(b[b.len() - 1]));
        } else {
            let da = a.drop_last();
            let db = b.drop_last();
            assert(of_rank(a, ka) == of_rank(b, ka));
            assert(of_rank(a, ka) == of_rank(da, ka).push(a.last()));
            assert(of_rank(b, ka) == of_rank(db, ka).push(b.last()));
            assert(of_rank(da, ka) =~= of_rank(a, ka).drop_last());
            assert(of_rank(db, ka) =~= of_rank(b, ka).drop_last());
            assert(a.last() == of_rank(a, ka).last());
            assert(b.last() == of_rank(b, ka).last());
            assert forall|k: u8| of_rank(da, k) == of_rank(db, k) by {
                if k != ka {
                    assert(of_rank(a, k) == of_rank(da, k));
                    assert(of_rank(b, k) == of_rank(db, k));
                }
            }
            lemma_ordered_by_ranks(da, db);
            assert(a =~= da.push(a.last()));
            assert(b =~= db.push(b.last()));
        }
    }
}

proof fn lemma_same_sources_same_ranks(s1: Seq<AnySourceView>, s2: Seq<AnySourceView>, k: u8)
    requires
        distinct_ranks(s1),
        distinct_ranks(s2),
        forall|x: AnySourceView| s1.contains(x) <==> s2.contains(x),
    ensures
        of_rank(s1, k) == of_rank(s2, k),
{
    if exists|i: int| 0 <= i < s1.len() && source_rank(#[trigger] s1[i]) == k {
        let i = choose|i: int| 0 <= i < s1.len() && source_rank(#[trigger] s1[i]) == k;
        assert(s1.contains(s1[i]));
        let j = choose|j: int| 0 <= j < s2.len() && s2[j] == s1[i];
        lemma_of_rank_one(s1, i);
        lemma_of_rank_one(s2, j);
    } else if exists|j: int| 0 <= j < s2.len() && source_rank(#[trigger] s2[j]) == k {
        let j = choose|j: int| 0 <= j < s2.len() && source_rank(#[trigger] s2[j]) == k;
        assert(s2.contains(s2[j]));
        let i = choose|i: int| 0 <= i < s1.len() && s1[i] == s2[j];
        assert(source_rank(s1[i]) == k);
    } else {
        lemma_of_rank_none(s1, k);
        lemma_of_rank_none(s2, k);
    }
}

/// Adding the same sources in another order leaves the built resolver, and
/// so every resolution, unchanged, as long as no two of them share a rank.
pub proof fn lemma_add_order_irrelevant(s1: Seq<AnySourceView>, s2: Seq<AnySourceView>)
    requires
        s1.to_multiset() == s2.to_multiset(),
        distinct_ranks(s1),
        distinct_ranks(s2),
    ensures
        sort_by_rank(s1) == sort_by_rank(s2),
        forall|fields: Seq<FieldMeta>, env: Seq<EnvEntryView>|
            #[trigger] raw_resolution(sort_by_rank(s1), fields, env) == raw_resolution(sort_by_rank(s2), fields, env),
{
    broadcast use vstd::seq_lib::group_to_multiset_ensures;

    assert forall|x: AnySourceView| s1.contains(x) <==> s2.contains(x) by {
        assert(s1.contains(x) <==> s1.to_multiset().count(x) > 0);
        assert(s2.contains(x) <==> s2.to_multiset().count(x) > 0);
    }
    lemma_sort_ordered(s1);
    lemma_sort_ordered(s2);
    assert forall|k: u8| of_rank(sort_by_rank(s1), k) == of_rank(sort_by_rank(s2), k) by {
        lemma_sort_stable(s1, k);
        lemma_sort_stable(s2, k);
        lemma_same_sources_same_ranks(s1, s2, k);
    }
    lemma_ordered_by_ranks(sort_by_rank(s1), sort_by_rank(s2));
}

fn insert_ranked(v: &mut Vec<AnySource>, x: AnySource)
    ensures
        any_views(final(v)@) == insert_by_rank(any_views(old(v)@), x@),
{
    let r = x.rank();
    let ghost s = any_views(v@);
    let mut pos: usize = v.len();
    while pos > 0
        invariant
            pos <= v@.len(),
            s == any_views(v@),
            r == source_rank(x@),
            forall|j: int| pos <= j < s.len() ==> source_rank(#[trigger] s[j]) > r,
        ensures
            pos <= v@.len(),
            s == any_views(v@),
            forall|j: int| pos <= j < s.len() ==> source_rank(#[trigger] s[j]) > r,
            pos == 0 || source_rank(s[pos - 1]) <= r,
        decreases pos,
    {
        let rp = v[pos - 1].rank();
        if rp <= r {
            break;
        }
        pos = pos - 1;
    }
    proof {
        lemma_insert_at(s, x@, pos as int);
    }
    let ghost before = v@;
    v.insert(pos, x);
    assert(any_views(v@) =~= s.insert(pos as int, x@));
}


/// Builds a `Resolver` from config sources.
pub struct ResolverBuilder {
    sources: Vec<AnySource>,
}

impl View for ResolverBuilder {
    type V = Seq<AnySourceView>;

    closed spec fn view(&self) -> Seq<AnySourceView> {
        any_views(self.sources@)
    }
}

/// Resolves config fields from several sources, tried in rank order.
///
/// The first source (lowest rank) that has a value for a field wins; the
/// later sources that also have one are recorded as rejected.
pub struct Resolver {
    sources: Vec<AnySource>,
}

impl View for Resolver {
    type V = Seq<AnySourceView>;

    closed spec fn view(&self) -> Seq<AnySourceView> {
        any_views(self.sources@)
    }
}

/// Trying the sources `srcs` in order for one field: the first value found
/// with its source, and the sources of the values found after it; or the
/// first error a source reports.
pub open spec fn field_scan(srcs: Seq<AnySourceView>, meta: FieldMeta, env: Seq<EnvEntryView>) -> Result<
    (Option<(ValueView, SourceView)>, Seq<SourceView>),
    ErrorView,
>
    decreases srcs.len(),
{
    if srcs.len() == 0 {
        Ok((None, Seq::empty()))
    } else {
        match field_scan(srcs.drop_last(), meta, env) {
            Err(e) => Err(e),
            Ok((winner, rejected)) => match source_lookup(srcs.last(), meta, env) {
                Err(e) => Err(e),
                Ok(None) => Ok((winner, rejected)),
                Ok(Some((v, s))) => match winner {
                    Some(w) => Ok((Some(w), rejected.push(s))),
                    None => Ok((Some((v, s)), rejected)),
                },
            },
        }
    }
}

/// Whether a field may be left without any value: it has a default or an
/// `Option` type.
pub open spec fn may_be_unset(meta: FieldMeta) -> bool {
    meta.has_default || type_can_be_missing(meta.expected_type@)
}

/// The outcome of resolving one field: its winning value with the
/// provenance record, nothing when no source has a value and the field may
/// stay unset, `MissingRequired` when it may not, or a source's error.
///
/// The record renders the value unless the field is secret.
pub open spec fn field_outcome(srcs: Seq<AnySourceView>, meta: FieldMeta, env: Seq<EnvEntryView>) -> Result<
    Option<(ValueView, ProvenanceView)>,
    ErrorView,
> {
    match field_scan(srcs, meta, env) {
        Err(e) => Err(e),
        Ok((Some((v, s)), rejected)) => Ok(
            Some(
                (
                    v,
                    ProvenanceView {
                        field_name: meta.name@,
                        source: s,
                        is_secret: meta.is_secret,
                        display_value: if meta.is_secret {
                            None
                        } else {
                            Some(display(v))
                        },
                        rejected_sources: rejected,
                    },
                ),
            ),
        ),
        Ok((None, _)) => if may_be_unset(meta) {
            Ok(None)
        } else {
            Err(ErrorView::MissingRequired { field: meta.name@ })
        },
    }
}

/// Resolving `fields` in order: each resolved field's name with its value
/// and provenance, or the first error.
pub open spec fn raw_resolution(
    srcs: Seq<AnySourceView>,
    fields: Seq<FieldMeta>,
    env: Seq<EnvEntryView>,
) -> Result<Seq<(Seq<char>, (ValueView, ProvenanceView))>, ErrorView>
    decreases fields.len(),
{
    if fields.len() == 0 {
        Ok(Seq::empty())
    } else {
        match raw_resolution(srcs, fields.drop_last(), env) {
            Err(e) => Err(e),
            Ok(acc) => match field_outcome(srcs, fields.last(), env) {
                Err(e) => Err(e),
                Ok(None) => Ok(acc),
                Ok(Some(entry)) => Ok(acc.push((fields.last().name@, entry))),
            },
        }
    }
}

/// The value most recently recorded under key `k`.
pub open spec fn latest<V>(e: Seq<(Seq<char>, V)>, k: Seq<char>) -> Option<V>
    decreases e.len(),
{
    if e.len() == 0 {
        None
    } else if e.last().0 == k {
        Some(e.last().1)
    } else {
        latest(e.drop_last(), k)
    }
}

/// The result of resolving a set of fields: for each field name, the
/// winning value and its provenance.
#[derive(Debug)]
pub struct ResolvedRaw {
    entries: Vec<(String, (ConfigValue, FieldProvenance))>,
}

/// The view of one resolved entry.
pub open spec fn raw_entry_view(e: (String, (ConfigValue, FieldProvenance))) -> (
    Seq<char>,
    (ValueView, ProvenanceView),
) {
    (e.0@, (e.1.0.model(), e.1.1@))
}

impl View for ResolvedRaw {
    type V = Seq<(Seq<char>, (ValueView, ProvenanceView))>;

    closed spec fn view(&self) -> Seq<(Seq<char>, (ValueView, ProvenanceView))> {
        self.entries@.map_values(|e: (String, (ConfigValue, FieldProvenance))| raw_entry_view(e))
    }
}

proof fn lemma_latest_prefix<V>(e: Seq<(Seq<char>, V)>, k: Seq<char>, i: int)
    requires
        0 <= i <= e.len(),
        forall|j: int| i <= j < e.len() ==> (#[trigger] e[j]).0 != k,
    ensures
        latest(e, k) == latest(e.take(i), k),
    decreases e.len(),
{
    if e.len() > i {
        lemma_latest_prefix(e.drop_last(), k, i);
        assert(e.drop_last().take(i) =~= e.take(i));
    } else {
        assert(e.take(i) =~= e);
    }
}

impl ResolvedRaw {
    /// The winning value and provenance of field `key`.
    pub fn get(&self, key: &str) -> (r: Option<&(ConfigValue, FieldProvenance)>)
        ensures
            match r {
                Some(p) => latest(self@, key@) == Some((p.0.model(), p.1@)),
                None => latest(self@, key@) is None,
            },
    {
        let mut i: usize = self.entries.len();
        assert(self@.take(i as int) =~= self@);
        while i > 0
            invariant
                i <= self.entries@.len(),
                latest(self@, key@) == latest(self@.take(i as int), key@),
            decreases i,
        {
            if str_eq(self.entries[i - 1].0.as_str(), key) {
                let ghost t = self@.take(i as int);
                assert(t.last() == raw_entry_view(self.entries@[i - 1]));
                return Some(&self.entries[i - 1].1);
            }
            proof {
                let t = self@.take(i as int);
                assert(t.drop_last() =~= self@.take(i - 1));
            }
            i = i - 1;
        }
        None
    }

    /// Whether field `key` was resolved.
    pub fn contains_key(&self, key: &str) -> (r: bool)
        ensures
            r == latest(self@, key@) is Some,
    {
        self.get(key).is_some()
    }
}

/// The view of a lookup's winner so far.
pub open spec fn winner_view(w: Option<(ConfigValue, Source)>) -> Option<(ValueView, SourceView)> {
    match w {
        Some((v, s)) => Some((v.model(), s@)),
        None => None,
    }
}

/// The view of one field's outcome.
pub open spec fn outcome_view(r: Result<Option<(ConfigValue, FieldProvenance)>, ConfigError>) -> Result<
    Option<(ValueView, ProvenanceView)>,
    ErrorView,
> {
    match r {
        Ok(Some((v, p))) => Ok(Some((v.model(), p@))),
        Ok(None) => Ok(None),
        Err(e) => Err(e@),
    }
}

proof fn lemma_scan_err(srcs: Seq<AnySourceView>, meta: FieldMeta, env: Seq<EnvEntryView>, n: int)
    requires
        0 <= n <= srcs.len(),
        field_scan(srcs.take(n), meta, env) is Err,
    ensures
        field_scan(srcs, meta, env) == field_scan(srcs.take(n), meta, env),
    decreases srcs.len(),
{
    if srcs.len() > n {
        assert(srcs.drop_last().take(n) =~= srcs.take(n));
        lemma_scan_err(srcs.drop_last(), meta, env, n);
    } else {
        assert(srcs.take(n) =~= srcs);
    }
}

proof fn lemma_raw_err(srcs: Seq<AnySourceView>, fields: Seq<FieldMeta>, env: Seq<EnvEntryView>, n: int)
    requires
        0 <= n <= fields.len(),
        raw_resolution(srcs, fields.take(n), env) is Err,
    ensures
        raw_resolution(srcs, fields, env) == raw_resolution(srcs, fields.take(n), env),
    decreases fields.len(),
{
    if fields.len() > n {
        assert(fields.drop_last().take(n) =~= fields.take(n));
        lemma_raw_err(srcs, fields.drop_last(), env, n);
    } else {
        assert(fields.take(n) =~= fields);
    }
}

impl Resolver {
    /// A builder with no sources.
    pub fn builder() -> (b: ResolverBuilder)
        ensures
            b@ == Seq::<AnySourceView>::empty(),
    {
        let b = ResolverBuilder { sources: Vec::new() };
        assert(b@ =~= Seq::<AnySourceView>::empty());
        b
    }

    /// Resolves one field against every source, in rank order.
    pub fn resolve_field(&self, field: &FieldMeta, env: &Environment) -> (r: Result<
        Option<(ConfigValue, FieldProvenance)>,
        ConfigError,
    >)
        ensures
            outcome_view(r) == field_outcome(self@, *field, env@),
    {
        let mut winner: Option<(ConfigValue, Source)> = None;
        let mut rejected: Vec<Source> = Vec::new();
        let mut j: usize = 0;
        assert(self@.take(0) =~= Seq::<AnySourceView>::empty());
        assert(sources_view(rejected@) =~= Seq::<SourceView>::empty());
        while j < self.sources.len()
            invariant
                j <= self.sources@.len(),
                field_scan(self@.take(j as int), *field, env@) == Ok::<
                    (Option<(ValueView, SourceView)>, Seq<SourceView>),
                    ErrorView,
                >((winner_view(winner), sources_view(rejected@))),
            decreases self.sources@.len() - j,
        {
            let ghost t = self@.take(j + 1);
            proof {
                assert(t.drop_last() =~= self@.take(j as int));
                assert(t.last() == self.sources@[j as int]@);
            }
            match self.sources[j].get(field, env) {
                Err(e) => {
                    proof {
                        lemma_scan_err(self@, *field, env@, j + 1);
                    }
                    return Err(e);
                },
                Ok(None) => {},
                Ok(Some((val, src))) => {
                    if winner.is_some() {
                        let ghost before = rejected@;
                        let ghost sv = src@;
                        rejected.push(src);
                        assert(sources_view(rejected@) =~= sources_view(before).push(sv));
                    } else {
                        winner = Some((val, src));
                    }
                },
            }
            j = j + 1;
        }
        assert(self@.take(self.sources@.len() as int) =~= self@);
        match winner {
            Some((value, source)) => {
                let display_value = if field.is_secret {
                    None
                } else {
                    Some(value.to_string())
                };
                let prov = FieldProvenance {
                    field_name: owned(field.name),
                    source,
                    is_secret: field.is_secret,
                    display_value,
                    rejected_sources: rejected,
                };
                Ok(Some((value, prov)))
            },
            None => {
                if !field.has_default && !field_can_be_missing(field) {
                    Err(ConfigError::MissingRequired { field: owned(field.name) })
                } else {
                    Ok(None)
                }
            },
        }
    }

    /// Resolves every field in `fields`: the first source in rank order
    /// with a value wins; a field that no source provides must have a
    /// default or an `Option` type, else `MissingRequired`.
    pub fn resolve_raw(&self, fields: &[FieldMeta], env: &Environment) -> (r: Result<
        ResolvedRaw,
        ConfigError,
    >)
        ensures
            match r {
                Ok(raw) => raw_resolution(self@, fields@, env@) == Ok::<
                    Seq<(Seq<char>, (ValueView, ProvenanceView))>,
                    ErrorView,
                >(raw@),
                Err(e) => raw_resolution(self@, fields@, env@) == Err::<
                    Seq<(Seq<char>, (ValueView, ProvenanceView))>,
                    ErrorView,
                >(e@),
            },
    {
        let mut results = ResolvedRaw { entries: Vec::new() };
        assert(results@ =~= Seq::<(Seq<char>, (ValueView, ProvenanceView))>::empty());
        let mut i: usize = 0;
        while i < fields.len()
            invariant
                i <= fields@.len(),
                raw_resolution(self@, fields@.take(i as int), env@) == Ok::<
                    Seq<(Seq<char>, (ValueView, ProvenanceView))>,
                    ErrorView,
                >(results@),
            decreases fields@.len() - i,
        {
            let field = fields[i];
            let ghost t = fields@.take(i + 1);
            proof {
                assert(t.drop_last() =~= fields@.take(i as int));
                assert(t.last() == field);
            }
            match self.resolve_field(&field, env) {
                Err(e) => {
                    proof {
                        lemma_raw_err(self@, fields@, env@, i + 1);
                    }
                    return Err(e);
                },
                Ok(None) => {},
                Ok(Some(entry)) => {
                    let ghost before = results@;
                    results.entries.push((owned(field.name), entry));
                    assert(results@ =~= before.push(raw_entry_view(results.entries@.last())));
                },
            }
            i = i + 1;
        }
        assert(fields@.take(fields@.len() as int) =~= fields@);
        Ok(results)
    }
}


impl ResolverBuilder {
    /// Adds a source. Sources are tried in rank order (lowest rank wins),
    /// sources of equal rank in the order they were added.
    pub fn add_source<S: ConfigSource + 'static>(self, source: S) -> (b: ResolverBuilder)
        ensures
            b@ == self@.push(custom_view(&source)),
    {
        self.push_source(AnySource::Custom(UserSource::new(source)))
    }

    fn push_source(self, a: AnySource) -> (b: ResolverBuilder)
        ensures
            b@ == self@.push(a@),
    {
        let ghost before = self@;
        let ghost av = a@;
        let mut sources = self.sources;
        sources.push(a);
        let b = ResolverBuilder { sources };
        assert(b@ =~= before.push(av));
        b
    }

    /// Adds an environment source with rank 20.
    pub fn env(self) -> (b: ResolverBuilder)
        ensures
            b@ == self@.push(AnySourceView::Env(20)),
    {
        self.push_source(AnySource::Env(EnvSource::new()))
    }

    /// Adds the file named by the class-level variable
    /// `{PREFIX}{SEP}{GROUP}{SEP}FILEPATH`, with rank 30 and scoped to
    /// `group`.
    pub fn add_class_file(self, file: FileSource, group: &str) -> (b: ResolverBuilder)
        ensures
            b@ == self@.push(
                AnySourceView::File(
                    FileSourceView { rank: 30, group: Some(lower_text(group@)), ..file@ },
                ),
            ),
    {
        self.push_source(AnySource::File(file.with_rank(30).with_group(group)))
    }

    /// Adds the file named by the global variable `{PREFIX}{SEP}FILEPATH`,
    /// with rank 35.
    pub fn add_global_file(self, file: FileSource) -> (b: ResolverBuilder)
        ensures
            b@ == self@.push(AnySourceView::File(FileSourceView { rank: 35, ..file@ })),
    {
        self.push_source(AnySource::File(file.with_rank(35)))
    }

    /// Adds a loaded config file with its own rank (40 unless changed).
    pub fn file(self, file: FileSource) -> (b: ResolverBuilder)
        ensures
            b@ == self@.push(AnySourceView::File(file@)),
    {
        self.push_source(AnySource::File(file))
    }

    /// Adds a `pyproject.toml` source (rank 50 unless changed).
    pub fn pyproject_toml(self, source: PyprojectTomlSource) -> (b: ResolverBuilder)
        ensures
            b@ == self@.push(AnySourceView::Pyproject(source@)),
    {
        self.push_source(AnySource::Pyproject(source))
    }

    /// Adds a default source (rank 100 unless changed).
    pub fn defaults(self, defaults: DefaultSource) -> (b: ResolverBuilder)
        ensures
            b@ == self@.push(AnySourceView::Defaults(defaults@)),
    {
        self.push_source(AnySource::Defaults(defaults))
    }

    /// The resolver, with the sources sorted by rank (stable).
    pub fn build(self) -> (r: Resolver)
        ensures
            r@ == sort_by_rank(self@),
    {
        let ghost input = self@;
        let mut src = self.sources;
        let mut out: Vec<AnySource> = Vec::new();
        let mut n: usize = 0;
        let total = src.len();
        assert(input.len() == total);
        assert(input.take(0) =~= Seq::<AnySourceView>::empty());
        assert(any_views(out@) =~= Seq::<AnySourceView>::empty());
        assert(input.skip(0) =~= input);
        while src.len() > 0
            invariant
                n + src@.len() == input.len(),
                input.len() <= usize::MAX,
                any_views(out@) == sort_by_rank(input.take(n as int)),
                any_views(src@) == input.skip(n as int),
            decreases src@.len(),
        {
            let ghost rest = src@;
            let x = src.remove(0);
            proof {
                assert(any_views(rest)[0] == x@);
                assert(input.take(n + 1).drop_last() =~= input.take(n as int));
                assert(input.take(n + 1).last() == input[n as int]);
                assert(src@ =~= rest.subrange(1, rest.len() as int));
                assert forall|i: int| 0 <= i < src@.len() implies #[trigger] any_views(src@)[i]
                    == input.skip(n + 1)[i] by {
                    assert(any_views(src@)[i] == src@[i]@);
                    assert(src@[i] == rest[i + 1]);
                    assert(any_views(rest)[i + 1] == rest[i + 1]@);
                    assert(input.skip(n as int)[i + 1] == input[n + i + 1]);
                }
                assert(any_views(src@) =~= input.skip(n + 1));
            }
            insert_ranked(&mut out, x);
            n = n + 1;
        }
        assert(input.take(n as int) =~= input);
        Resolver { sources: out }
    }
}

/// The variable naming a class-level config file:
/// `{PREFIX}{SEP}{GROUP}{SEP}FILEPATH`, with prefix and group upper-cased.
pub fn class_filepath_env_key(prefix: &str, sep: &str, group: &str) -> (r: String)
    ensures
        r@ == upper_text(prefix@) + sep@ + upper_text(group@) + sep@ + "FILEPATH"@,
{
    let mut r = to_uppercase(prefix);
    r.append(sep);
    let g = to_uppercase(group);
    r.append(g.as_str());
    r.append(sep);
    r.append("FILEPATH");
    r
}

/// The variable naming the global config file: `{PREFIX}{SEP}FILEPATH`,
/// with the prefix upper-cased.
pub fn global_filepath_env_key(prefix: &str, sep: &str) -> (r: String)
    ensures
        r@ == upper_text(prefix@) + sep@ + "FILEPATH"@,
{
    let mut r = to_uppercase(prefix);
    r.append(sep);
    r.append("FILEPATH");
    r
}

/// The path held by variable `key`, when it is set to valid Unicode.
pub fn env_file_path(key: &str, env: &Environment) -> (r: Option<String>)
    ensures
        match r {
            Some(p) => env_read(env@, key@) == EnvRead::Present(p@),
            None => !(env_read(env@, key@) is Present),
        },
{
    match env.read(key) {
        Some(Some(v)) => Some(owned(v)),
        _ => None,
    }
}

/// The class-level file as the resolver holds it, if there is one.
pub open spec fn class_file_entry(file: Option<FileSource>, group: Seq<char>) -> Seq<AnySourceView> {
    match file {
        Some(f) => seq![AnySourceView::File(FileSourceView { rank: 30, group: Some(lower_text(group)), ..f@ })],
        None => Seq::empty(),
    }
}

/// The global file as the resolver holds it, if there is one.
pub open spec fn global_file_entry(file: Option<FileSource>) -> Seq<AnySourceView> {
    match file {
        Some(f) => seq![AnySourceView::File(FileSourceView { rank: 35, ..f@ })],
        None => Seq::empty(),
    }
}

/// The `pyproject.toml` source, if there is one.
pub open spec fn pyproject_entry(source: Option<PyprojectTomlSource>) -> Seq<AnySourceView> {
    match source {
        Some(p) => seq![AnySourceView::Pyproject(p@)],
        None => Seq::empty(),
    }
}

impl Resolver {
    /// The standard resolver: environment (20), the class-level file (30,
    /// scoped to `group`), the global file (35), `pyproject.toml` (50),
    /// each file only when it was found, and the defaults (100).
    pub fn from_env_and_defaults(
        group: &str,
        class_file: Option<FileSource>,
        global_file: Option<FileSource>,
        pyproject: Option<PyprojectTomlSource>,
        defaults: DefaultSource,
    ) -> (r: Resolver)
        ensures
            r@ == sort_by_rank(standard_sources(group@, class_file, global_file, pyproject, defaults)),
    {
        let ghost c = class_file_entry(class_file, group@);
        let ghost g = global_file_entry(global_file);
        let ghost p = pyproject_entry(pyproject);
        let ghost d = seq![AnySourceView::Defaults(defaults@)];
        let mut b = Resolver::builder().env();
        assert(b@ =~= seq![AnySourceView::Env(20)]);
        match class_file {
            Some(f) => {
                b = b.add_class_file(f, group);
            },
            None => {},
        }
        assert(b@ =~= seq![AnySourceView::Env(20)] + c);
        match global_file {
            Some(f) => {
                b = b.add_global_file(f);
            },
            None => {},
        }
        assert(b@ =~= seq![AnySourceView::Env(20)] + c + g);
        match pyproject {
            Some(s) => {
                b = b.pyproject_toml(s);
            },
            None => {},
        }
        assert(b@ =~= seq![AnySourceView::Env(20)] + c + g + p);
        b = b.defaults(defaults);
        assert(b@ =~= seq![AnySourceView::Env(20)] + c + g + p + d);
        b.build()
    }
}


/// The provenance of a field that no source provided: it keeps its
/// default, shown as `None` for an `Option` field without a declared
/// default and as `<default>` otherwise; a secret field shows nothing.
pub open spec fn default_record(meta: FieldMeta) -> ProvenanceView {
    ProvenanceView {
        field_name: meta.name@,
        source: SourceView::Default,
        is_secret: meta.is_secret,
        display_value: if meta.is_secret {
            None
        } else if type_can_be_missing(meta.expected_type@) && !meta.has_default {
            Some("None"@)
        } else {
            Some("<default>"@)
        },
        rejected_sources: Seq::empty(),
    }
}

/// The values and the provenance map built from the raw results, field by
/// field: a resolved field contributes its value and record; an unresolved
/// field that may stay unset contributes a default record only.
pub open spec fn assemble(raw: Seq<(Seq<char>, (ValueView, ProvenanceView))>, fields: Seq<FieldMeta>) -> (
    Seq<(Seq<char>, ValueView)>,
    Seq<(Seq<char>, ProvenanceView)>,
)
    decreases fields.len(),
{
    if fields.len() == 0 {
        (Seq::empty(), Seq::empty())
    } else {
        let (vals, prov) = assemble(raw, fields.drop_last());
        let f = fields.last();
        match latest(raw, f.name@) {
            Some((v, p)) => (vals.push((f.name@, v)), entries_insert(prov, f.name@, p)),
            None => if may_be_unset(f) {
                (vals, entries_insert(prov, f.name@, default_record(f)))
            } else {
                (vals, prov)
            },
        }
    }
}

/// Resolving a config struct with fields `fields`: its values and the
/// provenance of every field, or the first error.
pub open spec fn resolution(srcs: Seq<AnySourceView>, fields: Seq<FieldMeta>, env: Seq<EnvEntryView>) -> Result<
    (Seq<(Seq<char>, ValueView)>, Seq<(Seq<char>, ProvenanceView)>),
    ErrorView,
> {
    match raw_resolution(srcs, fields, env) {
        Err(e) => Err(e),
        Ok(raw) => Ok(assemble(raw, fields)),
    }
}

/// Whether `rc` is what resolving the fields `fields` (as `T::fields`
/// gives them) against `srcs` in `env` and building the struct from the
/// resolved values `vm` (with `T::from_values`) gives.
pub open spec fn resolved_and_built<T: Config>(
    srcs: Seq<AnySourceView>,
    env: Seq<EnvEntryView>,
    fields: &'static [FieldMeta],
    vm: ValueMap,
    rc: ResolvedConfig<T>,
) -> bool {
    &&& call_ensures(T::fields, (), fields)
    &&& resolution(srcs, fields@, env) == Ok::<
        (Seq<(Seq<char>, ValueView)>, Seq<(Seq<char>, ProvenanceView)>),
        ErrorView,
    >((vm@, provenance_entries(rc.provenance)))
    &&& call_ensures(T::from_values, (&vm,), Ok::<T, ConfigError>(rc.value))
}

/// Whether `e` is what resolving a struct with fields `fields` (as
/// `T::fields` gives them) against `srcs` in `env` fails with: the
/// resolution's error, or else the error `T::from_values` returns for the
/// resolved values `vm`.
pub open spec fn resolve_failed<T: Config>(
    srcs: Seq<AnySourceView>,
    env: Seq<EnvEntryView>,
    fields: &'static [FieldMeta],
    vm: ValueMap,
    e: ConfigError,
) -> bool {
    &&& call_ensures(T::fields, (), fields)
    &&& match resolution(srcs, fields@, env) {
        Err(re) => re == e@,
        Ok((vals, _)) => vals == vm@ && call_ensures(
            T::from_values,
            (&vm,),
            Err::<T, ConfigError>(e),
        ),
    }
}

impl Resolver {
    /// Resolves the fields of a config struct: the values to build it from,
    /// and a provenance record for every field, in field order.
    pub fn resolve_fields(&self, fields: &[FieldMeta], env: &Environment) -> (r: Result<
        (ValueMap, ProvenanceMap),
        ConfigError,
    >)
        ensures
            match r {
                Ok((vals, prov)) => resolution(self@, fields@, env@) == Ok::<
                    (Seq<(Seq<char>, ValueView)>, Seq<(Seq<char>, ProvenanceView)>),
                    ErrorView,
                >((vals@, provenance_entries(prov))),
                Err(e) => resolution(self@, fields@, env@) == Err::<
                    (Seq<(Seq<char>, ValueView)>, Seq<(Seq<char>, ProvenanceView)>),
                    ErrorView,
                >(e@),
            },
    {
        let raw = match self.resolve_raw(fields, env) {
            Ok(raw) => raw,
            Err(e) => return Err(e),
        };
        let mut values = ValueMap::new();
        let mut provenance = provenance_map_new();
        let mut i: usize = 0;
        assert(fields@.take(0) =~= Seq::<FieldMeta>::empty());
        while i < fields.len()
            invariant
                i <= fields@.len(),
                assemble(raw@, fields@.take(i as int)) == (values@, provenance_entries(provenance)),
            decreases fields@.len() - i,
        {
            let field = fields[i];
            proof {
                let t = fields@.take(i + 1);
                assert(t.drop_last() =~= fields@.take(i as int));
                assert(t.last() == field);
            }
            match raw.get(field.name) {
                Some(entry) => {
                    values.insert(field.name, entry.0.duplicate());
                    provenance_map_insert(&mut provenance, owned(field.name), entry.1.duplicate());
                },
                None => {
                    let missing_ok = field_can_be_missing(&field);
                    if field.has_default || missing_ok {
                        let display = if field.is_secret {
                            None
                        } else if missing_ok && !field.has_default {
                            Some(owned("None"))
                        } else {
                            Some(owned("<default>"))
                        };
                        let record = FieldProvenance {
                            field_name: owned(field.name),
                            source: Source::Default,
                            is_secret: field.is_secret,
                            display_value: display,
                            rejected_sources: Vec::new(),
                        };
                        assert(record@.rejected_sources =~= Seq::<SourceView>::empty());
                        provenance_map_insert(&mut provenance, owned(field.name), record);
                    }
                },
            }
            i = i + 1;
        }
        assert(fields@.take(fields@.len() as int) =~= fields@);
        Ok((values, provenance))
    }

    /// Resolves a config struct: its fields (`T::fields`) are resolved
    /// against every source, then the struct is built (`T::from_values`)
    /// from the resolved values.
    ///
    /// On success the provenance is that of resolving the struct's fields and
    /// the value is what `from_values` built from the resolved values; an
    /// error is either the resolution's error or the one `from_values`
    /// returned for the resolved values.
    pub fn resolve<T: Config>(&self, env: &Environment) -> (r: Result<ResolvedConfig<T>, ConfigError>)
        ensures
            r matches Ok(rc) ==> exists|fl: &'static [FieldMeta], vm: ValueMap|
                #[trigger] resolved_and_built(self@, env@, fl, vm, rc),
            r matches Err(e) ==> exists|fl: &'static [FieldMeta], vm: ValueMap|
                #[trigger] resolve_failed::<T>(self@, env@, fl, vm, e),
    {
        let get_fields = T::fields;
        let fields = get_fields();
        let (values, provenance) = match self.resolve_fields(fields, env) {
            Ok(p) => p,
            Err(e) => {
                let ghost vm: ValueMap = arbitrary();
                assert(resolve_failed::<T>(self@, env@, fields, vm, e));
                return Err(e);
            },
        };
        let build = T::from_values;
        match build(&values) {
            Ok(value) => {
                let rc = ResolvedConfig { value, provenance };
                let ghost g = rc;
                assert(resolved_and_built(self@, env@, fields, values, g));
                let res: Result<ResolvedConfig<T>, ConfigError> = Ok(rc);
                assert(res->Ok_0 == g);
                res
            },
            Err(e) => {
                assert(resolve_failed::<T>(self@, env@, fields, values, e));
                Err(e)
            },
        }
    }
}


/// The values the sources give for a field, in source order.
pub open spec fn found_values(srcs: Seq<AnySourceView>, meta: FieldMeta, env: Seq<EnvEntryView>) -> Seq<
    (ValueView, SourceView),
>
    decreases srcs.len(),
{
    if srcs.len() == 0 {
        Seq::empty()
    } else {
        match source_lookup(srcs.last(), meta, env) {
            Ok(Some(p)) => found_values(srcs.drop_last(), meta, env).push(p),
            _ => found_values(srcs.drop_last(), meta, env),
        }
    }
}

/// Whether no source reports an error for the field.
pub open spec fn no_source_fails(srcs: Seq<AnySourceView>, meta: FieldMeta, env: Seq<EnvEntryView>) -> bool {
    forall|i: int| 0 <= i < srcs.len() ==> #[trigger] source_lookup(srcs[i], meta, env) is Ok
}

/// When no source fails, the first value found wins and the sources of all
/// later values are the rejected ones, in order.
pub proof fn lemma_first_value_wins(srcs: Seq<AnySourceView>, meta: FieldMeta, env: Seq<EnvEntryView>)
    requires
        no_source_fails(srcs, meta, env),
    ensures
        field_scan(srcs, meta, env) == Ok::<(Option<(ValueView, SourceView)>, Seq<SourceView>), ErrorView>(
            if found_values(srcs, meta, env).len() == 0 {
                (None, Seq::empty())
            } else {
                (
                    Some(found_values(srcs, meta, env)[0]),
                    found_values(srcs, meta, env).drop_first().map_values(
                        |p: (ValueView, SourceView)| p.1,
                    ),
                )
            },
        ),
    decreases srcs.len(),
{
    if srcs.len() > 0 {
        let d = srcs.drop_last();
        assert forall|i: int| 0 <= i < d.len() implies #[trigger] source_lookup(d[i], meta, env) is Ok by {
            assert(d[i] == srcs[i]);
        }
        lemma_first_value_wins(d, meta, env);
        assert(source_lookup(srcs[srcs.len() - 1], meta, env) is Ok);
        let f0 = found_values(d, meta, env);
        match source_lookup(srcs.last(), meta, env) {
            Ok(Some(p)) => {
                let f = f0.push(p);
                if f0.len() == 0 {
                    assert(f.drop_first().map_values(|q: (ValueView, SourceView)| q.1) =~= Seq::<
                        SourceView,
                    >::empty());
                } else {
                    assert(f.drop_first().map_values(|q: (ValueView, SourceView)| q.1) =~= f0.drop_first().map_values(
                        |q: (ValueView, SourceView)| q.1,
                    ).push(p.1));
                }
            },
            _ => {},
        }
    }
}

/// When a source fails, the error reported is that of the first failing
/// source in order.
pub proof fn lemma_first_error_reported(
    srcs: Seq<AnySourceView>,
    meta: FieldMeta,
    env: Seq<EnvEntryView>,
    i: int,
)
    requires
        0 <= i < srcs.len(),
        source_lookup(srcs[i], meta, env) is Err,
        no_source_fails(srcs.take(i), meta, env),
    ensures
        field_scan(srcs, meta, env) == Err::<(Option<(ValueView, SourceView)>, Seq<SourceView>), ErrorView>(
            source_lookup(srcs[i], meta, env)->Err_0,
        ),
    decreases srcs.len(),
{
    if srcs.len() == i + 1 {
        assert(srcs.drop_last() =~= srcs.take(i));
        lemma_first_value_wins(srcs.take(i), meta, env);
    } else {
        let d = srcs.drop_last();
        assert(d.take(i) =~= srcs.take(i));
        lemma_first_error_reported(d, meta, env, i);
    }
}


proof fn lemma_found_values_from(srcs: Seq<AnySourceView>, meta: FieldMeta, env: Seq<EnvEntryView>)
    ensures
        forall|k: int|
            #![trigger found_values(srcs, meta, env)[k]]
            0 <= k < found_values(srcs, meta, env).len() ==> exists|i: int|
                0 <= i < srcs.len() && #[trigger] source_lookup(srcs[i], meta, env) == Ok::<
                    Option<(ValueView, SourceView)>,
                    ErrorView,
                >(Some(found_values(srcs, meta, env)[k])),
        (exists|i: int| 0 <= i < srcs.len() && #[trigger] source_lookup(srcs[i], meta, env) matches Ok(Some(_)))
            ==> found_values(srcs, meta, env).len() > 0,
    decreases srcs.len(),
{
    if srcs.len() > 0 {
        let d = srcs.drop_last();
        lemma_found_values_from(d, meta, env);
        let f0 = found_values(d, meta, env);
        let f = found_values(srcs, meta, env);
        assert forall|k: int| #![trigger f[k]] 0 <= k < f.len() implies exists|i: int|
            0 <= i < srcs.len() && #[trigger] source_lookup(srcs[i], meta, env) == Ok::<
                Option<(ValueView, SourceView)>,
                ErrorView,
            >(Some(f[k])) by {
            if k < f0.len() {
                assert(f[k] == f0[k]);
                let i = choose|i: int|
                    0 <= i < d.len() && #[trigger] source_lookup(d[i], meta, env) == Ok::<
                        Option<(ValueView, SourceView)>,
                        ErrorView,
                    >(Some(f0[k]));
                assert(srcs[i] == d[i]);
            } else {
                assert(source_lookup(srcs[srcs.len() - 1], meta, env) == Ok::<
                    Option<(ValueView, SourceView)>,
                    ErrorView,
                >(Some(f[k])));
            }
        }
        if exists|i: int| 0 <= i < srcs.len() && #[trigger] source_lookup(srcs[i], meta, env) matches Ok(Some(_)) {
            let i = choose|i: int| 0 <= i < srcs.len() && #[trigger] source_lookup(srcs[i], meta, env) matches Ok(Some(_));
            if i < d.len() {
                assert(srcs[i] == d[i]);
                assert(source_lookup(d[i], meta, env) matches Ok(Some(_)));
            }
        }
    }
}

/// Whether every source of `srcs` that has a value for the field is
/// `srcs[j]` itself.
pub open spec fn only_source_with_value(srcs: Seq<AnySourceView>, j: int, meta: FieldMeta, env: Seq<EnvEntryView>) -> bool {
    forall|i: int|
        0 <= i < srcs.len() && (#[trigger] source_lookup(srcs[i], meta, env) matches Ok(Some(_))) ==> srcs[i]
            == srcs[j]
}

/// A defaults source that has an entry for a field answers it: when no
/// source fails, the field resolves; and when no other source has a value
/// for it, it resolves to the default, from `Source::Default`.
pub proof fn lemma_defaults_answer(srcs: Seq<AnySourceView>, j: int, meta: FieldMeta, env: Seq<EnvEntryView>)
    requires
        0 <= j < srcs.len(),
        srcs[j] is Defaults,
        entry_lookup(srcs[j]->Defaults_0.entries, meta.name@) is Some,
        no_source_fails(srcs, meta, env),
    ensures
        field_outcome(srcs, meta, env) matches Ok(Some(_)),
        only_source_with_value(srcs, j, meta, env) ==> (field_outcome(srcs, meta, env) matches Ok(
            Some((v, p)),
        ) && v == entry_lookup(srcs[j]->Defaults_0.entries, meta.name@)->Some_0 && p.source
            == SourceView::Default),
{
    lemma_first_value_wins(srcs, meta, env);
    lemma_found_values_from(srcs, meta, env);
    assert(source_lookup(srcs[j], meta, env) matches Ok(Some(_)));
    let f = found_values(srcs, meta, env);
    assert(f.len() > 0);
    if only_source_with_value(srcs, j, meta, env) {
        let i = choose|i: int|
            0 <= i < srcs.len() && #[trigger] source_lookup(srcs[i], meta, env) == Ok::<
                Option<(ValueView, SourceView)>,
                ErrorView,
            >(Some(f[0]));
        assert(srcs[i] == srcs[j]);
    }
}

proof fn lemma_of_rank_contains(s: Seq<AnySourceView>, x: AnySourceView)
    ensures
        s.contains(x) <==> of_rank(s, source_rank(x)).contains(x),
    decreases s.len(),
{
    if s.len() > 0 {
        let d = s.drop_last();
        let k = source_rank(x);
        lemma_of_rank_contains(d, x);
        if s.contains(x) {
            let i = choose|i: int| 0 <= i < s.len() && s[i] == x;
            if i < d.len() {
                assert(d[i] == x);
                assert(d.contains(x));
                let o = of_rank(d, k);
                let m = choose|m: int| 0 <= m < o.len() && o[m] == x;
                if source_rank(s.last()) == k {
                    assert(of_rank(s, k)[m] == x);
                } else {
                    assert(of_rank(s, k) == o);
                }
            } else {
                assert(of_rank(s, k) == of_rank(d, k).push(x));
                assert(of_rank(s, k)[of_rank(d, k).len() as int] == x);
            }
        }
        if of_rank(s, k).contains(x) {
            let o = of_rank(s, k);
            let m = choose|m: int| 0 <= m < o.len() && o[m] == x;
            if source_rank(s.last()) == k {
                if m < of_rank(d, k).len() {
                    assert(of_rank(d, k)[m] == x);
                    let i = choose|i: int| 0 <= i < d.len() && d[i] == x;
                    assert(s[i] == x);
                } else {
                    assert(s[s.len() - 1] == x);
                }
            } else {
                assert(of_rank(d, k)[m] == x);
                let i = choose|i: int| 0 <= i < d.len() && d[i] == x;
                assert(s[i] == x);
            }
        }
    }
}

/// Sorting keeps exactly the sources that were added.
pub proof fn lemma_sort_same_sources(s: Seq<AnySourceView>, x: AnySourceView)
    ensures
        sort_by_rank(s).contains(x) <==> s.contains(x),
{
    lemma_of_rank_contains(s, x);
    lemma_of_rank_contains(sort_by_rank(s), x);
    lemma_sort_stable(s, source_rank(x));
}

/// The sources of the standard resolver, in the order in which they are
/// added.
pub open spec fn standard_sources(
    group: Seq<char>,
    class_file: Option<FileSource>,
    global_file: Option<FileSource>,
    pyproject: Option<PyprojectTomlSource>,
    defaults: DefaultSource,
) -> Seq<AnySourceView> {
    seq![AnySourceView::Env(20)] + class_file_entry(class_file, group) + global_file_entry(global_file)
        + pyproject_entry(pyproject) + seq![AnySourceView::Defaults(defaults@)]
}

/// In the standard resolver, a field that the defaults have an entry for
/// is answered when no source fails; and when neither the environment nor
/// any of the files has a value for it, it takes the default, from
/// `Source::Default`.
pub proof fn lemma_standard_defaults_answer(
    group: Seq<char>,
    class_file: Option<FileSource>,
    global_file: Option<FileSource>,
    pyproject: Option<PyprojectTomlSource>,
    defaults: DefaultSource,
    meta: FieldMeta,
    env: Seq<EnvEntryView>,
)
    requires
        entry_lookup(defaults@.entries, meta.name@) is Some,
        no_source_fails(standard_sources(group, class_file, global_file, pyproject, defaults), meta, env),
    ensures
        field_outcome(
            sort_by_rank(standard_sources(group, class_file, global_file, pyproject, defaults)),
            meta,
            env,
        ) matches Ok(Some(_)),
        (forall|i: int|
            0 <= i < standard_sources(group, class_file, global_file, pyproject, defaults).len() - 1
                ==> #[trigger] source_lookup(
                standard_sources(group, class_file, global_file, pyproject, defaults)[i],
                meta,
                env,
            ) == Ok::<Option<(ValueView, SourceView)>, ErrorView>(None)) ==> (field_outcome(
            sort_by_rank(standard_sources(group, class_file, global_file, pyproject, defaults)),
            meta,
            env,
        ) matches Ok(Some((v, p))) && v == entry_lookup(defaults@.entries, meta.name@)->Some_0
            && p.source == SourceView::Default),
{
    let s = standard_sources(group, class_file, global_file, pyproject, defaults);
    let t = sort_by_rank(s);
    let dv = AnySourceView::Defaults(defaults@);
    let n = s.len() - 1;
    assert(s[n] == dv);
    assert(s.contains(dv));
    lemma_sort_same_sources(s, dv);
    lemma_sort_ordered(s);
    let j = choose|j: int| 0 <= j < t.len() && t[j] == dv;
    assert forall|i: int| 0 <= i < t.len() implies #[trigger] source_lookup(t[i], meta, env) is Ok by {
        assert(t.contains(t[i]));
        lemma_sort_same_sources(s, t[i]);
        let k = choose|k: int| 0 <= k < s.len() && s[k] == t[i];
        assert(source_lookup(s[k], meta, env) is Ok);
    }
    lemma_defaults_answer(t, j, meta, env);
    if forall|i: int|
        0 <= i < n ==> #[trigger] source_lookup(s[i], meta, env) == Ok::<
            Option<(ValueView, SourceView)>,
            ErrorView,
        >(None) {
        assert forall|i: int|
            0 <= i < t.len() && (#[trigger] source_lookup(t[i], meta, env) matches Ok(Some(_))) implies t[i]
                == t[j] by {
            assert(t.contains(t[i]));
            lemma_sort_same_sources(s, t[i]);
            let k = choose|k: int| 0 <= k < s.len() && s[k] == t[i];
            if k < n {
                assert(source_lookup(s[k], meta, env) == Ok::<
                    Option<(ValueView, SourceView)>,
                    ErrorView,
                >(None));
            }
        }
    }
}

/// A secret field never has its value rendered: its record carries no
/// rendering and shows `<secret>`, whether a source provided the value or
/// the field kept its default.
pub proof fn lemma_secret_value_hidden(srcs: Seq<AnySourceView>, meta: FieldMeta, env: Seq<EnvEntryView>)
    requires
        meta.is_secret,
    ensures
        field_outcome(srcs, meta, env) matches Ok(Some((_, p))) ==> p.is_secret
            && p.display_value is None && provenance_text(p) == meta.name@ + " = "@ + "<secret>"@
            + " [from: "@ + source_text(p.source) + "]"@,
        default_record(meta).is_secret,
        default_record(meta).display_value is None,
        provenance_text(default_record(meta)) == meta.name@ + " = "@ + "<secret>"@ + " [from: "@
            + source_text(SourceView::Default) + "]"@,
{
}

/// When no source fails and none has a value, a field that may stay unset
/// is left unresolved, and any other field is `MissingRequired`.
pub proof fn lemma_missing_required(srcs: Seq<AnySourceView>, meta: FieldMeta, env: Seq<EnvEntryView>)
    requires
        no_source_fails(srcs, meta, env),
        found_values(srcs, meta, env).len() == 0,
    ensures
        field_outcome(srcs, meta, env) == if may_be_unset(meta) {
            Ok::<Option<(ValueView, ProvenanceView)>, ErrorView>(None)
        } else {
            Err::<Option<(ValueView, ProvenanceView)>, ErrorView>(
                ErrorView::MissingRequired { field: meta.name@ },
            )
        },
{
    lemma_first_value_wins(srcs, meta, env);
}

proof fn lemma_key_position_exists(e: Seq<(Seq<char>, ProvenanceView)>, k: Seq<char>)
    ensures
        key_position(e, k) is Some <==> exists|j: int| 0 <= j < e.len() && #[trigger] e[j].0 == k,
    decreases e.len(),
{
    if e.len() > 0 {
        let d = e.drop_last();
        lemma_key_position_exists(d, k);
        if exists|j: int| 0 <= j < e.len() && #[trigger] e[j].0 == k {
            if key_position(d, k) is None && e.last().0 != k {
                let j = choose|j: int| 0 <= j < e.len() && #[trigger] e[j].0 == k;
                assert(d[j].0 == k);
            }
        }
        if key_position(d, k) is Some {
            let j = choose|j: int| 0 <= j < d.len() && #[trigger] d[j].0 == k;
            assert(e[j].0 == k);
        }
        if e.last().0 == k {
            assert(e[e.len() - 1].0 == k);
        }
    }
}

proof fn lemma_insert_keeps_keys(e: Seq<(Seq<char>, ProvenanceView)>, k: Seq<char>, v: ProvenanceView, other: Seq<char>)
    ensures
        key_position(entries_insert(e, k, v), k) is Some,
        key_position(e, other) is Some ==> key_position(entries_insert(e, k, v), other) is Some,
{
    let n = entries_insert(e, k, v);
    lemma_key_position_exists(e, k);
    lemma_key_position_exists(n, k);
    lemma_key_position_exists(e, other);
    lemma_key_position_exists(n, other);
    match key_position(e, k) {
        Some(i) => {
            lemma_key_position_shape(e, k);
            assert(n[i].0 == k);
            if key_position(e, other) is Some {
                let j = choose|j: int| 0 <= j < e.len() && #[trigger] e[j].0 == other;
                assert(n[j].0 == other);
            }
        },
        None => {
            assert(n[e.len() as int].0 == k);
            if key_position(e, other) is Some {
                let j = choose|j: int| 0 <= j < e.len() && #[trigger] e[j].0 == other;
                assert(n[j].0 == other);
            }
        },
    }
}

proof fn lemma_key_position_shape(e: Seq<(Seq<char>, ProvenanceView)>, k: Seq<char>)
    ensures
        key_position(e, k) matches Some(i) ==> 0 <= i < e.len() && e[i].0 == k,
    decreases e.len(),
{
    if e.len() > 0 {
        lemma_key_position_shape(e.drop_last(), k);
    }
}

proof fn lemma_latest_push_some<V>(e: Seq<(Seq<char>, V)>, x: (Seq<char>, V), k: Seq<char>)
    ensures
        latest(e, k) is Some ==> latest(e.push(x), k) is Some,
        x.0 == k ==> latest(e.push(x), k) == Some(x.1),
{
    assert(e.push(x).drop_last() =~= e);
}

proof fn lemma_raw_settles_fields(srcs: Seq<AnySourceView>, fields: Seq<FieldMeta>, env: Seq<EnvEntryView>)
    ensures
        raw_resolution(srcs, fields, env) matches Ok(raw) ==> forall|i: int|
            0 <= i < fields.len() ==> latest(raw, #[trigger] fields[i].name@) is Some || may_be_unset(
                fields[i],
            ),
    decreases fields.len(),
{
    if fields.len() > 0 {
        let d = fields.drop_last();
        lemma_raw_settles_fields(srcs, d, env);
        match raw_resolution(srcs, d, env) {
            Ok(acc) => {
                let f = fields.last();
                match field_outcome(srcs, f, env) {
                    Ok(Some(entry)) => {
                        let raw = acc.push((f.name@, entry));
                        assert forall|i: int| 0 <= i < fields.len() implies latest(
                            raw,
                            #[trigger] fields[i].name@,
                        ) is Some || may_be_unset(fields[i]) by {
                            lemma_latest_push_some(acc, (f.name@, entry), fields[i].name@);
                            if i < d.len() {
                                assert(d[i] == fields[i]);
                            }
                        }
                    },
                    Ok(None) => {
                        assert forall|i: int| 0 <= i < fields.len() implies latest(
                            acc,
                            #[trigger] fields[i].name@,
                        ) is Some || may_be_unset(fields[i]) by {
                            if i < d.len() {
                                assert(d[i] == fields[i]);
                            }
                        }
                    },
                    Err(_) => {},
                }
            },
            Err(_) => {},
        }
    }
}

proof fn lemma_assemble_records(raw: Seq<(Seq<char>, (ValueView, ProvenanceView))>, fields: Seq<FieldMeta>)
    ensures
        forall|i: int|
            0 <= i < fields.len() && (latest(raw, #[trigger] fields[i].name@) is Some || may_be_unset(
                fields[i],
            )) ==> key_position(assemble(raw, fields).1, fields[i].name@) is Some,
    decreases fields.len(),
{
    if fields.len() > 0 {
        let d = fields.drop_last();
        lemma_assemble_records(raw, d);
        let (vals, prov) = assemble(raw, d);
        let f = fields.last();
        assert forall|i: int|
            0 <= i < fields.len() && (latest(raw, #[trigger] fields[i].name@) is Some || may_be_unset(
                fields[i],
            )) implies key_position(assemble(raw, fields).1, fields[i].name@) is Some by {
            if i < d.len() {
                assert(d[i] == fields[i]);
            }
            match latest(raw, f.name@) {
                Some((v, p)) => {
                    lemma_insert_keeps_keys(prov, f.name@, p, fields[i].name@);
                },
                None => {
                    if may_be_unset(f) {
                        lemma_insert_keeps_keys(prov, f.name@, default_record(f), fields[i].name@);
                    }
                },
            }
        }
    }
}

/// A successful resolution has a provenance record for every field.
pub proof fn lemma_resolution_records_every_field(
    srcs: Seq<AnySourceView>,
    fields: Seq<FieldMeta>,
    env: Seq<EnvEntryView>,
)
    ensures
        resolution(srcs, fields, env) matches Ok((_, prov)) ==> forall|i: int|
            0 <= i < fields.len() ==> key_position(prov, #[trigger] fields[i].name@) is Some,
{
    lemma_raw_settles_fields(srcs, fields, env);
    match raw_resolution(srcs, fields, env) {
        Ok(raw) => {
            lemma_assemble_records(raw, fields);
        },
        Err(_) => {},
    }
}

} // verus!
