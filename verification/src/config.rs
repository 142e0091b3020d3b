//! The trait that config structs implement, the values handed to them, and
//! a resolved struct bundled with its provenance.
use vstd::prelude::*;
use crate::error::{ConfigError, ErrorView};
use crate::field::FieldMeta;
use crate::provenance::{provenance_entries, provenance_map_get_index, provenance_map_len, provenance_text, ProvenanceMap, ProvenanceView};
use crate::resolver::latest;
use crate::text::{chars_of, has_prefix, owned, str_eq, string_from_chars, vec_starts_with};
use crate::value::{ConfigValue, ValueView};

verus! {

/// The resolved values of a config struct's fields, by field name.
#[derive(Debug)]
pub struct ValueMap {
    entries: Vec<(String, ConfigValue)>,
}

/// The view of one value entry.
pub open spec fn value_entry_view(e: (String, ConfigValue)) -> (Seq<char>, ValueView) {
    (e.0@, e.1.model())
}

impl View for ValueMap {
    type V = Seq<(Seq<char>, ValueView)>;

    closed spec fn view(&self) -> Seq<(Seq<char>, ValueView)> {
        self.entries@.map_values(|e: (String, ConfigValue)| value_entry_view(e))
    }
}

impl ValueMap {
    /// An empty map.
    pub fn new() -> (m: ValueMap)
        ensures
            m@ == Seq::<(Seq<char>, ValueView)>::empty(),
    {
        let m = ValueMap { entries: Vec::new() };
        assert(m@ =~= Seq::<(Seq<char>, ValueView)>::empty());
        m
    }

    /// Records `value` for `key`; a later value for a key replaces an
    /// earlier one.
    pub fn insert(&mut self, key: &str, value: ConfigValue)
        ensures
            final(self)@ == old(self)@.push((key@, value.model())),
    {
        let ghost before = self@;
        self.entries.push((owned(key), value));
        assert(self@ =~= before.push(value_entry_view(self.entries@.last())));
    }

    /// The value recorded for `key`.
    pub fn get(&self, key: &str) -> (r: Option<&ConfigValue>)
        ensures
            match r {
                Some(v) => latest(self@, key@) == Some(v.model()),
                None => latest(self@, key@) is None,
            },
    {
        let mut i: usize = self.entries.len();
        assert(self@.take(i as int) =~= self@);
        while i > 0
            invariant
                i <= self.entries@.len(),
                latest(self@, key@) == latest(self@.take(i as int), key@),
            decreases i,
        {
            if str_eq(self.entries[i - 1].0.as_str(), key) {
                let ghost t = self@.take(i as int);
                assert(t.last() == value_entry_view(self.entries@[i - 1]));
                return Some(&self.entries[i - 1].1);
            }
            proof {
                let t = self@.take(i as int);
                assert(t.drop_last() =~= self@.take(i - 1));
            }
            i = i - 1;
        }
        None
    }

    /// Whether a value is recorded for `key`.
    pub fn contains_key(&self, key: &str) -> (r: bool)
        ensures
            r == latest(self@, key@) is Some,
    {
        self.get(key).is_some()
    }
}

/// The trait that config structs implement.
pub trait Config: Sized {
    /// Static metadata for every field of the struct.
    fn fields() -> &'static [FieldMeta];

    /// The struct with every field at its default; fields without a
    /// default take their type's default (`None` for an `Option`).
    fn defaults() -> Self;

    /// Builds the struct from the resolved values, coercing each field (or
    /// applying its `deserialize_fn`); absent fields keep their defaults.
    fn from_values(values: &ValueMap) -> Result<Self, ConfigError>;
}

/// A resolved config struct bundled with its provenance.
#[derive(Debug)]
pub struct ResolvedConfig<T> {
    pub value: T,
    pub provenance: ProvenanceMap,
}

impl<T> core::ops::Deref for ResolvedConfig<T> {
    type Target = T;

    fn deref(&self) -> (r: &T)
        ensures
            *r == self.value,
    {
        &self.value
    }
}

/// The renderings of the records, one per line.
pub open spec fn explain_text(e: Seq<(Seq<char>, ProvenanceView)>) -> Seq<char>
    decreases e.len(),
{
    if e.len() == 0 {
        Seq::empty()
    } else if e.len() == 1 {
        provenance_text(e[0].1)
    } else {
        explain_text(e.drop_last()) + "\n"@ + provenance_text(e.last().1)
    }
}

impl<T> ResolvedConfig<T> {
    /// A provenance report: one line per field, in field order; secret
    /// fields show `<secret>` instead of their value.
    pub fn explain(&self) -> (r: String)
        ensures
            r@ == explain_text(provenance_entries(self.provenance)),
    {
        let ghost e = provenance_entries(self.provenance);
        let n = provenance_map_len(&self.provenance);
        let mut r = String::new();
        let mut i: usize = 0;
        assert(e.take(0) =~= Seq::<(Seq<char>, ProvenanceView)>::empty());
        while i < n
            invariant
                i <= n,
                n == e.len(),
                e == provenance_entries(self.provenance),
                r@ == explain_text(e.take(i as int)),
            decreases n - i,
        {
            match provenance_map_get_index(&self.provenance, i) {
                Some((_, prov)) => {
                    let line = prov.to_string();
                    if i > 0 {
                        r.append("\n");
                    }
                    r.append(line.as_str());
                    proof {
                        let t = e.take(i + 1);
                        assert(t.drop_last() =~= e.take(i as int));
                        if i == 0 {
                            assert(e.take(0) =~= Seq::<(Seq<char>, ProvenanceView)>::empty());
                            assert(r@ =~= provenance_text(t[0].1));
                        } else {
                            assert(r@ =~= explain_text(e.take(i as int)) + "\n"@ + provenance_text(
                                t.last().1,
                            ));
                        }
                    }
                },
                None => {},
            }
            i = i + 1;
        }
        assert(e.take(n as int) =~= e);
        r
    }
}


/// The entries of a flattened field `field`: those keyed `{field}.{key}`,
/// re-keyed `{key}`, in order.
pub open spec fn nested_values(e: Seq<(Seq<char>, ValueView)>, field: Seq<char>) -> Seq<
    (Seq<char>, ValueView),
>
    decreases e.len(),
{
    if e.len() == 0 {
        Seq::empty()
    } else {
        let r = nested_values(e.drop_last(), field);
        let p = field + "."@;
        if has_prefix(e.last().0, p) {
            r.push((e.last().0.skip(p.len() as int), e.last().1))
        } else {
            r
        }
    }
}

/// The first field named `name`.
pub open spec fn find_meta(fields: Seq<FieldMeta>, name: Seq<char>) -> Option<FieldMeta>
    decreases fields.len(),
{
    if fields.len() == 0 {
        None
    } else if fields[0].name@ == name {
        Some(fields[0])
    } else {
        find_meta(fields.drop_first(), name)
    }
}

/// The value a config struct builds field `name` from: none when the field
/// was not resolved; else the resolved value, passed through the field's
/// built-in `deserialize_fn` when it has one (a function of the user's is
/// called by the derived code on what this gives). A field missing from
/// `fields` is an internal error.
pub open spec fn field_input(values: Seq<(Seq<char>, ValueView)>, fields: Seq<FieldMeta>, name: Seq<char>) -> Result<
    Option<(ValueView, FieldMeta)>,
    ErrorView,
> {
    match latest(values, name) {
        None => Ok(None),
        Some(raw) => match find_meta(fields, name) {
            None => Err(
                ErrorView::Internal {
                    message: "derived field metadata missing for '"@ + name + "'"@,
                },
            ),
            Some(m) => match m.deserialize_fn {
                None => Ok(Some((raw, m))),
                Some(d) => match d.applied(raw, m) {
                    Ok(v) => Ok(Some((v, m))),
                    Err(e) => Err(e),
                },
            },
        },
    }
}

proof fn lemma_find_meta_skip(fields: Seq<FieldMeta>, name: Seq<char>, i: int)
    requires
        0 <= i <= fields.len(),
        forall|j: int| 0 <= j < i ==> (#[trigger] fields[j]).name@ != name,
    ensures
        find_meta(fields, name) == find_meta(fields.skip(i), name),
    decreases i,
{
    if i > 0 {
        lemma_find_meta_skip(fields.drop_first(), name, i - 1);
        assert(fields.drop_first().skip(i - 1) =~= fields.skip(i));
    } else {
        assert(fields.skip(0) =~= fields);
    }
}

impl ValueMap {
    /// The values of flattened field `field`, keyed by the nested struct's
    /// own field names.
    pub fn nested(&self, field: &str) -> (r: ValueMap)
        ensures
            r@ == nested_values(self@, field@),
    {
        let mut p = owned(field);
        p.append(".");
        let pc = chars_of(p.as_str());
        let mut out = ValueMap::new();
        let mut i: usize = 0;
        assert(self@.take(0) =~= Seq::<(Seq<char>, ValueView)>::empty());
        while i < self.entries.len()
            invariant
                i <= self.entries@.len(),
                pc@ == field@ + "."@,
                out@ == nested_values(self@.take(i as int), field@),
            decreases self.entries@.len() - i,
        {
            proof {
                let t = self@.take(i + 1);
                assert(t.drop_last() =~= self@.take(i as int));
                assert(t.last() == value_entry_view(self.entries@[i as int]));
            }
            let key = chars_of(self.entries[i].0.as_str());
            if vec_starts_with(&key, &pc) {
                let mut rest: Vec<char> = Vec::new();
                let mut q: usize = pc.len();
                while q < key.len()
                    invariant
                        pc@.len() <= q <= key@.len(),
                        rest@ == key@.subrange(pc@.len() as int, q as int),
                    decreases key@.len() - q,
                {
                    rest.push(key[q]);
                    q = q + 1;
                    assert(rest@ =~= key@.subrange(pc@.len() as int, q as int));
                }
                assert(rest@ =~= key@.skip(pc@.len() as int));
                let k = string_from_chars(&rest);
                out.insert(k.as_str(), self.entries[i].1.duplicate());
            }
            i = i + 1;
        }
        assert(self@.take(i as int) =~= self@);
        out
    }

    /// The value field `name` of a struct with fields `fields` is built
    /// from (see `field_input`), with the field's metadata.
    pub fn field_input(&self, fields: &[FieldMeta], name: &str) -> (r: Result<
        Option<(ConfigValue, FieldMeta)>,
        ConfigError,
    >)
        ensures
            match r {
                Ok(Some((v, m))) => field_input(self@, fields@, name@) == Ok::<
                    Option<(ValueView, FieldMeta)>,
                    ErrorView,
                >(Some((v.model(), m))),
                Ok(None) => field_input(self@, fields@, name@) == Ok::<
                    Option<(ValueView, FieldMeta)>,
                    ErrorView,
                >(None),
                Err(e) => field_input(self@, fields@, name@) == Err::<
                    Option<(ValueView, FieldMeta)>,
                    ErrorView,
                >(e@),
            },
    {
        let raw = match self.get(name) {
            None => return Ok(None),
            Some(raw) => raw,
        };
        let mut i: usize = 0;
        while i < fields.len()
            invariant
                i <= fields@.len(),
                latest(self@, name@) == Some(raw.model()),
                forall|j: int| 0 <= j < i ==> (#[trigger] fields@[j]).name@ != name@,
            decreases fields@.len() - i,
        {
            if str_eq(fields[i].name, name) {
                let meta = fields[i];
                proof {
                    lemma_find_meta_skip(fields@, name@, i as int);
                    assert(fields@.skip(i as int)[0] == meta);
                }
                return match meta.deserialize_fn {
                    None => Ok(Some((raw.duplicate(), meta))),
                    Some(d) => match d.apply(raw, &meta) {
                        Ok(v) => Ok(Some((v, meta))),
                        Err(e) => Err(e),
                    },
                };
            }
            i = i + 1;
        }
        proof {
            lemma_find_meta_skip(fields@, name@, i as int);
            assert(fields@.skip(i as int) =~= Seq::<FieldMeta>::empty());
        }
        let mut m = owned("derived field metadata missing for '");
        m.append(name);
        m.append("'");
        Err(ConfigError::Internal { message: m })
    }
}


/// The report of two runs of records is the report of the first, a line
/// break, and the report of the second; a single record's report is its
/// rendering. So the report has one rendering per record, in order.
pub proof fn lemma_explain_concat(a: Seq<(Seq<char>, ProvenanceView)>, b: Seq<(Seq<char>, ProvenanceView)>)
    ensures
        a.len() > 0 && b.len() > 0 ==> explain_text(a + b) == explain_text(a) + "\n"@ + explain_text(b),
        a.len() == 1 ==> explain_text(a) == provenance_text(a[0].1),
        a.len() == 0 ==> explain_text(a + b) == explain_text(b),
    decreases b.len(),
{
    if a.len() == 0 {
        assert(a + b =~= b);
    }
    if a.len() > 0 && b.len() > 0 {
        if b.len() == 1 {
            assert((a + b).drop_last() =~= a);
            assert((a + b).last() == b[0]);
        } else {
            let b0 = b.drop_last();
            lemma_explain_concat(a, b0);
            assert((a + b).drop_last() =~= a + b0);
            assert((a + b).last() == b.last());
            assert(b.drop_last() == b0);
            assert(explain_text(a) + "\n"@ + explain_text(b0) + "\n"@ + provenance_text(b.last().1)
                =~= explain_text(a) + "\n"@ + (explain_text(b0) + "\n"@ + provenance_text(b.last().1)));
        }
    }
}

} // verus!
