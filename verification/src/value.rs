//! Loosely typed configuration values, their rendering, dotted-key lookup,
//! and their coercion into typed values.
use vstd::prelude::*;
use crate::error::{parse_error_view, ConfigError, ErrorView};
use crate::field::FieldMeta;
use crate::scalar::ConfigScalar;
use crate::text::{
    bool_string, bool_text, chars_of, i64_text, int_text, owned, split_chars, split_on,
    string_from_chars, trim, trimmed,
};

verus! {

/// A loosely typed config value, keeping the source format's native types.
///
/// `Float` holds the decimal rendering that Rust's `Display` gives the
/// floating-point number (digits without exponent, `NaN`, `inf`, `-inf`).
/// `Table` holds its entries in order; keys are expected to be distinct, and
/// lookups take the first entry with a key.
#[derive(Debug, PartialEq)]
pub enum ConfigValue {
    String(String),
    Integer(i64),
    Float(String),
    Bool(bool),
    Array(Vec<ConfigValue>),
    Table(Vec<(String, ConfigValue)>),
}

/// The mathematical content of a `ConfigValue`.
pub enum ValueView {
    Str(Seq<char>),
    Int(int),
    Float(Seq<char>),
    Bool(bool),
    Array(Seq<ValueView>),
    Table(Seq<(Seq<char>, ValueView)>),
}

/// The views of a sequence of values.
pub open spec fn models_of(s: Seq<ConfigValue>) -> Seq<ValueView>
    decreases s,
{
    if s.len() == 0 {
        Seq::empty()
    } else {
        models_of(s.drop_last()).push(s.last().model())
    }
}

/// The views of a sequence of table entries.
pub open spec fn entries_model(s: Seq<(String, ConfigValue)>) -> Seq<(Seq<char>, ValueView)>
    decreases s,
{
    if s.len() == 0 {
        Seq::empty()
    } else {
        entries_model(s.drop_last()).push((s.last().0@, s.last().1.model()))
    }
}

impl ConfigValue {
    /// The mathematical content of this value.
    pub open spec fn model(self) -> ValueView
        decreases self,
    {
        match self {
            ConfigValue::String(s) => ValueView::Str(s@),
            ConfigValue::Integer(i) => ValueView::Int(i as int),
            ConfigValue::Float(t) => ValueView::Float(t@),
            ConfigValue::Bool(b) => ValueView::Bool(b),
            ConfigValue::Array(a) => ValueView::Array(models_of(a@)),
            ConfigValue::Table(t) => ValueView::Table(entries_model(t@)),
        }
    }
}

pub proof fn lemma_models_of(s: Seq<ConfigValue>)
    ensures
        models_of(s).len() == s.len(),
        forall|i: int| 0 <= i < s.len() ==> #[trigger] models_of(s)[i] == s[i].model(),
    decreases s.len(),
{
    if s.len() > 0 {
        lemma_models_of(s.drop_last());
    }
}

pub proof fn lemma_entries_model(s: Seq<(String, ConfigValue)>)
    ensures
        entries_model(s).len() == s.len(),
        forall|i: int|
            0 <= i < s.len() ==> #[trigger] entries_model(s)[i] == (s[i].0@, s[i].1.model()),
    decreases s.len(),
{
    if s.len() > 0 {
        lemma_entries_model(s.drop_last());
    }
}

/// The rendering of a value: strings as they are, numbers and booleans as
/// `Display` renders them, arrays as `[a, b]`, tables as `{...}`.
pub open spec fn display(v: ValueView) -> Seq<char>
    decreases v,
{
    match v {
        ValueView::Str(s) => s,
        ValueView::Int(i) => int_text(i),
        ValueView::Float(t) => t,
        ValueView::Bool(b) => bool_text(b),
        ValueView::Array(items) => "["@ + display_items(items) + "]"@,
        ValueView::Table(_) => "{...}"@,
    }
}

/// The renderings of `items` joined by `", "`.
pub open spec fn display_items(items: Seq<ValueView>) -> Seq<char>
    decreases items,
{
    if items.len() == 0 {
        Seq::empty()
    } else if items.len() == 1 {
        display(items[0])
    } else {
        display_items(items.drop_last()) + ", "@ + display(items.last())
    }
}

/// The position of the first entry of `e` whose key is `k`.
pub open spec fn entry_position(e: Seq<(Seq<char>, ValueView)>, k: Seq<char>) -> Option<int>
    decreases e.len(),
{
    if e.len() == 0 {
        None
    } else {
        match entry_position(e.drop_last(), k) {
            Some(i) => Some(i),
            None => if e.last().0 == k {
                Some((e.len() - 1) as int)
            } else {
                None
            },
        }
    }
}

/// The value of the first entry of `e` whose key is `k`.
pub open spec fn entry_lookup(e: Seq<(Seq<char>, ValueView)>, k: Seq<char>) -> Option<ValueView> {
    match entry_position(e, k) {
        Some(i) => Some(e[i].1),
        None => None,
    }
}

/// Follows the key segments `segs` into nested tables from `v`.
pub open spec fn walk(v: ValueView, segs: Seq<Seq<char>>) -> Option<ValueView>
    decreases segs.len(),
{
    if segs.len() == 0 {
        Some(v)
    } else {
        match v {
            ValueView::Table(e) => match entry_lookup(e, segs[0]) {
                Some(x) => walk(x, segs.drop_first()),
                None => None,
            },
            _ => None,
        }
    }
}

/// The value at a dotted key such as `"redis.host"`: the key is cut at
/// every `.` and each piece selects an entry of a nested table.
pub open spec fn dotted_lookup(v: ValueView, key: Seq<char>) -> Option<ValueView> {
    walk(v, split_on(key, '.'))
}

/// The text a scalar is read from, or `None` for arrays and tables.
pub open spec fn scalar_text(v: ValueView) -> Option<Seq<char>> {
    match v {
        ValueView::Str(s) => Some(s),
        ValueView::Int(i) => Some(int_text(i)),
        ValueView::Float(t) => Some(t),
        ValueView::Bool(b) => Some(bool_text(b)),
        _ => None,
    }
}

/// What coercing `v` to the scalar type `T` gives.
pub open spec fn coerce_view<T: ConfigScalar>(v: ValueView, field: FieldMeta) -> Result<
    T::V,
    ErrorView,
> {
    match scalar_text(v) {
        None => Err(
            parse_error_view(field, display(v), "cannot coerce array/table to scalar"@),
        ),
        Some(t) => match T::parsed(t) {
            Ok(x) => Ok(x),
            Err(c) => Err(parse_error_view(field, t, c)),
        },
    }
}

/// Coerces every item in order; the first failure is the result.
pub open spec fn collect_values<T: ConfigScalar>(items: Seq<ValueView>, field: FieldMeta) -> Result<
    Seq<T::V>,
    ErrorView,
>
    decreases items.len(),
{
    if items.len() == 0 {
        Ok(Seq::empty())
    } else {
        match collect_values::<T>(items.drop_last(), field) {
            Err(e) => Err(e),
            Ok(done) => match coerce_view::<T>(items.last(), field) {
                Ok(x) => Ok(done.push(x)),
                Err(e) => Err(e),
            },
        }
    }
}

/// Reads every text in order; the first failure is the result.
pub open spec fn collect_texts<T: ConfigScalar>(texts: Seq<Seq<char>>, field: FieldMeta) -> Result<
    Seq<T::V>,
    ErrorView,
>
    decreases texts.len(),
{
    if texts.len() == 0 {
        Ok(Seq::empty())
    } else {
        match collect_texts::<T>(texts.drop_last(), field) {
            Err(e) => Err(e),
            Ok(done) => match T::parsed(texts.last()) {
                Ok(x) => Ok(done.push(x)),
                Err(c) => Err(parse_error_view(field, texts.last(), c)),
            },
        }
    }
}

/// The trimmed pieces of `parts` that are not empty, in order.
pub open spec fn nonempty_trimmed(parts: Seq<Seq<char>>) -> Seq<Seq<char>>
    decreases parts.len(),
{
    if parts.len() == 0 {
        Seq::empty()
    } else if trim(parts.last()).len() == 0 {
        nonempty_trimmed(parts.drop_last())
    } else {
        nonempty_trimmed(parts.drop_last()).push(trim(parts.last()))
    }
}

/// The list items of a comma-separated string: each piece between commas,
/// trimmed, with empty pieces dropped.
pub open spec fn list_items(s: Seq<char>) -> Seq<Seq<char>> {
    nonempty_trimmed(split_on(s, ','))
}

/// The name of a value's kind in "cannot coerce ... to Vec" messages.
pub open spec fn vec_kind_name(v: ValueView) -> Seq<char> {
    match v {
        ValueView::Int(_) => "integer"@,
        ValueView::Float(_) => "float"@,
        ValueView::Bool(_) => "bool"@,
        ValueView::Table(_) => "table"@,
        _ => "value"@,
    }
}

/// What coercing `v` to a list of `T` gives: arrays item by item, strings
/// as comma-separated lists (a blank string is the empty list).
pub open spec fn coerce_vec_view<T: ConfigScalar>(v: ValueView, field: FieldMeta) -> Result<
    Seq<T::V>,
    ErrorView,
> {
    match v {
        ValueView::Array(items) => collect_values::<T>(items, field),
        ValueView::Str(s) => if trim(s).len() == 0 {
            Ok(Seq::empty())
        } else {
            collect_texts::<T>(list_items(s), field)
        },
        _ => Err(
            parse_error_view(field, display(v), "cannot coerce "@ + vec_kind_name(v) + " to Vec"@),
        ),
    }
}

/// What a list item is read from: its text, or the error for an item that
/// is an array or a table.
pub open spec fn item_text(x: ValueView, field: FieldMeta) -> Result<Seq<char>, ErrorView> {
    match scalar_text(x) {
        Some(t) => Ok(t),
        None => Err(parse_error_view(field, display(x), "cannot coerce array/table to scalar"@)),
    }
}

/// The texts a list is read from, in order: an array's items (each its
/// text or its error), a string's comma-separated pieces (trimmed, blank
/// ones dropped; a blank string has none); any other value is refused.
pub open spec fn list_texts(v: ValueView, field: FieldMeta) -> Result<
    Seq<Result<Seq<char>, ErrorView>>,
    ErrorView,
> {
    match v {
        ValueView::Array(items) => Ok(items.map_values(|x: ValueView| item_text(x, field))),
        ValueView::Str(s) => if trim(s).len() == 0 {
            Ok(Seq::empty())
        } else {
            Ok(list_items(s).map_values(|t: Seq<char>| Ok::<Seq<char>, ErrorView>(t)))
        },
        _ => Err(
            parse_error_view(field, display(v), "cannot coerce "@ + vec_kind_name(v) + " to Vec"@),
        ),
    }
}

/// The view of one item text.
pub open spec fn result_text_view(r: Result<String, ConfigError>) -> Result<Seq<char>, ErrorView> {
    match r {
        Ok(t) => Ok(t@),
        Err(e) => Err(e@),
    }
}

/// The views of item texts.
pub open spec fn texts_view(s: Seq<Result<String, ConfigError>>) -> Seq<Result<Seq<char>, ErrorView>> {
    s.map_values(|r: Result<String, ConfigError>| result_text_view(r))
}

/// The views of a sequence of typed values.
pub open spec fn views_of<T: View>(s: Seq<T>) -> Seq<T::V> {
    s.map_values(|x: T| x@)
}

pub proof fn lemma_models_of_append(a: Seq<ConfigValue>, b: Seq<ConfigValue>)
    ensures
        models_of(a + b) == models_of(a) + models_of(b),
    decreases b.len(),
{
    if b.len() == 0 {
        assert(a + b =~= a);
        assert(models_of(a) + models_of(b) =~= models_of(a));
    } else {
        lemma_models_of_append(a, b.drop_last());
        assert((a + b).drop_last() =~= a + b.drop_last());
        assert(models_of(a) + models_of(b) =~= (models_of(a) + models_of(b.drop_last())).push(
            b.last().model(),
        ));
    }
}

proof fn lemma_collect_values_append_err<T: ConfigScalar>(
    p: Seq<ValueView>,
    q: Seq<ValueView>,
    field: FieldMeta,
)
    requires
        collect_values::<T>(p, field) is Err,
    ensures
        collect_values::<T>(p + q, field) == collect_values::<T>(p, field),
    decreases q.len(),
{
    if q.len() == 0 {
        assert(p + q =~= p);
    } else {
        lemma_collect_values_append_err::<T>(p, q.drop_last(), field);
        assert((p + q).drop_last() =~= p + q.drop_last());
    }
}

proof fn lemma_collect_texts_append_err<T: ConfigScalar>(
    p: Seq<Seq<char>>,
    q: Seq<Seq<char>>,
    field: FieldMeta,
)
    requires
        collect_texts::<T>(p, field) is Err,
    ensures
        collect_texts::<T>(p + q, field) == collect_texts::<T>(p, field),
    decreases q.len(),
{
    if q.len() == 0 {
        assert(p + q =~= p);
    } else {
        lemma_collect_texts_append_err::<T>(p, q.drop_last(), field);
        assert((p + q).drop_last() =~= p + q.drop_last());
    }
}

proof fn lemma_nonempty_trimmed_append(a: Seq<Seq<char>>, b: Seq<Seq<char>>)
    ensures
        nonempty_trimmed(a + b) == nonempty_trimmed(a) + nonempty_trimmed(b),
    decreases b.len(),
{
    if b.len() == 0 {
        assert(a + b =~= a);
        assert(nonempty_trimmed(a) + nonempty_trimmed(b) =~= nonempty_trimmed(a));
    } else {
        lemma_nonempty_trimmed_append(a, b.drop_last());
        assert((a + b).drop_last() =~= a + b.drop_last());
        if trim(b.last()).len() != 0 {
            assert(nonempty_trimmed(a) + nonempty_trimmed(b) =~= (nonempty_trimmed(a)
                + nonempty_trimmed(b.drop_last())).push(trim(b.last())));
        }
    }
}

/// What inserting `(k, v)` does to table entries: an existing key keeps its
/// place and takes the new value, a new key goes last.
pub open spec fn entries_insert(e: Seq<(Seq<char>, ValueView)>, k: Seq<char>, v: ValueView) -> Seq<
    (Seq<char>, ValueView),
> {
    match entry_position(e, k) {
        Some(i) => e.update(i, (k, v)),
        None => e.push((k, v)),
    }
}

/// The position of the first entry of `t` whose key is `k`.
pub fn table_position(t: &Vec<(String, ConfigValue)>, k: &str) -> (r: Option<usize>)
    ensures
        match r {
            Some(i) => entry_position(entries_model(t@), k@) == Some(i as int) && i < t@.len(),
            None => entry_position(entries_model(t@), k@) is None,
        },
{
    proof {
        lemma_entries_model(t@);
    }
    let kc = chars_of(k);
    let mut i: usize = 0;
    while i < t.len()
        invariant
            i <= t@.len(),
            kc@ == k@,
            entries_model(t@).len() == t@.len(),
            forall|j: int|
                0 <= j < t@.len() ==> #[trigger] entries_model(t@)[j] == (t@[j].0@, t@[j].1.model()),
            forall|j: int| 0 <= j < i ==> entries_model(t@)[j].0 != k@,
        decreases t@.len() - i,
    {
        let key = chars_of(t[i].0.as_str());
        if chars_eq(&key, &kc) {
            proof {
                lemma_entry_position_found(entries_model(t@), k@, i as int);
            }
            return Some(i);
        }
        i = i + 1;
    }
    proof {
        lemma_entry_position_absent(entries_model(t@), k@);
    }
    None
}

/// Inserts `(k, v)` into table entries: replaces the value of an existing
/// key in place, or appends a new entry.
pub fn table_insert(t: &mut Vec<(String, ConfigValue)>, k: String, v: ConfigValue)
    ensures
        entries_model(final(t)@) == entries_insert(entries_model(old(t)@), k@, v.model()),
{
    proof {
        lemma_entries_model(t@);
    }
    match table_position(t, k.as_str()) {
        Some(i) => {
            let ghost before = t@;
            t.set(i, (k, v));
            proof {
                lemma_entries_model(t@);
                assert(entries_model(t@) =~= entries_model(before).update(i as int, (k@, v.model())));
            }
        },
        None => {
            let ghost before = t@;
            t.push((k, v));
            proof {
                assert(t@.drop_last() =~= before);
            }
        },
    }
}

/// Whether two character vectors are equal.
pub fn chars_eq(a: &Vec<char>, b: &Vec<char>) -> (r: bool)
    ensures
        r == (a@ == b@),
{
    if a.len() != b.len() {
        return false;
    }
    let mut i: usize = 0;
    while i < a.len()
        invariant
            a@.len() == b@.len(),
            i <= a@.len(),
            forall|j: int| 0 <= j < i ==> a@[j] == b@[j],
        decreases a@.len() - i,
    {
        if a[i] != b[i] {
            return false;
        }
        i = i + 1;
    }
    assert(a@ =~= b@);
    true
}

proof fn lemma_entry_position_found(e: Seq<(Seq<char>, ValueView)>, k: Seq<char>, i: int)
    requires
        0 <= i < e.len(),
        e[i].0 == k,
        forall|j: int| 0 <= j < i ==> e[j].0 != k,
    ensures
        entry_position(e, k) == Some(i),
    decreases e.len(),
{
    if i < e.len() - 1 {
        lemma_entry_position_found(e.drop_last(), k, i);
    } else {
        lemma_entry_position_absent(e.drop_last(), k);
    }
}

proof fn lemma_entry_position_shape(e: Seq<(Seq<char>, ValueView)>, k: Seq<char>)
    ensures
        match entry_position(e, k) {
            Some(i) => 0 <= i < e.len() && e[i].0 == k && forall|j: int| 0 <= j < i ==> e[j].0 != k,
            None => forall|j: int| 0 <= j < e.len() ==> e[j].0 != k,
        },
    decreases e.len(),
{
    if e.len() > 0 {
        let d = e.drop_last();
        lemma_entry_position_shape(d, k);
        assert forall|j: int| 0 <= j < d.len() implies d[j] == e[j] by {}
        match entry_position(d, k) {
            Some(i) => {},
            None => {
                if e.last().0 != k {
                    assert forall|j: int| 0 <= j < e.len() implies e[j].0 != k by {
                        if j < d.len() {
                            assert(d[j] == e[j]);
                        }
                    }
                }
            },
        }
    }
}

/// After `(k, v)` is inserted, looking `k` up gives `v`, and looking up any
/// other key gives what it gave before.
pub proof fn lemma_insert_then_lookup(e: Seq<(Seq<char>, ValueView)>, k: Seq<char>, v: ValueView, other: Seq<char>)
    ensures
        entry_lookup(entries_insert(e, k, v), k) == Some(v),
        other != k ==> entry_lookup(entries_insert(e, k, v), other) == entry_lookup(e, other),
{
    let n = entries_insert(e, k, v);
    lemma_entry_position_shape(e, k);
    lemma_entry_position_shape(e, other);
    match entry_position(e, k) {
        Some(i) => {
            lemma_entry_position_found(n, k, i);
            match entry_position(e, other) {
                Some(p) => {
                    if other != k {
                        lemma_entry_position_found(n, other, p);
                    }
                },
                None => {
                    if other != k {
                        lemma_entry_position_absent(n, other);
                    }
                },
            }
        },
        None => {
            lemma_entry_position_found(n, k, e.len() as int);
            match entry_position(e, other) {
                Some(p) => {
                    if other != k {
                        lemma_entry_position_found(n, other, p);
                    }
                },
                None => {
                    if other != k {
                        lemma_entry_position_absent(n, other);
                    }
                },
            }
        },
    }
}

proof fn lemma_entry_position_absent(e: Seq<(Seq<char>, ValueView)>, k: Seq<char>)
    requires
        forall|j: int| 0 <= j < e.len() ==> e[j].0 != k,
    ensures
        entry_position(e, k) is None,
    decreases e.len(),
{
    if e.len() > 0 {
        lemma_entry_position_absent(e.drop_last(), k);
    }
}

/// The value of the first entry of `t` whose key is `k`.
pub fn table_get<'a>(t: &'a Vec<(String, ConfigValue)>, k: &Vec<char>) -> (r: Option<&'a ConfigValue>)
    ensures
        match r {
            Some(x) => entry_lookup(entries_model(t@), k@) == Some(x.model()),
            None => entry_lookup(entries_model(t@), k@) is None,
        },
{
    proof {
        lemma_entries_model(t@);
    }
    let mut i: usize = 0;
    while i < t.len()
        invariant
            i <= t@.len(),
            entries_model(t@).len() == t@.len(),
            forall|j: int|
                0 <= j < t@.len() ==> #[trigger] entries_model(t@)[j] == (t@[j].0@, t@[j].1.model()),
            forall|j: int| 0 <= j < i ==> entries_model(t@)[j].0 != k@,
        decreases t@.len() - i,
    {
        let key = chars_of(t[i].0.as_str());
        if chars_eq(&key, k) {
            proof {
                lemma_entry_position_found(entries_model(t@), k@, i as int);
            }
            return Some(&t[i].1);
        }
        i = i + 1;
    }
    proof {
        lemma_entry_position_absent(entries_model(t@), k@);
    }
    None
}

impl ConfigValue {
    /// A copy of this value.
    pub fn duplicate(&self) -> (r: ConfigValue)
        ensures
            r.model() == self.model(),
        decreases self,
    {
        match self {
            ConfigValue::String(s) => ConfigValue::String(s.clone()),
            ConfigValue::Integer(i) => ConfigValue::Integer(*i),
            ConfigValue::Float(t) => ConfigValue::Float(t.clone()),
            ConfigValue::Bool(b) => ConfigValue::Bool(*b),
            ConfigValue::Array(a) => {
                let mut out: Vec<ConfigValue> = Vec::new();
                let mut i: usize = 0;
                while i < a.len()
                    invariant
                        *self == ConfigValue::Array(*a),
                        i <= a@.len(),
                        models_of(out@) == models_of(a@.subrange(0, i as int)),
                    decreases a@.len() - i,
                {
                    proof {
                        assert(decreases_to!(*self => self->Array_0));
                        assert(decreases_to!(*self => a@[i as int]));
                    }
                    let x = a[i].duplicate();
                    let ghost prev = out@;
                    out.push(x);
                    proof {
                        assert(out@.drop_last() =~= prev);
                        assert(a@.subrange(0, i + 1).drop_last() =~= a@.subrange(0, i as int));
                    }
                    i = i + 1;
                }
                assert(a@.subrange(0, a@.len() as int) =~= a@);
                ConfigValue::Array(out)
            },
            ConfigValue::Table(t) => {
                let mut out: Vec<(String, ConfigValue)> = Vec::new();
                let mut i: usize = 0;
                while i < t.len()
                    invariant
                        *self == ConfigValue::Table(*t),
                        i <= t@.len(),
                        entries_model(out@) == entries_model(t@.subrange(0, i as int)),
                    decreases t@.len() - i,
                {
                    proof {
                        assert(decreases_to!(*self => self->Table_0));
                        assert(decreases_to!(*self => t@[i as int].1));
                    }
                    let k = t[i].0.clone();
                    let v = t[i].1.duplicate();
                    let ghost prev = out@;
                    out.push((k, v));
                    proof {
                        assert(out@.drop_last() =~= prev);
                        assert(t@.subrange(0, i + 1).drop_last() =~= t@.subrange(0, i as int));
                    }
                    i = i + 1;
                }
                assert(t@.subrange(0, t@.len() as int) =~= t@);
                ConfigValue::Table(out)
            },
        }
    }

    /// The rendering, e.g. `42`, `true`, `[a, b]`, `{...}`.
    pub fn to_string(&self) -> (r: String)
        ensures
            r@ == display(self.model()),
        decreases self,
    {
        match self {
            ConfigValue::String(s) => s.clone(),
            ConfigValue::Integer(i) => i64_text(*i),
            ConfigValue::Float(t) => t.clone(),
            ConfigValue::Bool(b) => bool_string(*b),
            ConfigValue::Array(a) => {
                let mut r = owned("[");
                let mut i: usize = 0;
                while i < a.len()
                    invariant
                        *self == ConfigValue::Array(*a),
                        i <= a@.len(),
                        r@ == "["@ + display_items(models_of(a@.subrange(0, i as int))),
                    decreases a@.len() - i,
                {
                    let ghost p = models_of(a@.subrange(0, i as int));
                    let ghost q = models_of(a@.subrange(0, i + 1));
                    proof {
                        assert(decreases_to!(*self => self->Array_0));
                        assert(decreases_to!(*self => a@[i as int]));
                        assert(a@.subrange(0, i + 1).drop_last() =~= a@.subrange(0, i as int));
                        assert(q == p.push(a@[i as int].model()));
                        assert(q.drop_last() =~= p);
                        lemma_models_of(a@.subrange(0, i as int));
                    }
                    if i > 0 {
                        r.append(", ");
                    }
                    let item = a[i].to_string();
                    r.append(item.as_str());
                    proof {
                        if i == 0 {
                            assert(q.len() == 1);
                            assert(r@ =~= "["@ + display_items(q));
                        } else {
                            assert(display_items(q) == display_items(p) + ", "@ + display(
                                a@[i as int].model(),
                            ));
                            assert(r@ =~= "["@ + display_items(q));
                        }
                    }
                    i = i + 1;
                }
                r.append("]");
                assert(a@.subrange(0, a@.len() as int) =~= a@);
                r
            },
            ConfigValue::Table(_) => owned("{...}"),
        }
    }

    /// Follows a dotted key such as `"redis.host"` into nested tables.
    pub fn get_by_dotted_key(&self, key: &str) -> (r: Option<&ConfigValue>)
        ensures
            match r {
                Some(x) => dotted_lookup(self.model(), key@) == Some(x.model()),
                None => dotted_lookup(self.model(), key@) is None,
            },
    {
        let kc = chars_of(key);
        let segs = split_chars(&kc, '.');
        let ghost all = split_on(key@, '.');
        let mut cur: &ConfigValue = self;
        let mut i: usize = 0;
        assert(all.subrange(0, all.len() as int) =~= all);
        while i < segs.len()
            invariant
                i <= segs@.len(),
                segs@.len() == all.len(),
                forall|j: int| 0 <= j < segs@.len() ==> #[trigger] segs@[j]@ == all[j],
                dotted_lookup(self.model(), key@) == walk(
                    cur.model(),
                    all.subrange(i as int, all.len() as int),
                ),
            decreases segs@.len() - i,
        {
            let ghost rest = all.subrange(i as int, all.len() as int);
            assert(rest[0] == all[i as int]);
            assert(rest.drop_first() =~= all.subrange(i + 1, all.len() as int));
            match cur {
                ConfigValue::Table(t) => {
                    match table_get(t, &segs[i]) {
                        Some(x) => {
                            cur = x;
                        },
                        None => {
                            return None;
                        },
                    }
                },
                _ => {
                    return None;
                },
            }
            i = i + 1;
        }
        Some(cur)
    }

    /// The rendering of the value, which is what a `String` field takes.
    pub fn coerce_string(&self, _field: &FieldMeta) -> (r: Result<String, ConfigError>)
        ensures
            r matches Ok(s) && s@ == display(self.model()),
    {
        match self {
            ConfigValue::String(s) => Ok(s.clone()),
            other => Ok(other.to_string()),
        }
    }

    /// The text a scalar is read from, or the error for arrays and tables.
    pub fn scalar_text(&self, field: &FieldMeta) -> (r: Result<String, ConfigError>)
        ensures
            match r {
                Ok(t) => scalar_text(self.model()) == Some(t@),
                Err(e) => scalar_text(self.model()) is None && e@ == parse_error_view(
                    *field,
                    display(self.model()),
                    "cannot coerce array/table to scalar"@,
                ),
            },
    {
        match self {
            ConfigValue::String(s) => Ok(s.clone()),
            ConfigValue::Integer(i) => Ok(i64_text(*i)),
            ConfigValue::Float(t) => Ok(t.clone()),
            ConfigValue::Bool(b) => Ok(bool_string(*b)),
            _ => {
                let shown = self.to_string();
                Err(
                    ConfigError::parse(
                        field,
                        shown.as_str(),
                        "cannot coerce array/table to scalar",
                    ),
                )
            },
        }
    }

    /// Coerces this value to `T`: scalars are rendered to text and read as
    /// `T`; arrays and tables are refused.
    pub fn coerce<T: ConfigScalar>(&self, field: &FieldMeta) -> (r: Result<T, ConfigError>)
        ensures
            match r {
                Ok(v) => coerce_view::<T>(self.model(), *field) == Ok::<T::V, ErrorView>(v@),
                Err(e) => coerce_view::<T>(self.model(), *field) == Err::<T::V, ErrorView>(e@),
            },
    {
        let text = match self.scalar_text(field) {
            Ok(t) => t,
            Err(e) => {
                return Err(e);
            },
        };
        match T::parse_text(text.as_str()) {
            Ok(v) => Ok(v),
            Err(c) => Err(ConfigError::parse(field, text.as_str(), c.as_str())),
        }
    }

    /// The texts this value is read from as a list (see `list_texts`).
    pub fn list_item_texts(&self, field: &FieldMeta) -> (r: Result<Vec<Result<String, ConfigError>>, ConfigError>)
        ensures
            match r {
                Ok(v) => list_texts(self.model(), *field) == Ok::<
                    Seq<Result<Seq<char>, ErrorView>>,
                    ErrorView,
                >(texts_view(v@)),
                Err(e) => list_texts(self.model(), *field) == Err::<
                    Seq<Result<Seq<char>, ErrorView>>,
                    ErrorView,
                >(e@),
            },
    {
        match self {
            ConfigValue::Array(a) => {
                let mut out: Vec<Result<String, ConfigError>> = Vec::new();
                let mut i: usize = 0;
                proof {
                    lemma_models_of(a@);
                }
                while i < a.len()
                    invariant
                        *self == ConfigValue::Array(*a),
                        i <= a@.len(),
                        models_of(a@).len() == a@.len(),
                        forall|j: int| 0 <= j < a@.len() ==> #[trigger] models_of(a@)[j] == a@[j].model(),
                        out@.len() == i,
                        texts_view(out@) =~= models_of(a@).take(i as int).map_values(
                            |x: ValueView| item_text(x, *field),
                        ),
                    decreases a@.len() - i,
                {
                    let t = a[i].scalar_text(field);
                    let ghost prev = out@;
                    out.push(t);
                    proof {
                        assert(out@.drop_last() =~= prev);
                        let target = models_of(a@).take(i + 1);
                        assert(target =~= models_of(a@).take(i as int).push(a@[i as int].model()));
                        let tv = texts_view(out@);
                        let mv = target.map_values(|x: ValueView| item_text(x, *field));
                        assert(tv.len() == out@.len());
                        assert(out@[i as int] == t);
                        assert(tv[i as int] == result_text_view(out@[i as int]));
                        assert(tv[i as int] == item_text(a@[i as int].model(), *field));
                        assert forall|j: int| 0 <= j < tv.len() implies tv[j] == mv[j] by {
                            if j < i {
                                assert(tv[j] == texts_view(prev)[j]);
                            }
                        }
                        assert(tv =~= mv);
                    }
                    i = i + 1;
                }
                proof {
                    assert(models_of(a@).take(a@.len() as int) =~= models_of(a@));
                }
                Ok(out)
            },
            ConfigValue::String(s) => {
                let cs = chars_of(s.as_str());
                let whole = trimmed(&cs);
                let mut out: Vec<Result<String, ConfigError>> = Vec::new();
                if whole.len() == 0 {
                    assert(texts_view(out@) =~= Seq::<Result<Seq<char>, ErrorView>>::empty());
                    return Ok(out);
                }
                let parts = split_chars(&cs, ',');
                let ghost all = split_on(s@, ',');
                let mut i: usize = 0;
                assert(all.subrange(0, 0) =~= Seq::<Seq<char>>::empty());
                while i < parts.len()
                    invariant
                        *self == ConfigValue::String(*s),
                        all == split_on(s@, ','),
                        i <= parts@.len(),
                        parts@.len() == all.len(),
                        forall|j: int| 0 <= j < parts@.len() ==> #[trigger] parts@[j]@ == all[j],
                        out@.len() == nonempty_trimmed(all.subrange(0, i as int)).len(),
                        texts_view(out@) =~= nonempty_trimmed(all.subrange(0, i as int)).map_values(
                            |t: Seq<char>| Ok::<Seq<char>, ErrorView>(t),
                        ),
                    decreases parts@.len() - i,
                {
                    let ghost prefix = nonempty_trimmed(all.subrange(0, i as int));
                    proof {
                        assert(all.subrange(0, i + 1).drop_last() =~= all.subrange(0, i as int));
                    }
                    let piece = trimmed(&parts[i]);
                    if piece.len() > 0 {
                        let text = string_from_chars(&piece);
                        let ghost prev = out@;
                        out.push(Ok(text));
                        proof {
                            assert(out@.drop_last() =~= prev);
                            assert(nonempty_trimmed(all.subrange(0, i + 1)) == prefix.push(piece@));
                            let tv = texts_view(out@);
                            let mv = prefix.push(piece@).map_values(
                                |t: Seq<char>| Ok::<Seq<char>, ErrorView>(t),
                            );
                            assert forall|j: int| 0 <= j < tv.len() implies tv[j] == mv[j] by {
                                if j < prev.len() {
                                    assert(tv[j] == texts_view(prev)[j]);
                                }
                            }
                            assert(tv =~= mv);
                        }
                    }
                    i = i + 1;
                }
                assert(all.subrange(0, all.len() as int) =~= all);
                Ok(out)
            },
            other => {
                let shown = other.to_string();
                let kind = match other {
                    ConfigValue::Integer(_) => "integer",
                    ConfigValue::Float(_) => "float",
                    ConfigValue::Bool(_) => "bool",
                    ConfigValue::Table(_) => "table",
                    _ => "value",
                };
                let mut msg = owned("cannot coerce ");
                msg.append(kind);
                msg.append(" to Vec");
                Err(ConfigError::parse(field, shown.as_str(), msg.as_str()))
            },
        }
    }

    /// Coerces this value to a list of `T`: an array item by item, a string
    /// as a comma-separated list with blank items dropped.
    pub fn coerce_vec<T: ConfigScalar>(&self, field: &FieldMeta) -> (r: Result<Vec<T>, ConfigError>)
        ensures
            match r {
                Ok(v) => coerce_vec_view::<T>(self.model(), *field) == Ok::<Seq<T::V>, ErrorView>(
                    views_of(v@),
                ),
                Err(e) => coerce_vec_view::<T>(self.model(), *field) == Err::<Seq<T::V>, ErrorView>(
                    e@,
                ),
            },
    {
        match self {
            ConfigValue::Array(a) => {
                let mut out: Vec<T> = Vec::new();
                let mut i: usize = 0;
                assert(a@.subrange(0, 0) =~= Seq::<ConfigValue>::empty());
                assert(views_of(out@) =~= Seq::<T::V>::empty());
                while i < a.len()
                    invariant
                        *self == ConfigValue::Array(*a),
                        i <= a@.len(),
                        collect_values::<T>(models_of(a@.subrange(0, i as int)), *field) == Ok::<
                            Seq<T::V>,
                            ErrorView,
                        >(views_of(out@)),
                    decreases a@.len() - i,
                {
                    proof {
                        assert(a@.subrange(0, i + 1).drop_last() =~= a@.subrange(0, i as int));
                        lemma_models_of(a@.subrange(0, i + 1));
                        assert(models_of(a@.subrange(0, i + 1)).drop_last() =~= models_of(
                            a@.subrange(0, i as int),
                        ));
                    }
                    match a[i].coerce::<T>(field) {
                        Ok(x) => {
                            let ghost prev = out@;
                            out.push(x);
                            assert(views_of(out@) =~= views_of(prev).push(x@));
                        },
                        Err(e) => {
                            proof {
                                lemma_models_of_append(
                                    a@.subrange(0, i + 1),
                                    a@.subrange(i + 1, a@.len() as int),
                                );
                                assert(a@.subrange(0, i + 1) + a@.subrange(i + 1, a@.len() as int)
                                    =~= a@);
                                lemma_collect_values_append_err::<T>(
                                    models_of(a@.subrange(0, i + 1)),
                                    models_of(a@.subrange(i + 1, a@.len() as int)),
                                    *field,
                                );
                            }
                            return Err(e);
                        },
                    }
                    i = i + 1;
                }
                assert(a@.subrange(0, a@.len() as int) =~= a@);
                Ok(out)
            },
            ConfigValue::String(s) => {
                let cs = chars_of(s.as_str());
                let whole = trimmed(&cs);
                if whole.len() == 0 {
                    let empty: Vec<T> = Vec::new();
                    assert(views_of(empty@) =~= Seq::<T::V>::empty());
                    return Ok(empty);
                }
                let parts = split_chars(&cs, ',');
                let ghost all = split_on(s@, ',');
                let mut out: Vec<T> = Vec::new();
                let mut i: usize = 0;
                assert(all.subrange(0, 0) =~= Seq::<Seq<char>>::empty());
                assert(views_of(out@) =~= Seq::<T::V>::empty());
                while i < parts.len()
                    invariant
                        *self == ConfigValue::String(*s),
                        all == split_on(s@, ','),
                        trim(s@).len() != 0,
                        i <= parts@.len(),
                        parts@.len() == all.len(),
                        forall|j: int| 0 <= j < parts@.len() ==> #[trigger] parts@[j]@ == all[j],
                        collect_texts::<T>(
                            nonempty_trimmed(all.subrange(0, i as int)),
                            *field,
                        ) == Ok::<Seq<T::V>, ErrorView>(views_of(out@)),
                    decreases parts@.len() - i,
                {
                    let ghost prefix = nonempty_trimmed(all.subrange(0, i as int));
                    proof {
                        assert(all.subrange(0, i + 1).drop_last() =~= all.subrange(0, i as int));
                    }
                    let piece = trimmed(&parts[i]);
                    if piece.len() > 0 {
                        let text = string_from_chars(&piece);
                        match T::parse_text(text.as_str()) {
                            Ok(x) => {
                                let ghost prev = out@;
                                out.push(x);
                                assert(views_of(out@) =~= views_of(prev).push(x@));
                                assert(nonempty_trimmed(all.subrange(0, i + 1)) == prefix.push(
                                    piece@,
                                ));
                                assert(prefix.push(piece@).drop_last() =~= prefix);
                            },
                            Err(c) => {
                                proof {
                                    let done = nonempty_trimmed(all.subrange(0, i + 1));
                                    assert(done == prefix.push(piece@));
                                    assert(prefix.push(piece@).drop_last() =~= prefix);
                                    assert(text@ == piece@);
                                    assert(T::parsed(piece@) == Err::<T::V, Seq<char>>(c@));
                                    assert(collect_texts::<T>(done, *field) == Err::<
                                        Seq<T::V>,
                                        ErrorView,
                                    >(parse_error_view(*field, piece@, c@)));
                                    assert(all.subrange(0, i + 1) + all.subrange(
                                        i + 1,
                                        all.len() as int,
                                    ) =~= all);
                                    lemma_nonempty_trimmed_append(
                                        all.subrange(0, i + 1),
                                        all.subrange(i + 1, all.len() as int),
                                    );
                                    lemma_collect_texts_append_err::<T>(
                                        done,
                                        nonempty_trimmed(all.subrange(i + 1, all.len() as int)),
                                        *field,
                                    );
                                }
                                return Err(ConfigError::parse(field, text.as_str(), c.as_str()));
                            },
                        }
                    }
                    i = i + 1;
                }
                assert(all.subrange(0, all.len() as int) =~= all);
                Ok(out)
            },
            other => {
                let shown = other.to_string();
                let kind = match other {
                    ConfigValue::Integer(_) => "integer",
                    ConfigValue::Float(_) => "float",
                    ConfigValue::Bool(_) => "bool",
                    ConfigValue::Table(_) => "table",
                    _ => "value",
                };
                let mut msg = owned("cannot coerce ");
                msg.append(kind);
                msg.append(" to Vec");
                Err(ConfigError::parse(field, shown.as_str(), msg.as_str()))
            },
        }
    }
}

} // verus!
