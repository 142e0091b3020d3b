//! What `#[derive(Config)]` decides, on plain values: the `#[config(..)]`
//! attributes it accepts, the keys it derives for each field, how a
//! field's value is coerced and defaulted, and how the fields of a
//! flattened struct are nested.
use vstd::prelude::*;
use crate::field::{strip_ws, DeserializeFn, DeserializeView, FieldMeta};
use crate::text::{
    chars_of, has_prefix, lemma_split_nonempty, owned, split_chars, split_on, str_eq,
    string_from_chars, to_uppercase, upper_text,
};


verus! {

/// The position of the first `c` in `s`.
pub open spec fn first_index_of(s: Seq<char>, c: char) -> Option<int>
    decreases s.len(),
{
    if s.len() == 0 {
        None
    } else if s[0] == c {
        Some(0)
    } else {
        match first_index_of(s.drop_first(), c) {
            Some(i) => Some(i + 1),
            None => None,
        }
    }
}

/// The path part of a type, before its first `<`.
pub open spec fn type_head(t: Seq<char>) -> Seq<char> {
    match first_index_of(t, '<') {
        Some(i) => t.take(i),
        None => t,
    }
}

/// The last segment of a type's path, e.g. `Duration` for
/// `std::time::Duration` and `Option` for `Option<u8>`.
pub open spec fn last_ident(t: Seq<char>) -> Seq<char> {
    split_on(type_head(t), ':').last()
}

/// How much a character opens (1), closes (-1) or leaves (0) the nesting.
pub open spec fn nesting(c: char) -> int {
    if c == '<' || c == '(' || c == '[' {
        1
    } else if c == '>' || c == ')' || c == ']' {
        -1
    } else {
        0
    }
}

/// The length of the first argument of `s`: up to the first `,` that is not
/// nested in brackets, or all of `s`.
pub open spec fn first_arg_len(s: Seq<char>, depth: int) -> nat
    decreases s.len(),
{
    if s.len() == 0 {
        0
    } else if s[0] == ',' && depth == 0 {
        0
    } else {
        1 + first_arg_len(s.drop_first(), depth + nesting(s[0]))
    }
}

/// The first generic argument of a type written `Name<A, ..>`, when it is a
/// type (not a lifetime).
pub open spec fn first_type_arg(t: Seq<char>) -> Option<Seq<char>> {
    match first_index_of(t, '<') {
        Some(i) => if t.len() >= i + 2 && t.last() == '>' {
            let args = t.subrange(i + 1, t.len() - 1);
            let a = args.take(first_arg_len(args, 0) as int);
            if a.len() == 0 || a[0] == '\'' {
                None
            } else {
                Some(a)
            }
        } else {
            None
        },
        None => None,
    }
}

/// Whether the type's last path segment is `name`.
pub open spec fn type_is(t: Seq<char>, name: Seq<char>) -> bool {
    last_ident(t) == name
}

/// The first type argument of a type whose last path segment is `name`.
pub open spec fn type_inner(t: Seq<char>, name: Seq<char>) -> Option<Seq<char>> {
    if type_is(t, name) {
        first_type_arg(t)
    } else {
        None
    }
}

proof fn lemma_first_index_bound(s: Seq<char>, c: char)
    ensures
        first_index_of(s, c) matches Some(i) ==> 0 <= i < s.len() && s[i] == c,
    decreases s.len(),
{
    if s.len() > 0 {
        lemma_first_index_bound(s.drop_first(), c);
    }
}

proof fn lemma_first_arg_len_bound(s: Seq<char>, depth: int)
    ensures
        first_arg_len(s, depth) <= s.len(),
    decreases s.len(),
{
    if s.len() > 0 {
        lemma_first_arg_len_bound(s.drop_first(), depth + nesting(s[0]));
    }
}

/// A type argument is shorter than the type.
pub proof fn lemma_first_type_arg_shorter(t: Seq<char>)
    ensures
        first_type_arg(t) matches Some(a) ==> a.len() < t.len(),
{
    lemma_first_index_bound(t, '<');
    match first_index_of(t, '<') {
        Some(i) => if t.len() >= i + 2 && t.last() == '>' {
            let args = t.subrange(i + 1, t.len() - 1);
            lemma_first_arg_len_bound(args, 0);
        },
        None => {},
    }
}

/// How a present value becomes the field's type, under `Option` wrappers.
pub enum CoercionView {
    /// `Secret<Vec<T>>`: a list read item by item, then wrapped.
    SecretVec(Seq<char>),
    /// `Secret<Duration>`: whole seconds, then wrapped.
    SecretDuration,
    /// `Secret<T>`: read as `T`, then wrapped.
    Secret(Seq<char>),
    /// `Vec<T>`: a list read item by item (see `list_texts`), each item
    /// with `T`'s `FromStr`.
    List(Seq<char>),
    /// `Duration`: whole seconds.
    Duration,
    /// `String`: the value's text.
    Text,
    /// Any other type: the value's text (see `scalar_text`) read with the
    /// type's `FromStr`.
    Scalar(Seq<char>),
}

/// The coercion of a type that is not an `Option`.
pub open spec fn base_coercion(t: Seq<char>) -> CoercionView {
    if type_is(t, "Secret"@) && first_type_arg(t) is Some {
        let inner = first_type_arg(t)->Some_0;
        match type_inner(inner, "Vec"@) {
            Some(v) => CoercionView::SecretVec(v),
            None => if type_is(inner, "Duration"@) {
                CoercionView::SecretDuration
            } else {
                CoercionView::Secret(inner)
            },
        }
    } else {
        match type_inner(t, "Vec"@) {
            Some(v) => CoercionView::List(v),
            None => if type_is(t, "Duration"@) {
                CoercionView::Duration
            } else if type_is(t, "String"@) {
                CoercionView::Text
            } else {
                CoercionView::Scalar(t)
            },
        }
    }
}

/// How many `Option` wrappers a type has, and the coercion of what they
/// wrap.
pub open spec fn coercion_plan(t: Seq<char>) -> (nat, CoercionView)
    decreases t.len(),
{
    match type_inner(t, "Option"@) {
        Some(inner) => {
            proof {
                lemma_first_type_arg_shorter(t);
            }
            let (n, c) = coercion_plan(inner);
            (n + 1, c)
        },
        None => (0, base_coercion(t)),
    }
}


proof fn lemma_first_index_skip(s: Seq<char>, c: char, i: int)
    requires
        0 <= i <= s.len(),
        forall|j: int| 0 <= j < i ==> s[j] != c,
    ensures
        first_index_of(s, c) == match first_index_of(s.skip(i), c) {
            Some(k) => Some(k + i),
            None => None::<int>,
        },
    decreases i,
{
    if i > 0 {
        lemma_first_index_skip(s.drop_first(), c, i - 1);
        assert(s.drop_first().skip(i - 1) =~= s.skip(i));
    } else {
        assert(s.skip(0) =~= s);
    }
}

fn index_of_char(s: &Vec<char>, c: char) -> (r: Option<usize>)
    ensures
        match r {
            Some(i) => first_index_of(s@, c) == Some(i as int),
            None => first_index_of(s@, c) is None,
        },
{
    let mut i: usize = 0;
    while i < s.len()
        invariant
            i <= s@.len(),
            forall|j: int| 0 <= j < i ==> s@[j] != c,
        decreases s@.len() - i,
    {
        if s[i] == c {
            proof {
                lemma_first_index_skip(s@, c, i as int);
                assert(s@.skip(i as int)[0] == c);
            }
            return Some(i);
        }
        i = i + 1;
    }
    proof {
        lemma_first_index_skip(s@, c, i as int);
        assert(s@.skip(i as int) =~= Seq::<char>::empty());
    }
    None
}

fn take_chars(s: &Vec<char>, n: usize) -> (r: Vec<char>)
    requires
        n <= s@.len(),
    ensures
        r@ == s@.take(n as int),
{
    let mut r: Vec<char> = Vec::new();
    let mut i: usize = 0;
    while i < n
        invariant
            i <= n <= s@.len(),
            r@ == s@.take(i as int),
        decreases n - i,
    {
        r.push(s[i]);
        i = i + 1;
        assert(r@ =~= s@.take(i as int));
    }
    r
}

fn sub_chars(s: &Vec<char>, from: usize, to: usize) -> (r: Vec<char>)
    requires
        from <= to <= s@.len(),
    ensures
        r@ == s@.subrange(from as int, to as int),
{
    let mut r: Vec<char> = Vec::new();
    let mut i: usize = from;
    while i < to
        invariant
            from <= i <= to <= s@.len(),
            r@ == s@.subrange(from as int, i as int),
        decreases to - i,
    {
        r.push(s[i]);
        i = i + 1;
        assert(r@ =~= s@.subrange(from as int, i as int));
    }
    r
}

fn type_head_of(t: &Vec<char>) -> (r: Vec<char>)
    ensures
        r@ == type_head(t@),
{
    match index_of_char(t, '<') {
        Some(i) => {
            proof {
                lemma_first_index_bound(t@, '<');
            }
            take_chars(t, i)
        },
        None => {
            let mut r: Vec<char> = Vec::new();
            let mut i: usize = 0;
            while i < t.len()
                invariant
                    i <= t@.len(),
                    r@ == t@.take(i as int),
                decreases t@.len() - i,
            {
                r.push(t[i]);
                i = i + 1;
                assert(r@ =~= t@.take(i as int));
            }
            assert(t@.take(t@.len() as int) =~= t@);
            r
        },
    }
}

fn last_ident_of(t: &Vec<char>) -> (r: Vec<char>)
    ensures
        r@ == last_ident(t@),
{
    let head = type_head_of(t);
    let mut parts = split_chars(&head, ':');
    let n = parts.len();
    proof {
        lemma_split_nonempty(head@, ':');
    }
    if n == 0 {
        Vec::new()
    } else {
        let last = parts.remove(n - 1);
        last
    }
}

fn first_arg_end(s: &Vec<char>) -> (r: usize)
    ensures
        r == first_arg_len(s@, 0),
{
    let mut i: usize = 0;
    let mut depth: i128 = 0;
    proof {
        assert(s@.skip(0) =~= s@);
    }
    while i < s.len()
        invariant
            i <= s@.len(),
            -(i as int) <= depth <= i as int,
            first_arg_len(s@, 0) == i + first_arg_len(s@.skip(i as int), depth as int),
        decreases s@.len() - i,
    {
        let c = s[i];
        if c == ',' && depth == 0 {
            proof {
                assert(s@.skip(i as int)[0] == c);
            }
            return i;
        }
        proof {
            assert(s@.skip(i as int)[0] == c);
            assert(s@.skip(i as int).drop_first() =~= s@.skip(i + 1));
        }
        if c == '<' || c == '(' || c == '[' {
            depth = depth + 1;
        } else if c == '>' || c == ')' || c == ']' {
            depth = depth - 1;
        }
        i = i + 1;
    }
    proof {
        assert(s@.skip(i as int) =~= Seq::<char>::empty());
    }
    i
}

fn first_type_arg_of(t: &Vec<char>) -> (r: Option<Vec<char>>)
    ensures
        match r {
            Some(a) => first_type_arg(t@) == Some(a@),
            None => first_type_arg(t@) is None,
        },
{
    match index_of_char(t, '<') {
        Some(i) => {
            proof {
                lemma_first_index_bound(t@, '<');
            }
            if t.len() - i >= 2 && t[t.len() - 1] == '>' {
                let args = sub_chars(t, i + 1, t.len() - 1);
                let k = first_arg_end(&args);
                proof {
                    lemma_first_arg_len_bound(args@, 0);
                }
                let a = take_chars(&args, k);
                if a.len() == 0 || a[0] == '\'' {
                    None
                } else {
                    Some(a)
                }
            } else {
                None
            }
        },
        None => None,
    }
}

fn chars_eq_str(a: &Vec<char>, b: &str) -> (r: bool)
    ensures
        r == (a@ == b@),
{
    let bc = chars_of(b);
    if a.len() != bc.len() {
        return false;
    }
    let mut i: usize = 0;
    while i < a.len()
        invariant
            i <= a@.len(),
            a@.len() == bc@.len(),
            bc@ == b@,
            forall|j: int| 0 <= j < i ==> a@[j] == bc@[j],
        decreases a@.len() - i,
    {
        if a[i] != bc[i] {
            return false;
        }
        i = i + 1;
    }
    assert(a@ =~= bc@);
    true
}

fn type_is_named(t: &Vec<char>, name: &str) -> (r: bool)
    ensures
        r == type_is(t@, name@),
{
    let id = last_ident_of(t);
    chars_eq_str(&id, name)
}

fn type_inner_of(t: &Vec<char>, name: &str) -> (r: Option<Vec<char>>)
    ensures
        match r {
            Some(a) => type_inner(t@, name@) == Some(a@),
            None => type_inner(t@, name@) is None,
        },
{
    if type_is_named(t, name) {
        first_type_arg_of(t)
    } else {
        None
    }
}

/// How a present value becomes the field's type (see `CoercionView`).
#[derive(Debug, Clone, PartialEq, Eq)]
pub enum Coercion {
    SecretVec(String),
    SecretDuration,
    Secret(String),
    List(String),
    Duration,
    Text,
    Scalar(String),
}

impl View for Coercion {
    type V = CoercionView;

    open spec fn view(&self) -> CoercionView {
        match self {
            Coercion::SecretVec(t) => CoercionView::SecretVec(t@),
            Coercion::SecretDuration => CoercionView::SecretDuration,
            Coercion::Secret(t) => CoercionView::Secret(t@),
            Coercion::List(t) => CoercionView::List(t@),
            Coercion::Duration => CoercionView::Duration,
            Coercion::Text => CoercionView::Text,
            Coercion::Scalar(t) => CoercionView::Scalar(t@),
        }
    }
}

fn base_coercion_of(t: &Vec<char>) -> (r: Coercion)
    ensures
        r@ == base_coercion(t@),
{
    let secret_arg = if type_is_named(t, "Secret") {
        first_type_arg_of(t)
    } else {
        None
    };
    match secret_arg {
        Some(inner) => match type_inner_of(&inner, "Vec") {
            Some(v) => Coercion::SecretVec(string_from_chars(&v)),
            None => if type_is_named(&inner, "Duration") {
                Coercion::SecretDuration
            } else {
                Coercion::Secret(string_from_chars(&inner))
            },
        },
        None => match type_inner_of(t, "Vec") {
            Some(v) => Coercion::List(string_from_chars(&v)),
            None => if type_is_named(t, "Duration") {
                Coercion::Duration
            } else if type_is_named(t, "String") {
                Coercion::Text
            } else {
                Coercion::Scalar(string_from_chars(t))
            },
        },
    }
}

fn coercion_plan_of(t: &Vec<char>) -> (r: (usize, Coercion))
    ensures
        r.0 as nat == coercion_plan(t@).0,
        r.1@ == coercion_plan(t@).1,
        r.0 <= t@.len(),
    decreases t@.len(),
{
    let tl = t.len();
    match type_inner_of(t, "Option") {
        Some(inner) => {
            proof {
                lemma_first_type_arg_shorter(t@);
            }
            let (n, c) = coercion_plan_of(&inner);
            (n + 1, c)
        },
        None => (0, base_coercion_of(t)),
    }
}


/// The value given to one `#[config(..)]` item: none (a flag), a string
/// literal, or another expression (as written).
#[derive(Debug, Clone, PartialEq, Eq)]
pub enum AttrValue {
    Flag,
    Lit(String),
    Expr(String),
}

/// The mathematical content of an `AttrValue`.
pub enum AttrValueView {
    Flag,
    Lit(Seq<char>),
    Expr(Seq<char>),
}

impl View for AttrValue {
    type V = AttrValueView;

    open spec fn view(&self) -> AttrValueView {
        match self {
            AttrValue::Flag => AttrValueView::Flag,
            AttrValue::Lit(s) => AttrValueView::Lit(s@),
            AttrValue::Expr(s) => AttrValueView::Expr(s@),
        }
    }
}

impl AttrValue {
    fn duplicate(&self) -> (r: AttrValue)
        ensures
            r@ == self@,
    {
        match self {
            AttrValue::Flag => AttrValue::Flag,
            AttrValue::Lit(s) => AttrValue::Lit(s.clone()),
            AttrValue::Expr(s) => AttrValue::Expr(s.clone()),
        }
    }
}

/// One item of a `#[config(..)]` attribute, e.g. `prefix = "APP"` or
/// `secret`.
#[derive(Debug, Clone, PartialEq, Eq)]
pub struct AttrItem {
    pub key: String,
    pub value: AttrValue,
}

impl View for AttrItem {
    type V = (Seq<char>, AttrValueView);

    open spec fn view(&self) -> (Seq<char>, AttrValueView) {
        (self.key@, self.value@)
    }
}

impl AttrItem {
    /// `key = "value"`.
    pub fn lit(key: &str, value: &str) -> (r: AttrItem)
        ensures
            r@ == (key@, AttrValueView::Lit(value@)),
    {
        AttrItem { key: owned(key), value: AttrValue::Lit(owned(value)) }
    }

    /// `key = expression`, the expression as written.
    pub fn expr(key: &str, expression: &str) -> (r: AttrItem)
        ensures
            r@ == (key@, AttrValueView::Expr(expression@)),
    {
        AttrItem { key: owned(key), value: AttrValue::Expr(owned(expression)) }
    }

    /// A bare `key`.
    pub fn flag(key: &str) -> (r: AttrItem)
        ensures
            r@ == (key@, AttrValueView::Flag),
    {
        AttrItem { key: owned(key), value: AttrValue::Flag }
    }
}

/// The views of a list of items.
pub open spec fn items_view(s: Seq<AttrItem>) -> Seq<(Seq<char>, AttrValueView)> {
    s.map_values(|i: AttrItem| i@)
}

/// An error of the derive, with its message.
#[derive(Debug, Clone, PartialEq, Eq)]
pub struct DeriveError {
    pub message: String,
}

/// A string literal's value; a flag lacks the `=`, another expression is
/// not a string literal.
pub open spec fn lit_value(v: AttrValueView) -> Result<Seq<char>, Seq<char>> {
    match v {
        AttrValueView::Lit(s) => Ok(s),
        AttrValueView::Flag => Err("expected `=`"@),
        AttrValueView::Expr(_) => Err("expected string literal"@),
    }
}

/// The message of the error that `syn` reports when `text` is read as a
/// Rust path (`syn::Path`), or `None` when it reads as one.
pub uninterp spec fn path_syntax_error(text: Seq<char>) -> Option<Seq<char>>;

/// `syn::parse_str::<syn::Path>`: whether `text` is a Rust path, and if not,
/// the rendered message of the `syn::Error` it gives. The contract ties the
/// answer to the text alone, through `path_syntax_error`; the grammar of
/// paths is `syn`'s and is not restated here.
#[verifier::external_body]
fn path_error(text: &str) -> (r: Option<String>)
    ensures
        match r {
            Some(m) => path_syntax_error(text@) == Some(m@),
            None => path_syntax_error(text@) is None,
        },
{
    match syn::parse_str::<syn::Path>(text) {
        Ok(_) => None,
        Err(e) => Some(e.to_string()),
    }
}

fn lit_of(v: &AttrValue) -> (r: Result<String, DeriveError>)
    ensures
        match r {
            Ok(s) => lit_value(v@) == Ok::<Seq<char>, Seq<char>>(s@),
            Err(e) => lit_value(v@) == Err::<Seq<char>, Seq<char>>(e.message@),
        },
{
    match v {
        AttrValue::Lit(s) => Ok(s.clone()),
        AttrValue::Flag => Err(DeriveError { message: owned("expected `=`") }),
        AttrValue::Expr(_) => Err(DeriveError { message: owned("expected string literal") }),
    }
}

/// The struct-level attributes: `prefix` and `group` are required, `sep`
/// defaults to `"__"` and `toml_key` to the group.
#[derive(Debug, Clone, PartialEq, Eq)]
pub struct StructAttrs {
    pub prefix: String,
    pub group: String,
    pub sep: String,
    pub toml_key: String,
}

/// The mathematical content of `StructAttrs`.
pub struct StructAttrsView {
    pub prefix: Seq<char>,
    pub group: Seq<char>,
    pub sep: Seq<char>,
    pub toml_key: Seq<char>,
}

impl View for StructAttrs {
    type V = StructAttrsView;

    open spec fn view(&self) -> StructAttrsView {
        StructAttrsView {
            prefix: self.prefix@,
            group: self.group@,
            sep: self.sep@,
            toml_key: self.toml_key@,
        }
    }
}

/// The struct-level values given so far: prefix, group, sep, toml_key.
pub type StructAcc = (Option<Seq<char>>, Option<Seq<char>>, Option<Seq<char>>, Option<Seq<char>>);

/// One struct-level item applied; a later item overrides an earlier one.
pub open spec fn struct_step(acc: StructAcc, item: (Seq<char>, AttrValueView)) -> Result<StructAcc, Seq<char>> {
    let (k, v) = item;
    if k == "prefix"@ {
        match lit_value(v) {
            Ok(s) => Ok((Some(s), acc.1, acc.2, acc.3)),
            Err(m) => Err(m),
        }
    } else if k == "group"@ {
        match lit_value(v) {
            Ok(s) => Ok((acc.0, Some(s), acc.2, acc.3)),
            Err(m) => Err(m),
        }
    } else if k == "sep"@ {
        match lit_value(v) {
            Ok(s) => Ok((acc.0, acc.1, Some(s), acc.3)),
            Err(m) => Err(m),
        }
    } else if k == "toml_key"@ {
        match lit_value(v) {
            Ok(s) => Ok((acc.0, acc.1, acc.2, Some(s))),
            Err(m) => Err(m),
        }
    } else {
        Err("unknown struct config attribute; expected one of: prefix, group, sep, toml_key"@)
    }
}

/// The struct-level items applied in order, stopping at the first error.
pub open spec fn struct_scan(items: Seq<(Seq<char>, AttrValueView)>) -> Result<StructAcc, Seq<char>>
    decreases items.len(),
{
    if items.len() == 0 {
        Ok((None, None, None, None))
    } else {
        match struct_scan(items.drop_last()) {
            Ok(acc) => struct_step(acc, items.last()),
            Err(m) => Err(m),
        }
    }
}

/// The struct-level attributes that the items give, or the first error.
pub open spec fn struct_attrs_of(items: Seq<(Seq<char>, AttrValueView)>) -> Result<StructAttrsView, Seq<char>> {
    match struct_scan(items) {
        Err(m) => Err(m),
        Ok((p, g, sep, t)) => match p {
            None => Err("#[config(prefix = \"...\")] is required on the struct"@),
            Some(p) => match g {
                None => Err("#[config(group = \"...\")] is required on the struct"@),
                Some(g) => Ok(
                    StructAttrsView {
                        prefix: p,
                        group: g,
                        sep: match sep {
                            Some(s) => s,
                            None => "__"@,
                        },
                        toml_key: match t {
                            Some(t) => t,
                            None => g,
                        },
                    },
                ),
            },
        },
    }
}

/// The view of an optional string.
pub open spec fn opt_view(o: Option<String>) -> Option<Seq<char>> {
    match o {
        Some(s) => Some(s@),
        None => None,
    }
}

/// Reads the struct-level `#[config(..)]` items.
pub fn parse_struct_attrs(items: &[AttrItem]) -> (r: Result<StructAttrs, DeriveError>)
    ensures
        match r {
            Ok(a) => struct_attrs_of(items_view(items@)) == Ok::<StructAttrsView, Seq<char>>(a@),
            Err(e) => struct_attrs_of(items_view(items@)) == Err::<StructAttrsView, Seq<char>>(
                e.message@,
            ),
        },
{
    let ghost iv = items_view(items@);
    let mut prefix: Option<String> = None;
    let mut group: Option<String> = None;
    let mut sep: Option<String> = None;
    let mut toml_key: Option<String> = None;
    let mut i: usize = 0;
    assert(iv.take(0) =~= Seq::<(Seq<char>, AttrValueView)>::empty());
    while i < items.len()
        invariant
            i <= items@.len(),
            iv == items_view(items@),
            struct_scan(iv.take(i as int)) == Ok::<StructAcc, Seq<char>>(
                (opt_view(prefix), opt_view(group), opt_view(sep), opt_view(toml_key)),
            ),
        decreases items@.len() - i,
    {
        let item = &items[i];
        proof {
            let t = iv.take(i + 1);
            assert(t.drop_last() =~= iv.take(i as int));
            assert(t.last() == item@);
        }
        let k = item.key.as_str();
        if str_eq(k, "prefix") {
            match lit_of(&item.value) {
                Ok(s) => {
                    prefix = Some(s);
                },
                Err(e) => {
                    proof {
                        lemma_struct_scan_err(iv, i as int + 1);
                    }
                    return Err(e);
                },
            }
        } else if str_eq(k, "group") {
            match lit_of(&item.value) {
                Ok(s) => {
                    group = Some(s);
                },
                Err(e) => {
                    proof {
                        lemma_struct_scan_err(iv, i as int + 1);
                    }
                    return Err(e);
                },
            }
        } else if str_eq(k, "sep") {
            match lit_of(&item.value) {
                Ok(s) => {
                    sep = Some(s);
                },
                Err(e) => {
                    proof {
                        lemma_struct_scan_err(iv, i as int + 1);
                    }
                    return Err(e);
                },
            }
        } else if str_eq(k, "toml_key") {
            match lit_of(&item.value) {
                Ok(s) => {
                    toml_key = Some(s);
                },
                Err(e) => {
                    proof {
                        lemma_struct_scan_err(iv, i as int + 1);
                    }
                    return Err(e);
                },
            }
        } else {
            proof {
                lemma_struct_scan_err(iv, i as int + 1);
            }
            return Err(
                DeriveError {
                    message: owned(
                        "unknown struct config attribute; expected one of: prefix, group, sep, toml_key",
                    ),
                },
            );
        }
        i = i + 1;
    }
    assert(iv.take(i as int) =~= iv);
    let prefix = match prefix {
        Some(p) => p,
        None => {
            return Err(
                DeriveError { message: owned("#[config(prefix = \"...\")] is required on the struct") },
            );
        },
    };
    let group = match group {
        Some(g) => g,
        None => {
            return Err(
                DeriveError { message: owned("#[config(group = \"...\")] is required on the struct") },
            );
        },
    };
    let sep = match sep {
        Some(s) => s,
        None => owned("__"),
    };
    let toml_key = match toml_key {
        Some(t) => t,
        None => group.clone(),
    };
    Ok(StructAttrs { prefix, group, sep, toml_key })
}

proof fn lemma_struct_scan_err(items: Seq<(Seq<char>, AttrValueView)>, n: int)
    requires
        0 <= n <= items.len(),
        struct_scan(items.take(n)) is Err,
    ensures
        struct_scan(items) == struct_scan(items.take(n)),
    decreases items.len(),
{
    if items.len() > n {
        assert(items.drop_last().take(n) =~= items.take(n));
        lemma_struct_scan_err(items.drop_last(), n);
    } else {
        assert(items.take(n) =~= items);
    }
}


/// The field-level attributes.
#[derive(Debug, Clone, PartialEq, Eq)]
pub struct FieldAttrs {
    pub default: Option<AttrValue>,
    pub env_key: Option<String>,
    pub toml_key: Option<String>,
    pub secret: bool,
    pub skip: bool,
    pub flatten: bool,
    pub deserialize_with: Option<String>,
}

/// The mathematical content of `FieldAttrs`.
pub struct FieldAttrsView {
    pub default: Option<AttrValueView>,
    pub env_key: Option<Seq<char>>,
    pub toml_key: Option<Seq<char>>,
    pub secret: bool,
    pub skip: bool,
    pub flatten: bool,
    pub deserialize_with: Option<Seq<char>>,
}

impl View for FieldAttrs {
    type V = FieldAttrsView;

    open spec fn view(&self) -> FieldAttrsView {
        FieldAttrsView {
            default: match self.default {
                Some(d) => Some(d@),
                None => None,
            },
            env_key: opt_view(self.env_key),
            toml_key: opt_view(self.toml_key),
            secret: self.secret,
            skip: self.skip,
            flatten: self.flatten,
            deserialize_with: opt_view(self.deserialize_with),
        }
    }
}

/// A flag item takes no value.
pub open spec fn flag_value(v: AttrValueView) -> Result<(), Seq<char>> {
    match v {
        AttrValueView::Flag => Ok(()),
        _ => Err("expected `,`"@),
    }
}

/// One field-level item applied; a later item overrides an earlier one.
pub open spec fn field_step(acc: FieldAttrsView, item: (Seq<char>, AttrValueView)) -> Result<
    FieldAttrsView,
    Seq<char>,
> {
    let (k, v) = item;
    if k == "default"@ {
        match v {
            AttrValueView::Flag => Err("expected `=`"@),
            _ => Ok(FieldAttrsView { default: Some(v), ..acc }),
        }
    } else if k == "env_key"@ {
        match lit_value(v) {
            Ok(s) => Ok(FieldAttrsView { env_key: Some(s), ..acc }),
            Err(m) => Err(m),
        }
    } else if k == "toml_key"@ {
        match lit_value(v) {
            Ok(s) => Ok(FieldAttrsView { toml_key: Some(s), ..acc }),
            Err(m) => Err(m),
        }
    } else if k == "secret"@ {
        match flag_value(v) {
            Ok(_) => Ok(FieldAttrsView { secret: true, ..acc }),
            Err(m) => Err(m),
        }
    } else if k == "skip"@ {
        match flag_value(v) {
            Ok(_) => Ok(FieldAttrsView { skip: true, ..acc }),
            Err(m) => Err(m),
        }
    } else if k == "flatten"@ {
        match flag_value(v) {
            Ok(_) => Ok(FieldAttrsView { flatten: true, ..acc }),
            Err(m) => Err(m),
        }
    } else if k == "deserialize_with"@ {
        match lit_value(v) {
            Ok(s) => match path_syntax_error(s) {
                Some(m) => Err("invalid path for deserialize_with: "@ + m),
                None => Ok(FieldAttrsView { deserialize_with: Some(s), ..acc }),
            },
            Err(m) => Err(m),
        }
    } else {
        Err(
            "unknown field config attribute; expected one of: default, env_key, toml_key, secret, skip, flatten, deserialize_with"@,
        )
    }
}

/// No field-level attribute given.
pub open spec fn no_field_attrs() -> FieldAttrsView {
    FieldAttrsView {
        default: None,
        env_key: None,
        toml_key: None,
        secret: false,
        skip: false,
        flatten: false,
        deserialize_with: None,
    }
}

/// The field-level items applied in order, stopping at the first error.
pub open spec fn field_scan(items: Seq<(Seq<char>, AttrValueView)>) -> Result<FieldAttrsView, Seq<char>>
    decreases items.len(),
{
    if items.len() == 0 {
        Ok(no_field_attrs())
    } else {
        match field_scan(items.drop_last()) {
            Ok(acc) => field_step(acc, items.last()),
            Err(m) => Err(m),
        }
    }
}

/// The field-level attributes that the items give: `skip` excludes
/// `default`, and `flatten` excludes `secret`, `default` and `env_key`.
pub open spec fn field_attrs_of(items: Seq<(Seq<char>, AttrValueView)>) -> Result<FieldAttrsView, Seq<char>> {
    match field_scan(items) {
        Err(m) => Err(m),
        Ok(a) => if a.skip && a.default is Some {
            Err("#[config(skip)] and #[config(default = ...)] are mutually exclusive"@)
        } else if a.flatten && (a.secret || a.default is Some || a.env_key is Some) {
            Err("#[config(flatten)] cannot be combined with secret/default/env_key"@)
        } else {
            Ok(a)
        },
    }
}

proof fn lemma_field_scan_err(items: Seq<(Seq<char>, AttrValueView)>, n: int)
    requires
        0 <= n <= items.len(),
        field_scan(items.take(n)) is Err,
    ensures
        field_scan(items) == field_scan(items.take(n)),
    decreases items.len(),
{
    if items.len() > n {
        assert(items.drop_last().take(n) =~= items.take(n));
        lemma_field_scan_err(items.drop_last(), n);
    } else {
        assert(items.take(n) =~= items);
    }
}

fn flag_of(v: &AttrValue) -> (r: Result<(), DeriveError>)
    ensures
        match r {
            Ok(_) => flag_value(v@) is Ok,
            Err(e) => flag_value(v@) == Err::<(), Seq<char>>(e.message@),
        },
{
    match v {
        AttrValue::Flag => Ok(()),
        _ => Err(DeriveError { message: owned("expected `,`") }),
    }
}

fn field_step_exec(acc: &mut FieldAttrs, item: &AttrItem) -> (r: Result<(), DeriveError>)
    ensures
        match r {
            Ok(_) => field_step(old(acc)@, item@) == Ok::<FieldAttrsView, Seq<char>>(final(acc)@),
            Err(e) => field_step(old(acc)@, item@) == Err::<FieldAttrsView, Seq<char>>(e.message@),
        },
{
    let k = item.key.as_str();
    if str_eq(k, "default") {
        match &item.value {
            AttrValue::Flag => Err(DeriveError { message: owned("expected `=`") }),
            v => {
                acc.default = Some(v.duplicate());
                Ok(())
            },
        }
    } else if str_eq(k, "env_key") {
        let s = lit_of(&item.value)?;
        acc.env_key = Some(s);
        Ok(())
    } else if str_eq(k, "toml_key") {
        let s = lit_of(&item.value)?;
        acc.toml_key = Some(s);
        Ok(())
    } else if str_eq(k, "secret") {
        flag_of(&item.value)?;
        acc.secret = true;
        Ok(())
    } else if str_eq(k, "skip") {
        flag_of(&item.value)?;
        acc.skip = true;
        Ok(())
    } else if str_eq(k, "flatten") {
        flag_of(&item.value)?;
        acc.flatten = true;
        Ok(())
    } else if str_eq(k, "deserialize_with") {
        let s = lit_of(&item.value)?;
        match path_error(s.as_str()) {
            Some(m) => {
                let mut message = owned("invalid path for deserialize_with: ");
                message.append(m.as_str());
                Err(DeriveError { message })
            },
            None => {
                acc.deserialize_with = Some(s);
                Ok(())
            },
        }
    } else {
        Err(
            DeriveError {
                message: owned(
                    "unknown field config attribute; expected one of: default, env_key, toml_key, secret, skip, flatten, deserialize_with",
                ),
            },
        )
    }
}

/// Reads a field's `#[config(..)]` items.
pub fn parse_field_attrs(items: &[AttrItem]) -> (r: Result<FieldAttrs, DeriveError>)
    ensures
        match r {
            Ok(a) => field_attrs_of(items_view(items@)) == Ok::<FieldAttrsView, Seq<char>>(a@),
            Err(e) => field_attrs_of(items_view(items@)) == Err::<FieldAttrsView, Seq<char>>(
                e.message@,
            ),
        },
{
    let ghost iv = items_view(items@);
    let mut out = FieldAttrs {
        default: None,
        env_key: None,
        toml_key: None,
        secret: false,
        skip: false,
        flatten: false,
        deserialize_with: None,
    };
    let mut i: usize = 0;
    assert(iv.take(0) =~= Seq::<(Seq<char>, AttrValueView)>::empty());
    while i < items.len()
        invariant
            i <= items@.len(),
            iv == items_view(items@),
            field_scan(iv.take(i as int)) == Ok::<FieldAttrsView, Seq<char>>(out@),
        decreases items@.len() - i,
    {
        proof {
            let t = iv.take(i + 1);
            assert(t.drop_last() =~= iv.take(i as int));
            assert(t.last() == items@[i as int]@);
        }
        match field_step_exec(&mut out, &items[i]) {
            Ok(_) => {},
            Err(e) => {
                proof {
                    lemma_field_scan_err(iv, i as int + 1);
                }
                return Err(e);
            },
        }
        i = i + 1;
    }
    assert(iv.take(i as int) =~= iv);
    if out.skip && out.default.is_some() {
        return Err(
            DeriveError {
                message: owned("#[config(skip)] and #[config(default = ...)] are mutually exclusive"),
            },
        );
    }
    if out.flatten && (out.secret || out.default.is_some() || out.env_key.is_some()) {
        return Err(
            DeriveError {
                message: owned("#[config(flatten)] cannot be combined with secret/default/env_key"),
            },
        );
    }
    Ok(out)
}


/// How a field without a value in any source is initialised.
#[derive(Debug, Clone, PartialEq, Eq)]
pub enum DefaultPlan {
    /// `Secret::new(default.into())`.
    SecretNew(AttrValue),
    /// `default.into()`, for a `String` field.
    Into(AttrValue),
    /// The default expression itself.
    Value(AttrValue),
    /// `None`, for an `Option` field without a default.
    NoneValue,
}

/// The mathematical content of a `DefaultPlan`.
pub enum DefaultPlanView {
    SecretNew(AttrValueView),
    Into(AttrValueView),
    Value(AttrValueView),
    NoneValue,
}

impl View for DefaultPlan {
    type V = DefaultPlanView;

    open spec fn view(&self) -> DefaultPlanView {
        match self {
            DefaultPlan::SecretNew(v) => DefaultPlanView::SecretNew(v@),
            DefaultPlan::Into(v) => DefaultPlanView::Into(v@),
            DefaultPlan::Value(v) => DefaultPlanView::Value(v@),
            DefaultPlan::NoneValue => DefaultPlanView::NoneValue,
        }
    }
}

/// The default of a field of type `ty`: a declared default is wrapped for
/// a `Secret<T>` and converted for a `String`; without one, an `Option`
/// field starts as `None` and any other field is an error.
pub open spec fn default_plan(ty: Seq<char>, default: Option<AttrValueView>) -> Result<
    DefaultPlanView,
    Seq<char>,
> {
    match default {
        Some(e) => if type_is(ty, "Secret"@) && first_type_arg(ty) is Some {
            Ok(DefaultPlanView::SecretNew(e))
        } else if type_is(ty, "String"@) {
            Ok(DefaultPlanView::Into(e))
        } else {
            Ok(DefaultPlanView::Value(e))
        },
        None => if type_inner(ty, "Option"@) is Some {
            Ok(DefaultPlanView::NoneValue)
        } else {
            Err("required field must have #[config(default = ...)] or be Option<T>"@)
        },
    }
}

fn default_plan_of(ty: &Vec<char>, default: &Option<AttrValue>) -> (r: Result<DefaultPlan, DeriveError>)
    ensures
        match r {
            Ok(p) => default_plan(
                ty@,
                match default {
                    Some(d) => Some(d@),
                    None => None,
                },
            ) == Ok::<DefaultPlanView, Seq<char>>(p@),
            Err(e) => default_plan(
                ty@,
                match default {
                    Some(d) => Some(d@),
                    None => None,
                },
            ) == Err::<DefaultPlanView, Seq<char>>(e.message@),
        },
{
    match default {
        Some(e) => {
            let secret_inner = if type_is_named(ty, "Secret") {
                first_type_arg_of(ty)
            } else {
                None
            };
            if secret_inner.is_some() {
                Ok(DefaultPlan::SecretNew(e.duplicate()))
            } else if type_is_named(ty, "String") {
                Ok(DefaultPlan::Into(e.duplicate()))
            } else {
                Ok(DefaultPlan::Value(e.duplicate()))
            }
        },
        None => {
            if type_inner_of(ty, "Option").is_some() {
                Ok(DefaultPlan::NoneValue)
            } else {
                Err(
                    DeriveError {
                        message: owned(
                            "required field must have #[config(default = ...)] or be Option<T>",
                        ),
                    },
                )
            }
        },
    }
}

/// The conversion a `deserialize_with` path names: a path whose last
/// segment is `duration_from_secs` names the built-in one; any other path
/// names a function of the user's.
pub open spec fn deserialize_fn_for(path: Seq<char>) -> DeserializeView {
    if split_on(path, ':').last() == "duration_from_secs"@ {
        DeserializeView::DurationFromSecs
    } else {
        DeserializeView::Named(path)
    }
}

fn deserialize_fn_of(path: &str) -> (r: DeserializeFn)
    ensures
        r@ == deserialize_fn_for(path@),
{
    let c = chars_of(path);
    let mut parts = split_chars(&c, ':');
    proof {
        lemma_split_nonempty(c@, ':');
    }
    let n = parts.len();
    let last = parts.remove(n - 1);
    if chars_eq_str(&last, "duration_from_secs") {
        DeserializeFn::DurationFromSecs
    } else {
        DeserializeFn::Named(leak_str(owned(path)))
    }
}

/// `String::leak`: the string's characters, kept for the rest of the
/// program. The contract states that the characters are unchanged.
#[verifier::external_body]
fn leak_str(s: String) -> (r: &'static str)
    ensures
        r@ == s@,
{
    s.leak()
}

/// The content of a `FieldMeta`, with its texts as character sequences.
pub struct FieldMetaView {
    pub name: Seq<char>,
    pub config_key: Seq<char>,
    pub env_key: Seq<char>,
    pub generic_env_key: Option<Seq<char>>,
    pub is_secret: bool,
    pub expected_type: Seq<char>,
    pub has_default: bool,
    pub deserialize_fn: Option<DeserializeView>,
}

/// The content of a `FieldMeta`.
pub open spec fn meta_view(m: FieldMeta) -> FieldMetaView {
    FieldMetaView {
        name: m.name@,
        config_key: m.config_key@,
        env_key: m.env_key@,
        generic_env_key: match m.generic_env_key {
            Some(g) => Some(g@),
            None => None,
        },
        is_secret: m.is_secret,
        expected_type: m.expected_type@,
        has_default: m.has_default,
        deserialize_fn: match m.deserialize_fn {
            Some(d) => Some(d@),
            None => None,
        },
    }
}

/// One named field of the struct: its name, its type as written, and its
/// `#[config(..)]` items.
#[derive(Debug, Clone)]
pub struct FieldDef {
    pub name: String,
    pub ty: String,
    pub attrs: Vec<AttrItem>,
}

impl FieldDef {
    /// A field with the given name, type and attribute items.
    pub fn new(name: &str, ty: &str, attrs: Vec<AttrItem>) -> (r: FieldDef)
        ensures
            r.name@ == name@,
            r.ty@ == ty@,
            r.attrs@ == attrs@,
    {
        FieldDef { name: owned(name), ty: owned(ty), attrs }
    }
}

/// What the derive does with one field.
#[derive(Debug, Clone)]
pub enum FieldPlan {
    /// `#[config(skip)]`: not configurable, starts at its type's default.
    Skip { name: String },
    /// `#[config(flatten)]`: the fields of a nested config struct.
    Flatten { name: String, ty: String },
    /// A configurable field: its metadata, its default and its coercion
    /// (under `options` `Option` wrappers).
    Direct { meta: FieldMeta, default: DefaultPlan, options: usize, coercion: Coercion },
}

/// The mathematical content of a `FieldPlan`.
pub enum FieldPlanView {
    Skip { name: Seq<char> },
    Flatten { name: Seq<char>, ty: Seq<char> },
    Direct { meta: FieldMetaView, default: DefaultPlanView, options: nat, coercion: CoercionView },
}

impl View for FieldPlan {
    type V = FieldPlanView;

    open spec fn view(&self) -> FieldPlanView {
        match self {
            FieldPlan::Skip { name } => FieldPlanView::Skip { name: name@ },
            FieldPlan::Flatten { name, ty } => FieldPlanView::Flatten { name: name@, ty: ty@ },
            FieldPlan::Direct { meta, default, options, coercion } => FieldPlanView::Direct {
                meta: meta_view(*meta),
                default: default@,
                options: *options as nat,
                coercion: coercion@,
            },
        }
    }
}

/// The metadata of a configurable field:
/// - `config_key` is `{toml_key}.{field toml_key, or the field name}`;
/// - `env_key` is the field's `env_key`, or
///   `{PREFIX}{SEP}{GROUP}{SEP}{FIELD}` upper-cased;
/// - `generic_env_key` is `{PREFIX}{SEP}{FIELD}` upper-cased, only when no
///   `env_key` is given;
/// - the field is secret when marked so or when its type is `Secret<..>`;
/// - `expected_type` is the type without whitespace.
pub open spec fn direct_meta(
    sa: StructAttrsView,
    name: Seq<char>,
    ty: Seq<char>,
    fa: FieldAttrsView,
    deser: Option<DeserializeView>,
) -> FieldMetaView {
    FieldMetaView {
        name,
        config_key: sa.toml_key + "."@ + match fa.toml_key {
            Some(t) => t,
            None => name,
        },
        env_key: match fa.env_key {
            Some(e) => e,
            None => upper_text(sa.prefix + sa.sep + sa.group + sa.sep + name),
        },
        generic_env_key: match fa.env_key {
            Some(_) => None,
            None => Some(upper_text(sa.prefix + sa.sep + name)),
        },
        is_secret: fa.secret || type_is(strip_ws(ty), "Secret"@),
        expected_type: strip_ws(ty),
        has_default: fa.default is Some,
        deserialize_fn: deser,
    }
}

/// What the derive does with a field named `name` of type `ty` with
/// attribute items `items`, or the error it reports.
pub open spec fn plan_field(
    sa: StructAttrsView,
    name: Seq<char>,
    ty: Seq<char>,
    items: Seq<(Seq<char>, AttrValueView)>,
) -> Result<FieldPlanView, Seq<char>> {
    match field_attrs_of(items) {
        Err(m) => Err(m),
        Ok(fa) => if fa.skip {
            Ok(FieldPlanView::Skip { name })
        } else if fa.flatten {
            Ok(FieldPlanView::Flatten { name, ty: strip_ws(ty) })
        } else {
            let t = strip_ws(ty);
            match default_plan(t, fa.default) {
                Err(m) => Err(m),
                Ok(dp) => {
                    let deser = match fa.deserialize_with {
                        Some(p) => Some(deserialize_fn_for(p)),
                        None => None,
                    };
                    Ok(
                        FieldPlanView::Direct {
                            meta: direct_meta(sa, name, ty, fa, deser),
                            default: dp,
                            options: coercion_plan(t).0,
                            coercion: coercion_plan(t).1,
                        },
                    )
                },
            }
        },
    }
}

fn strip_ws_of(s: &str) -> (r: Vec<char>)
    ensures
        r@ == strip_ws(s@),
{
    let chars = chars_of(s);
    let mut t: Vec<char> = Vec::new();
    let mut i: usize = 0;
    while i < chars.len()
        invariant
            i <= chars@.len(),
            t@ == strip_ws(chars@.subrange(0, i as int)),
        decreases chars@.len() - i,
    {
        assert(chars@.subrange(0, i + 1).drop_last() =~= chars@.subrange(0, i as int));
        if !crate::text::char_is_whitespace(chars[i]) {
            t.push(chars[i]);
        }
        i = i + 1;
    }
    assert(chars@.subrange(0, chars@.len() as int) =~= chars@);
    t
}

/// Plans one field of a struct with attributes `sa`.
pub fn plan_field_of(sa: &StructAttrs, field: &FieldDef) -> (r: Result<FieldPlan, DeriveError>)
    ensures
        match r {
            Ok(p) => plan_field(sa@, field.name@, field.ty@, items_view(field.attrs@)) == Ok::<
                FieldPlanView,
                Seq<char>,
            >(p@),
            Err(e) => plan_field(sa@, field.name@, field.ty@, items_view(field.attrs@)) == Err::<
                FieldPlanView,
                Seq<char>,
            >(e.message@),
        },
{
    let fa = parse_field_attrs(field.attrs.as_slice())?;
    if fa.skip {
        return Ok(FieldPlan::Skip { name: field.name.clone() });
    }
    let t = strip_ws_of(field.ty.as_str());
    if fa.flatten {
        return Ok(FieldPlan::Flatten { name: field.name.clone(), ty: string_from_chars(&t) });
    }
    let dp = default_plan_of(&t, &fa.default)?;
    let deser = match &fa.deserialize_with {
        Some(p) => Some(deserialize_fn_of(p.as_str())),
        None => None,
    };
    let name = field.name.as_str();
    let mut cfg = sa.toml_key.clone();
    cfg.append(".");
    match &fa.toml_key {
        Some(k) => cfg.append(k.as_str()),
        None => cfg.append(name),
    }
    let (env_key, generic) = match &fa.env_key {
        Some(e) => (e.clone(), None),
        None => {
            let mut full = sa.prefix.clone();
            full.append(sa.sep.as_str());
            full.append(sa.group.as_str());
            full.append(sa.sep.as_str());
            full.append(name);
            let mut short = sa.prefix.clone();
            short.append(sa.sep.as_str());
            short.append(name);
            let g = to_uppercase(short.as_str());
            (to_uppercase(full.as_str()), Some(leak_str(g)))
        },
    };
    let secret_ty = type_is_named(&t, "Secret");
    let (options, coercion) = coercion_plan_of(&t);
    let meta = FieldMeta {
        name: leak_str(field.name.clone()),
        config_key: leak_str(cfg),
        env_key: leak_str(env_key),
        generic_env_key: generic,
        is_secret: fa.secret || secret_ty,
        expected_type: leak_str(string_from_chars(&t)),
        has_default: fa.default.is_some(),
        deserialize_fn: deser,
    };
    Ok(FieldPlan::Direct { meta, default: dp, options, coercion })
}


/// The plans of the fields in order, or the first error.
pub open spec fn plan_all(sa: StructAttrsView, defs: Seq<FieldDef>) -> Result<Seq<FieldPlanView>, Seq<char>>
    decreases defs.len(),
{
    if defs.len() == 0 {
        Ok(Seq::empty())
    } else {
        match plan_all(sa, defs.drop_last()) {
            Err(m) => Err(m),
            Ok(ps) => match plan_field(sa, defs.last().name@, defs.last().ty@, items_view(defs.last().attrs@)) {
                Err(m) => Err(m),
                Ok(p) => Ok(ps.push(p)),
            },
        }
    }
}

/// What `#[derive(Config)]` makes of a struct with the given struct-level
/// items and named fields: its attributes and a plan per field, or the
/// first error.
pub open spec fn derive_plan(items: Seq<(Seq<char>, AttrValueView)>, defs: Seq<FieldDef>) -> Result<
    (StructAttrsView, Seq<FieldPlanView>),
    Seq<char>,
> {
    match struct_attrs_of(items) {
        Err(m) => Err(m),
        Ok(sa) => match plan_all(sa, defs) {
            Err(m) => Err(m),
            Ok(ps) => Ok((sa, ps)),
        },
    }
}

/// The outcome of deriving `Config` for a struct.
#[derive(Debug, Clone)]
pub struct DerivedConfig {
    pub attrs: StructAttrs,
    pub plans: Vec<FieldPlan>,
}

/// The views of a list of plans.
pub open spec fn plans_view(s: Seq<FieldPlan>) -> Seq<FieldPlanView> {
    s.map_values(|p: FieldPlan| p@)
}

proof fn lemma_plan_all_err(sa: StructAttrsView, defs: Seq<FieldDef>, n: int)
    requires
        0 <= n <= defs.len(),
        plan_all(sa, defs.take(n)) is Err,
    ensures
        plan_all(sa, defs) == plan_all(sa, defs.take(n)),
    decreases defs.len(),
{
    if defs.len() > n {
        assert(defs.drop_last().take(n) =~= defs.take(n));
        lemma_plan_all_err(sa, defs.drop_last(), n);
    } else {
        assert(defs.take(n) =~= defs);
    }
}

/// Derives `Config` for a struct with struct-level items `items` and named
/// fields `fields`.
pub fn expand_derive_config(items: &[AttrItem], fields: &[FieldDef]) -> (r: Result<
    DerivedConfig,
    DeriveError,
>)
    ensures
        match r {
            Ok(d) => derive_plan(items_view(items@), fields@) == Ok::<
                (StructAttrsView, Seq<FieldPlanView>),
                Seq<char>,
            >((d.attrs@, plans_view(d.plans@))),
            Err(e) => derive_plan(items_view(items@), fields@) == Err::<
                (StructAttrsView, Seq<FieldPlanView>),
                Seq<char>,
            >(e.message@),
        },
{
    let attrs = parse_struct_attrs(items)?;
    let mut plans: Vec<FieldPlan> = Vec::new();
    let mut i: usize = 0;
    assert(fields@.take(0) =~= Seq::<FieldDef>::empty());
    assert(plans_view(plans@) =~= Seq::<FieldPlanView>::empty());
    while i < fields.len()
        invariant
            i <= fields@.len(),
            struct_attrs_of(items_view(items@)) == Ok::<StructAttrsView, Seq<char>>(attrs@),
            plan_all(attrs@, fields@.take(i as int)) == Ok::<Seq<FieldPlanView>, Seq<char>>(
                plans_view(plans@),
            ),
        decreases fields@.len() - i,
    {
        proof {
            let t = fields@.take(i + 1);
            assert(t.drop_last() =~= fields@.take(i as int));
            assert(t.last() == fields@[i as int]);
        }
        match plan_field_of(&attrs, &fields[i]) {
            Ok(p) => {
                let ghost before = plans@;
                plans.push(p);
                assert(plans_view(plans@) =~= plans_view(before).push(plans@.last()@));
            },
            Err(e) => {
                proof {
                    lemma_plan_all_err(attrs@, fields@, i + 1);
                }
                return Err(e);
            },
        }
        i = i + 1;
    }
    assert(fields@.take(i as int) =~= fields@);
    Ok(DerivedConfig { attrs, plans })
}

/// `s` cut at every occurrence of `sep`, scanning from the left
/// (`str::split` with a string pattern); an empty `sep` cuts between all
/// characters and at both ends.
pub open spec fn split_text(s: Seq<char>, sep: Seq<char>) -> Seq<Seq<char>>
    decreases s.len(),
{
    if sep.len() == 0 {
        seq![Seq::<char>::empty()] + s.map_values(|c: char| seq![c]) + seq![Seq::<char>::empty()]
    } else if s.len() == 0 {
        seq![Seq::<char>::empty()]
    } else if has_prefix(s, sep) {
        seq![Seq::<char>::empty()] + split_text(s.skip(sep.len() as int), sep)
    } else {
        let r = split_text(s.drop_first(), sep);
        r.update(0, seq![s[0]] + r[0])
    }
}

proof fn lemma_split_text_nonempty(s: Seq<char>, sep: Seq<char>)
    ensures
        split_text(s, sep).len() >= 1,
    decreases s.len(),
{
    if sep.len() > 0 && s.len() > 0 {
        if has_prefix(s, sep) {
            lemma_split_text_nonempty(s.skip(sep.len() as int), sep);
        } else {
            lemma_split_text_nonempty(s.drop_first(), sep);
        }
    }
}

/// The parts joined with `sep` between them.
pub open spec fn join_text(parts: Seq<Seq<char>>, sep: Seq<char>) -> Seq<char>
    decreases parts.len(),
{
    if parts.len() == 0 {
        Seq::empty()
    } else if parts.len() == 1 {
        parts[0]
    } else {
        join_text(parts.drop_last(), sep) + sep + parts.last()
    }
}

/// A character with ASCII upper-case letters folded to lower case, as a
/// code point.
pub open spec fn ascii_fold(c: char) -> u32 {
    if 'A' <= c && c <= 'Z' {
        (c as u32 + 32) as u32
    } else {
        c as u32
    }
}

/// Whether two texts are equal ignoring ASCII case.
pub open spec fn same_ignoring_ascii_case(a: Seq<char>, b: Seq<char>) -> bool {
    a.len() == b.len() && forall|i: int| 0 <= i < a.len() ==> ascii_fold(a[i]) == ascii_fold(b[i])
}

/// The environment variable of a flattened field: `[PREFIX, GROUP]`
/// followed by the segments of the inner key (its leading segment dropped
/// when it is the prefix, ignoring ASCII case), joined by `sep`.
pub open spec fn flatten_env_key(prefix_upper: Seq<char>, group_upper: Seq<char>, sep: Seq<char>, inner: Seq<char>) -> Seq<char> {
    let segs = split_text(inner, sep);
    let rest = if segs.len() > 0 && same_ignoring_ascii_case(segs[0], prefix_upper) {
        segs.drop_first()
    } else {
        segs
    };
    join_text(seq![prefix_upper, group_upper] + rest, sep)
}

/// An inner field as the outer struct exposes it, under field `outer`:
/// named `{outer}.{name}`, keyed `{toml_key}.{config_key}` in files, and
/// with its environment variable nested under the outer prefix and group.
pub open spec fn flattened_meta(sa: StructAttrsView, outer: Seq<char>, m: FieldMetaView) -> FieldMetaView {
    FieldMetaView {
        name: outer + "."@ + m.name,
        config_key: sa.toml_key + "."@ + m.config_key,
        env_key: flatten_env_key(upper_text(sa.prefix), upper_text(sa.group), sa.sep, m.env_key),
        ..m
    }
}


/// The views of a list of character vectors.
pub open spec fn texts_view(v: Seq<Vec<char>>) -> Seq<Seq<char>> {
    v.map_values(|t: Vec<char>| t@)
}

fn starts_with_at(s: &Vec<char>, i: usize, p: &Vec<char>) -> (r: bool)
    requires
        i <= s@.len(),
    ensures
        r == has_prefix(s@.skip(i as int), p@),
{
    let sl = s.len();
    if p.len() > sl - i {
        return false;
    }
    let mut j: usize = 0;
    while j < p.len()
        invariant
            sl == s@.len(),
            i <= s@.len(),
            p@.len() <= s@.len() - i,
            j <= p@.len(),
            forall|k: int| 0 <= k < j ==> s@[i + k] == p@[k],
        decreases p@.len() - j,
    {
        if s[i + j] != p[j] {
            assert(s@.skip(i as int).subrange(0, p@.len() as int)[j as int] != p@[j as int]);
            return false;
        }
        j = j + 1;
    }
    assert(s@.skip(i as int).subrange(0, p@.len() as int) =~= p@);
    true
}

fn split_text_of(s: &Vec<char>, sep: &Vec<char>) -> (r: Vec<Vec<char>>)
    ensures
        texts_view(r@) == split_text(s@, sep@),
{
    if sep.len() == 0 {
        let mut r: Vec<Vec<char>> = Vec::new();
        r.push(Vec::new());
        let mut i: usize = 0;
        while i < s.len()
            invariant
                i <= s@.len(),
                sep@.len() == 0,
                texts_view(r@) == seq![Seq::<char>::empty()] + s@.take(i as int).map_values(
                    |c: char| seq![c],
                ),
            decreases s@.len() - i,
        {
            let ghost before = r@;
            let c = s[i];
            let mut one: Vec<char> = Vec::new();
            one.push(c);
            r.push(one);
            proof {
                assert(texts_view(r@) =~= texts_view(before).push(seq![c]));
                assert(s@.take(i + 1).map_values(|c: char| seq![c]) =~= s@.take(i as int).map_values(
                    |c: char| seq![c],
                ).push(seq![c]));
            }
            i = i + 1;
            assert(texts_view(r@) =~= seq![Seq::<char>::empty()] + s@.take(i as int).map_values(
                |c: char| seq![c],
            ));
        }
        r.push(Vec::new());
        assert(s@.take(i as int) =~= s@);
        assert(texts_view(r@) =~= split_text(s@, sep@));
        return r;
    }
    let mut done: Vec<Vec<char>> = Vec::new();
    let mut cur: Vec<char> = Vec::new();
    let mut i: usize = 0;
    proof {
        assert(s@.skip(0) =~= s@);
        lemma_split_text_nonempty(s@, sep@);
        assert(split_text(s@, sep@) =~= texts_view(done@) + seq![cur@ + split_text(s@.skip(0), sep@)[0]]
            + split_text(s@.skip(0), sep@).drop_first());
    }
    while i < s.len()
        invariant
            i <= s@.len(),
            sep@.len() > 0,
            split_text(s@, sep@) == texts_view(done@) + seq![
                cur@ + split_text(s@.skip(i as int), sep@)[0],
            ] + split_text(s@.skip(i as int), sep@).drop_first(),
        decreases s@.len() - i,
    {
        let ghost rest = s@.skip(i as int);
        if starts_with_at(s, i, sep) {
            let ghost tail = s@.skip(i + sep@.len());
            proof {
                assert(rest.skip(sep@.len() as int) =~= tail);
                lemma_split_text_nonempty(tail, sep@);
            }
            let ghost before = done@;
            let piece = cur;
            done.push(piece);
            cur = Vec::new();
            i = i + sep.len();
            proof {
                assert(texts_view(done@) =~= texts_view(before).push(piece@));
                assert(split_text(rest, sep@) =~= seq![Seq::<char>::empty()] + split_text(tail, sep@));
                assert(cur@ + split_text(tail, sep@)[0] =~= split_text(tail, sep@)[0]);
                assert(split_text(s@, sep@) =~= texts_view(done@) + seq![
                    cur@ + split_text(s@.skip(i as int), sep@)[0],
                ] + split_text(s@.skip(i as int), sep@).drop_first());
            }
        } else {
            let ghost tail = s@.skip(i + 1);
            proof {
                assert(rest.drop_first() =~= tail);
                lemma_split_text_nonempty(tail, sep@);
            }
            let ghost old_cur = cur@;
            cur.push(s[i]);
            i = i + 1;
            proof {
                let rr = split_text(tail, sep@);
                assert(split_text(rest, sep@) == rr.update(0, seq![rest[0]] + rr[0]));
                assert(old_cur + split_text(rest, sep@)[0] =~= cur@ + rr[0]);
                assert(split_text(rest, sep@).drop_first() =~= rr.drop_first());
            }
        }
    }
    proof {
        assert(s@.skip(i as int) =~= Seq::<char>::empty());
    }
    let ghost before = done@;
    let last = cur;
    done.push(last);
    assert(texts_view(done@) =~= split_text(s@, sep@));
    done
}

fn join_of(parts: &Vec<Vec<char>>, sep: &Vec<char>) -> (r: Vec<char>)
    ensures
        r@ == join_text(texts_view(parts@), sep@),
{
    let ghost pv = texts_view(parts@);
    let mut r: Vec<char> = Vec::new();
    let mut i: usize = 0;
    assert(pv.take(0) =~= Seq::<Seq<char>>::empty());
    while i < parts.len()
        invariant
            i <= parts@.len(),
            pv == texts_view(parts@),
            r@ == join_text(pv.take(i as int), sep@),
        decreases parts@.len() - i,
    {
        let ghost before = r@;
        if i > 0 {
            let mut k: usize = 0;
            while k < sep.len()
                invariant
                    k <= sep@.len(),
                    r@ == before + sep@.take(k as int),
                decreases sep@.len() - k,
            {
                r.push(sep[k]);
                k = k + 1;
                assert(r@ =~= before + sep@.take(k as int));
            }
            assert(sep@.take(sep@.len() as int) =~= sep@);
        }
        let ghost mid = r@;
        let part = &parts[i];
        let mut k: usize = 0;
        while k < part.len()
            invariant
                k <= part@.len(),
                r@ == mid + part@.take(k as int),
            decreases part@.len() - k,
        {
            r.push(part[k]);
            k = k + 1;
            assert(r@ =~= mid + part@.take(k as int));
        }
        proof {
            assert(part@.take(part@.len() as int) =~= part@);
            let t = pv.take(i + 1);
            assert(t.drop_last() =~= pv.take(i as int));
            assert(t.last() == part@);
            if i == 0 {
                assert(before =~= Seq::<char>::empty());
                assert(r@ =~= t[0]);
            } else {
                assert(r@ =~= join_text(t.drop_last(), sep@) + sep@ + t.last());
            }
        }
        i = i + 1;
    }
    assert(pv.take(i as int) =~= pv);
    r
}

fn ascii_fold_of(c: char) -> (r: u32)
    ensures
        r == ascii_fold(c),
{
    if 'A' <= c && c <= 'Z' {
        (c as u32) + 32
    } else {
        c as u32
    }
}

fn eq_ignore_ascii_case(a: &Vec<char>, b: &Vec<char>) -> (r: bool)
    ensures
        r == same_ignoring_ascii_case(a@, b@),
{
    if a.len() != b.len() {
        return false;
    }
    let mut i: usize = 0;
    while i < a.len()
        invariant
            i <= a@.len(),
            a@.len() == b@.len(),
            forall|j: int| 0 <= j < i ==> ascii_fold(a@[j]) == ascii_fold(b@[j]),
        decreases a@.len() - i,
    {
        if ascii_fold_of(a[i]) != ascii_fold_of(b[i]) {
            return false;
        }
        i = i + 1;
    }
    true
}

fn flatten_env_key_of(prefix_upper: &Vec<char>, group_upper: &Vec<char>, sep: &Vec<char>, inner: &str) -> (r: Vec<
    char,
>)
    ensures
        r@ == flatten_env_key(prefix_upper@, group_upper@, sep@, inner@),
{
    let ic = chars_of(inner);
    let segs = split_text_of(&ic, sep);
    let ghost sv = texts_view(segs@);
    let drop_first = segs.len() > 0 && eq_ignore_ascii_case(&segs[0], prefix_upper);
    let mut parts: Vec<Vec<char>> = Vec::new();
    parts.push(sub_chars(prefix_upper, 0, prefix_upper.len()));
    parts.push(sub_chars(group_upper, 0, group_upper.len()));
    assert(prefix_upper@.subrange(0, prefix_upper@.len() as int) =~= prefix_upper@);
    assert(group_upper@.subrange(0, group_upper@.len() as int) =~= group_upper@);
    let start: usize = if drop_first {
        1
    } else {
        0
    };
    let ghost rest = if drop_first {
        sv.drop_first()
    } else {
        sv
    };
    let mut k: usize = start;
    assert(texts_view(parts@) =~= seq![prefix_upper@, group_upper@] + rest.take(0));
    while k < segs.len()
        invariant
            start <= k <= segs@.len(),
            start <= 1,
            start == 1 ==> segs@.len() >= 1,
            sv == texts_view(segs@),
            rest == sv.skip(start as int),
            texts_view(parts@) == seq![prefix_upper@, group_upper@] + rest.take(k - start),
        decreases segs@.len() - k,
    {
        let ghost before = parts@;
        let seg = sub_chars(&segs[k], 0, segs[k].len());
        assert(segs@[k as int]@.subrange(0, segs@[k as int]@.len() as int) =~= segs@[k as int]@);
        parts.push(seg);
        assert(texts_view(parts@) =~= texts_view(before).push(sv[k as int]));
        k = k + 1;
        assert(texts_view(parts@) =~= seq![prefix_upper@, group_upper@] + rest.take(k - start));
    }
    proof {
        assert(rest.take(k - start) =~= rest);
        if drop_first {
            assert(sv.drop_first() =~= sv.skip(1));
        } else {
            assert(sv =~= sv.skip(0));
        }
    }
    join_of(&parts, sep)
}

/// The metadata of an inner field as a struct exposes it under its field
/// `outer` (see `flattened_meta`).
pub fn flatten_field_meta(sa: &StructAttrs, outer: &str, inner: &FieldMeta) -> (r: FieldMeta)
    ensures
        meta_view(r) == flattened_meta(sa@, outer@, meta_view(*inner)),
{
    let mut name = owned(outer);
    name.append(".");
    name.append(inner.name);
    let mut config_key = sa.toml_key.clone();
    config_key.append(".");
    config_key.append(inner.config_key);
    let pu = to_uppercase(sa.prefix.as_str());
    let gu = to_uppercase(sa.group.as_str());
    let pu_chars = chars_of(pu.as_str());
    let gu_chars = chars_of(gu.as_str());
    let sep_chars = chars_of(sa.sep.as_str());
    let env = flatten_env_key_of(&pu_chars, &gu_chars, &sep_chars, inner.env_key);
    FieldMeta {
        name: leak_str(name),
        config_key: leak_str(config_key),
        env_key: leak_str(string_from_chars(&env)),
        generic_env_key: inner.generic_env_key,
        is_secret: inner.is_secret,
        expected_type: inner.expected_type,
        has_default: inner.has_default,
        deserialize_fn: inner.deserialize_fn,
    }
}


/// The metadata of the configurable fields of the plans, in order.
pub open spec fn direct_metas(plans: Seq<FieldPlanView>) -> Seq<FieldMetaView>
    decreases plans.len(),
{
    if plans.len() == 0 {
        Seq::empty()
    } else {
        match plans.last() {
            FieldPlanView::Direct { meta, .. } => direct_metas(plans.drop_last()).push(meta),
            _ => direct_metas(plans.drop_last()),
        }
    }
}

/// The names of the flattened fields of the plans, in order.
pub open spec fn flatten_names(plans: Seq<FieldPlanView>) -> Seq<Seq<char>>
    decreases plans.len(),
{
    if plans.len() == 0 {
        Seq::empty()
    } else {
        match plans.last() {
            FieldPlanView::Flatten { name, .. } => flatten_names(plans.drop_last()).push(name),
            _ => flatten_names(plans.drop_last()),
        }
    }
}

/// The fields of the nested structs, the `k`-th nested under the `k`-th
/// flattened field name, one struct after the other.
pub open spec fn flattened_all(sa: StructAttrsView, names: Seq<Seq<char>>, inner: Seq<Seq<FieldMetaView>>) -> Seq<
    FieldMetaView,
>
    decreases names.len(),
{
    if names.len() == 0 || inner.len() == 0 {
        Seq::empty()
    } else {
        flattened_all(sa, names.drop_last(), inner.drop_last()) + inner.last().map_values(
            |m: FieldMetaView| flattened_meta(sa, names.last(), m),
        )
    }
}

/// The field list of a derived struct: its configurable fields, then the
/// fields of each flattened struct.
pub open spec fn derived_fields(sa: StructAttrsView, plans: Seq<FieldPlanView>, inner: Seq<Seq<FieldMetaView>>) -> Seq<
    FieldMetaView,
> {
    direct_metas(plans) + flattened_all(sa, flatten_names(plans), inner)
}

/// The contents of a list of field metadata.
pub open spec fn metas_view(s: Seq<FieldMeta>) -> Seq<FieldMetaView> {
    s.map_values(|m: FieldMeta| meta_view(m))
}

/// The contents of the field lists of the nested structs.
pub open spec fn inner_views(s: Seq<&[FieldMeta]>) -> Seq<Seq<FieldMetaView>> {
    s.map_values(|f: &[FieldMeta]| metas_view(f@))
}

impl DerivedConfig {
    /// The struct's field list, given the field list of each flattened
    /// struct in the order of the flattened fields.
    pub fn fields(&self, inner: &[&[FieldMeta]]) -> (r: Vec<FieldMeta>)
        requires
            inner@.len() == flatten_names(plans_view(self.plans@)).len(),
        ensures
            metas_view(r@) == derived_fields(self.attrs@, plans_view(self.plans@), inner_views(inner@)),
    {
        let ghost pv = plans_view(self.plans@);
        let ghost iv = inner_views(inner@);
        let mut r: Vec<FieldMeta> = Vec::new();
        let mut j: usize = 0;
        assert(pv.take(0) =~= Seq::<FieldPlanView>::empty());
        assert(metas_view(r@) =~= Seq::<FieldMetaView>::empty());
        while j < self.plans.len()
            invariant
                j <= self.plans@.len(),
                pv == plans_view(self.plans@),
                metas_view(r@) == direct_metas(pv.take(j as int)),
            decreases self.plans@.len() - j,
        {
            proof {
                let t = pv.take(j + 1);
                assert(t.drop_last() =~= pv.take(j as int));
                assert(t.last() == self.plans@[j as int]@);
            }
            match &self.plans[j] {
                FieldPlan::Direct { meta, .. } => {
                    let ghost before = r@;
                    r.push(*meta);
                    assert(metas_view(r@) =~= metas_view(before).push(meta_view(*meta)));
                },
                _ => {},
            }
            j = j + 1;
        }
        assert(pv.take(j as int) =~= pv);
        let ghost base = metas_view(r@);
        let mut k: usize = 0;
        let mut j: usize = 0;
        assert(iv.take(0) =~= Seq::<Seq<FieldMetaView>>::empty());
        assert(base + flattened_all(self.attrs@, flatten_names(pv.take(0)), iv.take(0)) =~= base);
        while j < self.plans.len()
            invariant
                j <= self.plans@.len(),
                pv == plans_view(self.plans@),
                iv == inner_views(inner@),
                inner@.len() == flatten_names(pv).len(),
                k == flatten_names(pv.take(j as int)).len(),
                k <= inner@.len(),
                metas_view(r@) == base + flattened_all(
                    self.attrs@,
                    flatten_names(pv.take(j as int)),
                    iv.take(k as int),
                ),
            decreases self.plans@.len() - j,
        {
            proof {
                let t = pv.take(j + 1);
                assert(t.drop_last() =~= pv.take(j as int));
                assert(t.last() == self.plans@[j as int]@);
                lemma_flatten_names_prefix(pv, j + 1);
            }
            match &self.plans[j] {
                FieldPlan::Flatten { name, .. } => {
                    let group_fields: &[FieldMeta] = inner[k];
                    let ghost start = metas_view(r@);
                    let ghost outer = name@;
                    let mut q: usize = 0;
                    assert(iv[k as int].take(0).map_values(
                        |m: FieldMetaView| flattened_meta(self.attrs@, outer, m),
                    ) =~= Seq::<FieldMetaView>::empty());
                    assert(start + Seq::<FieldMetaView>::empty() =~= start);
                    while q < group_fields.len()
                        invariant
                            q <= group_fields@.len(),
                            iv == inner_views(inner@),
                            k < inner@.len(),
                            group_fields@ == inner@[k as int]@,
                            outer == name@,
                            metas_view(r@) == start + metas_view(group_fields@).take(q as int).map_values(
                                |m: FieldMetaView| flattened_meta(self.attrs@, outer, m),
                            ),
                        decreases group_fields@.len() - q,
                    {
                        let ghost before = r@;
                        let fm = flatten_field_meta(&self.attrs, name.as_str(), &group_fields[q]);
                        r.push(fm);
                        proof {
                            let mv = metas_view(group_fields@);
                            assert(metas_view(r@) =~= metas_view(before).push(meta_view(fm)));
                            assert(mv[q as int] == meta_view(group_fields@[q as int]));
                            assert(mv.take(q + 1).map_values(
                                |m: FieldMetaView| flattened_meta(self.attrs@, outer, m),
                            ) =~= mv.take(q as int).map_values(
                                |m: FieldMetaView| flattened_meta(self.attrs@, outer, m),
                            ).push(flattened_meta(self.attrs@, outer, mv[q as int])));
                        }
                        q = q + 1;
                        assert(metas_view(r@) =~= start + metas_view(group_fields@).take(
                            q as int,
                        ).map_values(|m: FieldMetaView| flattened_meta(self.attrs@, outer, m)));
                    }
                    proof {
                        assert(metas_view(group_fields@).take(q as int) =~= metas_view(group_fields@));
                        assert(iv[k as int] == metas_view(group_fields@));
                        let names1 = flatten_names(pv.take(j + 1));
                        assert(names1 == flatten_names(pv.take(j as int)).push(outer));
                        assert(names1.drop_last() =~= flatten_names(pv.take(j as int)));
                        assert(iv.take(k + 1).drop_last() =~= iv.take(k as int));
                        assert(iv.take(k + 1).last() == iv[k as int]);
                    }
                    k = k + 1;
                },
                _ => {},
            }
            j = j + 1;
        }
        proof {
            assert(pv.take(j as int) =~= pv);
            assert(iv.take(k as int) =~= iv);
        }
        r
    }
}

proof fn lemma_flatten_names_prefix(plans: Seq<FieldPlanView>, n: int)
    requires
        0 <= n <= plans.len(),
    ensures
        flatten_names(plans.take(n)).len() <= flatten_names(plans).len(),
    decreases plans.len(),
{
    if plans.len() > n {
        assert(plans.drop_last().take(n) =~= plans.take(n));
        lemma_flatten_names_prefix(plans.drop_last(), n);
    } else {
        assert(plans.take(n) =~= plans);
    }
}

} // verus!
