//! Static description of one configuration field, the secret wrapper, and
//! the test that tells whether a field may be left without a value.
use vstd::prelude::*;
use crate::text::{char_is_whitespace, chars_of, has_prefix, is_ws, owned, vec_starts_with};

verus! {

/// A conversion applied to a raw value before it is coerced to the field's
/// type.
#[derive(Debug, Clone, Copy, PartialEq, Eq)]
pub enum DeserializeFn {
    /// `duration_from_secs`: a number of seconds, normalised to an `Integer`.
    DurationFromSecs,
    /// A function of the user's, named by its path, with the signature
    /// `fn(&ConfigValue, &FieldMeta) -> Result<ConfigValue, ConfigError>`;
    /// the code that `#[derive(Config)]` generates calls it.
    Named(&'static str),
}

/// The content of a `DeserializeFn`, with a path as its characters.
pub enum DeserializeView {
    DurationFromSecs,
    Named(Seq<char>),
}

impl View for DeserializeFn {
    type V = DeserializeView;

    open spec fn view(&self) -> DeserializeView {
        match self {
            DeserializeFn::DurationFromSecs => DeserializeView::DurationFromSecs,
            DeserializeFn::Named(p) => DeserializeView::Named(p@),
        }
    }
}

/// Static metadata for one field of a config struct.
#[derive(Debug, Clone, Copy)]
pub struct FieldMeta {
    /// The struct field name, e.g. `"host"`.
    pub name: &'static str,
    /// Dotted key looked up in config files, e.g. `"redis.host"`.
    pub config_key: &'static str,
    /// Class-specific environment variable, e.g. `"APP__REDIS__HOST"`.
    pub env_key: &'static str,
    /// Group-less fallback environment variable, e.g. `"APP__HOST"`.
    pub generic_env_key: Option<&'static str>,
    /// Whether the value must be redacted in errors and provenance.
    pub is_secret: bool,
    /// The field's type as written, without whitespace, e.g. `"Option<String>"`.
    pub expected_type: &'static str,
    /// Whether the struct declares a default for the field.
    pub has_default: bool,
    /// A conversion applied to the raw value before coercion.
    pub deserialize_fn: Option<DeserializeFn>,
}

/// A value that is kept out of provenance displays and error messages.
#[derive(Clone, PartialEq, Eq)]
pub struct Secret<T> {
    inner: T,
}

impl<T> Secret<T> {
    pub closed spec fn secret_value(self) -> T {
        self.inner
    }

    /// Wraps `value`.
    pub fn new(value: T) -> (s: Self)
        ensures
            s.secret_value() == value,
    {
        Secret { inner: value }
    }

    /// The wrapped value.
    pub fn expose(&self) -> (r: &T)
        ensures
            *r == self.secret_value(),
    {
        &self.inner
    }

    /// Unwraps the value.
    pub fn into_inner(self) -> (r: T)
        ensures
            r == self.secret_value(),
    {
        self.inner
    }

    /// The text shown in place of the value: `"***"`.
    pub fn redacted(&self) -> (r: String)
        ensures
            r@ == "***"@,
    {
        owned("***")
    }
}

/// `s` with every whitespace character removed.
pub open spec fn strip_ws(s: Seq<char>) -> Seq<char>
    decreases s.len(),
{
    if s.len() == 0 {
        s
    } else if is_ws(s.last()) {
        strip_ws(s.drop_last())
    } else {
        strip_ws(s.drop_last()).push(s.last())
    }
}

/// Whether a field of this written type may be left without any value:
/// the type, with whitespace removed, starts with `Option<`,
/// `std::option::Option<` or `core::option::Option<`.
pub open spec fn type_can_be_missing(expected_type: Seq<char>) -> bool {
    let t = strip_ws(expected_type);
    has_prefix(t, "Option<"@) || has_prefix(t, "std::option::Option<"@) || has_prefix(
        t,
        "core::option::Option<"@,
    )
}

/// Whether the field's type is an `Option`, so that it may stay unset.
pub fn field_can_be_missing(field: &FieldMeta) -> (r: bool)
    ensures
        r == type_can_be_missing(field.expected_type@),
{
    let chars = chars_of(field.expected_type);
    let mut ty: Vec<char> = Vec::new();
    let mut i: usize = 0;
    while i < chars.len()
        invariant
            i <= chars@.len(),
            ty@ == strip_ws(chars@.subrange(0, i as int)),
        decreases chars@.len() - i,
    {
        assert(chars@.subrange(0, i + 1).drop_last() =~= chars@.subrange(0, i as int));
        if !char_is_whitespace(chars[i]) {
            ty.push(chars[i]);
        }
        i = i + 1;
    }
    assert(chars@.subrange(0, chars@.len() as int) =~= chars@);
    let p1 = chars_of("Option<");
    let p2 = chars_of("std::option::Option<");
    let p3 = chars_of("core::option::Option<");
    vec_starts_with(&ty, &p1) || vec_starts_with(&ty, &p2) || vec_starts_with(&ty, &p3)
}

} // verus!
