//! The errors the library produces, with their human-readable messages.
use vstd::prelude::*;
use crate::field::FieldMeta;
use crate::provenance::{source_text, Source, SourceView};
use crate::text::owned;

verus! {

/// All errors the library can produce.
#[derive(Debug)]
#[non_exhaustive]
pub enum ConfigError {
    /// A value could not be parsed into the expected type.
    ParseError {
        field: String,
        /// The raw value, or `"<secret>"` if the field is secret.
        raw_display: String,
        expected_type: String,
        /// The message of the underlying parse failure.
        cause: String,
    },
    /// A config file could not be read or parsed.
    FileError { path: String, cause: String },
    /// An environment variable exists but is not valid UTF-8.
    EnvVar { key: String, cause: String },
    /// Two sources at the same rank provide conflicting values.
    FieldConflict { field: String, a: Source, b: Source },
    /// A required field has no default and no source provided a value.
    MissingRequired { field: String },
    /// An internal invariant was violated.
    Internal { message: String },
}

/// The mathematical content of a `ConfigError`.
pub enum ErrorView {
    ParseError {
        field: Seq<char>,
        raw_display: Seq<char>,
        expected_type: Seq<char>,
        cause: Seq<char>,
    },
    FileError { path: Seq<char>, cause: Seq<char> },
    EnvVar { key: Seq<char>, cause: Seq<char> },
    FieldConflict { field: Seq<char>, a: SourceView, b: SourceView },
    MissingRequired { field: Seq<char> },
    Internal { message: Seq<char> },
}

impl View for ConfigError {
    type V = ErrorView;

    open spec fn view(&self) -> ErrorView {
        match self {
            ConfigError::ParseError { field, raw_display, expected_type, cause } =>
                ErrorView::ParseError {
                field: field@,
                raw_display: raw_display@,
                expected_type: expected_type@,
                cause: cause@,
            },
            ConfigError::FileError { path, cause } => ErrorView::FileError {
                path: path@,
                cause: cause@,
            },
            ConfigError::EnvVar { key, cause } => ErrorView::EnvVar { key: key@, cause: cause@ },
            ConfigError::FieldConflict { field, a, b } => ErrorView::FieldConflict {
                field: field@,
                a: a@,
                b: b@,
            },
            ConfigError::MissingRequired { field } => ErrorView::MissingRequired {
                field: field@,
            },
            ConfigError::Internal { message } => ErrorView::Internal { message: message@ },
        }
    }
}

/// The parse error that `ConfigError::parse` builds: the raw value is
/// replaced by `<secret>` when the field is secret.
pub open spec fn parse_error_view(meta: FieldMeta, raw: Seq<char>, cause: Seq<char>) -> ErrorView {
    ErrorView::ParseError {
        field: meta.name@,
        raw_display: if meta.is_secret {
            "<secret>"@
        } else {
            raw
        },
        expected_type: meta.expected_type@,
        cause,
    }
}

/// The human-readable message of an error.
pub open spec fn error_text(e: ErrorView) -> Seq<char> {
    match e {
        ErrorView::ParseError { field, raw_display, expected_type, cause } => "field '"@ + field
            + "': cannot parse '"@ + raw_display + "' as "@ + expected_type + ": "@ + cause,
        ErrorView::FileError { path, cause } => "config file '"@ + path + "': "@ + cause,
        ErrorView::EnvVar { key, cause } => "env var '"@ + key + "': "@ + cause,
        ErrorView::FieldConflict { field, a, b } => "field '"@ + field
            + "': conflicting values from "@ + source_text(a) + " and "@ + source_text(b),
        ErrorView::MissingRequired { field } => "field '"@ + field
            + "': required but no value provided"@,
        ErrorView::Internal { message } => "internal error: "@ + message,
    }
}

/// The underlying cause carried by an error, if it has one.
pub open spec fn error_cause(e: ErrorView) -> Option<Seq<char>> {
    match e {
        ErrorView::ParseError { cause, .. } => Some(cause),
        ErrorView::FileError { cause, .. } => Some(cause),
        _ => None,
    }
}

impl ConfigError {
    /// A `ParseError` for `meta`, with the raw value redacted when the
    /// field is secret.
    pub fn parse(meta: &FieldMeta, raw: &str, cause: &str) -> (e: ConfigError)
        ensures
            e@ == parse_error_view(*meta, raw@, cause@),
    {
        ConfigError::ParseError {
            field: owned(meta.name),
            raw_display: if meta.is_secret {
                owned("<secret>")
            } else {
                owned(raw)
            },
            expected_type: owned(meta.expected_type),
            cause: owned(cause),
        }
    }

    /// The human-readable message, e.g.
    /// `field 'port': required but no value provided`.
    pub fn to_string(&self) -> (r: String)
        ensures
            r@ == error_text(self@),
    {
        match self {
            ConfigError::ParseError { field, raw_display, expected_type, cause } => {
                let mut r = owned("field '");
                r.append(field.as_str());
                r.append("': cannot parse '");
                r.append(raw_display.as_str());
                r.append("' as ");
                r.append(expected_type.as_str());
                r.append(": ");
                r.append(cause.as_str());
                r
            },
            ConfigError::FileError { path, cause } => {
                let mut r = owned("config file '");
                r.append(path.as_str());
                r.append("': ");
                r.append(cause.as_str());
                r
            },
            ConfigError::EnvVar { key, cause } => {
                let mut r = owned("env var '");
                r.append(key.as_str());
                r.append("': ");
                r.append(cause.as_str());
                r
            },
            ConfigError::FieldConflict { field, a, b } => {
                let mut r = owned("field '");
                r.append(field.as_str());
                r.append("': conflicting values from ");
                let sa = a.to_string();
                r.append(sa.as_str());
                r.append(" and ");
                let sb = b.to_string();
                r.append(sb.as_str());
                r
            },
            ConfigError::MissingRequired { field } => {
                let mut r = owned("field '");
                r.append(field.as_str());
                r.append("': required but no value provided");
                r
            },
            ConfigError::Internal { message } => {
                let mut r = owned("internal error: ");
                r.append(message.as_str());
                r
            },
        }
    }

    /// The message of the underlying failure, for parse and file errors.
    pub fn source(&self) -> (r: Option<&str>)
        ensures
            match r {
                Some(c) => error_cause(self@) == Some(c@),
                None => error_cause(self@) is None,
            },
    {
        match self {
            ConfigError::ParseError { cause, .. } => Some(cause.as_str()),
            ConfigError::FileError { cause, .. } => Some(cause.as_str()),
            _ => None,
        }
    }

    /// A copy of this error.
    pub fn duplicate(&self) -> (r: ConfigError)
        ensures
            r@ == self@,
    {
        match self {
            ConfigError::ParseError { field, raw_display, expected_type, cause } =>
                ConfigError::ParseError {
                field: field.clone(),
                raw_display: raw_display.clone(),
                expected_type: expected_type.clone(),
                cause: cause.clone(),
            },
            ConfigError::FileError { path, cause } => ConfigError::FileError {
                path: path.clone(),
                cause: cause.clone(),
            },
            ConfigError::EnvVar { key, cause } => ConfigError::EnvVar {
                key: key.clone(),
                cause: cause.clone(),
            },
            ConfigError::FieldConflict { field, a, b } => ConfigError::FieldConflict {
                field: field.clone(),
                a: a.duplicate(),
                b: b.duplicate(),
            },
            ConfigError::MissingRequired { field } => ConfigError::MissingRequired {
                field: field.clone(),
            },
            ConfigError::Internal { message } => ConfigError::Internal { message: message.clone() },
        }
    }
}

} // verus!
