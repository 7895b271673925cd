//! Structured failures of the template-filling engine.  Validation raises
//! typed variants; turning them into display text is left to the caller's
//! message-lookup boundary.

use vstd::prelude::*;

use crate::text::dec_seq;
use crate::text::decimal_string;

verus! {

/// An input-consistency failure.
#[derive(Debug, PartialEq, Eq)]
pub enum ValidationError {
    /// The token set is empty.
    EmptyTokenSet,
    /// The named token occurs more than once in the pack.
    DuplicateToken(String),
    /// The value set is empty.
    EmptyValueSet,
    /// Token count and value count differ: `CountMismatch(tokens, values)`.
    CountMismatch(usize, usize),
    /// The resolved output filename lacks the required extension.
    BadExtension(String),
    /// Two rows of a batch resolve to the same output filename.
    DuplicateOutputName(String),
    /// A failure on one 1-indexed line of batch input.
    LineError(usize, Box<ValidationError>),
}

/// A processing failure outside validation proper.
#[derive(Debug, PartialEq, Eq)]
pub enum ProcessingError {
    /// The archive holds no primary text entry.
    NoPrimaryEntry,
    /// No template is loaded in the session.
    NoTemplateLoaded,
    /// A file already exists at the resolved output path.
    TargetExists(String),
}

/// Error returned on failure of the template-filling operations.
#[derive(Debug, PartialEq, Eq)]
pub enum DocxError {
    /// A filesystem failure, with the underlying message.
    Io(String),
    /// A malformed or unreadable archive, with the underlying message.
    Archive(String),
    /// An input-consistency failure.
    Validation(ValidationError),
    /// A processing failure.
    Processing(ProcessingError),
}

// ---------------------------------------------------------------------------
// The message boundary: identifiers and named arguments for the caller's
// message-lookup service
// ---------------------------------------------------------------------------

/// The message identifier naming a validation failure.
pub open spec fn validation_message_id(e: ValidationError) -> Seq<char> {
    match e {
        ValidationError::EmptyTokenSet => "valid-no-tokens"@,
        ValidationError::DuplicateToken(_) => "valid-token-duplicity"@,
        ValidationError::EmptyValueSet => "valid-missing-input"@,
        ValidationError::CountMismatch(_, _) => "valid-count-mismatch"@,
        ValidationError::BadExtension(_) => "valid-no-docx-suffix"@,
        ValidationError::DuplicateOutputName(_) => "valid-same-output-filename"@,
        ValidationError::LineError(_, _) => "valid-line-mismatch"@,
    }
}

/// The named arguments a validation failure's message takes.
pub open spec fn validation_message_args(e: ValidationError) -> Seq<(Seq<char>, Seq<char>)> {
    match e {
        ValidationError::EmptyTokenSet => Seq::empty(),
        ValidationError::DuplicateToken(t) => seq![("token"@, t@)],
        ValidationError::EmptyValueSet => Seq::empty(),
        ValidationError::CountMismatch(a, b) => seq![
            ("tokens"@, dec_seq(a as nat)),
            ("values"@, dec_seq(b as nat)),
        ],
        ValidationError::BadExtension(f) => seq![("filename"@, f@)],
        ValidationError::DuplicateOutputName(f) => seq![("filename"@, f@)],
        ValidationError::LineError(n, _) => seq![("line"@, dec_seq(n as nat))],
    }
}

/// The message identifier naming a processing failure.
pub open spec fn processing_message_id(e: ProcessingError) -> Seq<char> {
    match e {
        ProcessingError::NoPrimaryEntry => "docx-filler-fail-load"@,
        ProcessingError::NoTemplateLoaded => "ui-docx-no-template"@,
        ProcessingError::TargetExists(_) => "docx-filler-fail-overwrite"@,
    }
}

/// The named arguments a processing failure's message takes.
pub open spec fn processing_message_args(e: ProcessingError) -> Seq<(Seq<char>, Seq<char>)> {
    match e {
        ProcessingError::NoPrimaryEntry => Seq::empty(),
        ProcessingError::NoTemplateLoaded => Seq::empty(),
        ProcessingError::TargetExists(f) => seq![("filename"@, f@)],
    }
}

impl ValidationError {
    /// The message identifier naming this failure for the lookup service.
    pub fn message_id(&self) -> (r: String)
        ensures
            r@ == validation_message_id(*self),
    {
        match self {
            ValidationError::EmptyTokenSet => "valid-no-tokens".to_owned(),
            ValidationError::DuplicateToken(_) => "valid-token-duplicity".to_owned(),
            ValidationError::EmptyValueSet => "valid-missing-input".to_owned(),
            ValidationError::CountMismatch(_, _) => "valid-count-mismatch".to_owned(),
            ValidationError::BadExtension(_) => "valid-no-docx-suffix".to_owned(),
            ValidationError::DuplicateOutputName(_) => "valid-same-output-filename".to_owned(),
            ValidationError::LineError(_, _) => "valid-line-mismatch".to_owned(),
        }
    }

    /// The named arguments this failure's message takes.  For a line failure
    /// the inner error's localized text is the caller's to add, under the
    /// name the lookup service expects.
    pub fn message_args(&self) -> (r: Vec<(String, String)>)
        ensures
            r.deep_view() == validation_message_args(*self),
    {
        let mut r: Vec<(String, String)> = Vec::new();
        match self {
            ValidationError::EmptyTokenSet => {},
            ValidationError::DuplicateToken(t) => {
                r.push(("token".to_owned(), t.clone()));
            },
            ValidationError::EmptyValueSet => {},
            ValidationError::CountMismatch(a, b) => {
                r.push(("tokens".to_owned(), decimal_string(*a as u64)));
                r.push(("values".to_owned(), decimal_string(*b as u64)));
            },
            ValidationError::BadExtension(f) => {
                r.push(("filename".to_owned(), f.clone()));
            },
            ValidationError::DuplicateOutputName(f) => {
                r.push(("filename".to_owned(), f.clone()));
            },
            ValidationError::LineError(n, _) => {
                r.push(("line".to_owned(), decimal_string(*n as u64)));
            },
        }
        proof {
            assert(r.deep_view() =~~= validation_message_args(*self));
        }
        r
    }
}

impl ProcessingError {
    /// The message identifier naming this failure for the lookup service.
    pub fn message_id(&self) -> (r: String)
        ensures
            r@ == processing_message_id(*self),
    {
        match self {
            ProcessingError::NoPrimaryEntry => "docx-filler-fail-load".to_owned(),
            ProcessingError::NoTemplateLoaded => "ui-docx-no-template".to_owned(),
            ProcessingError::TargetExists(_) => "docx-filler-fail-overwrite".to_owned(),
        }
    }

    /// The named arguments this failure's message takes.
    pub fn message_args(&self) -> (r: Vec<(String, String)>)
        ensures
            r.deep_view() == processing_message_args(*self),
    {
        let mut r: Vec<(String, String)> = Vec::new();
        match self {
            ProcessingError::NoPrimaryEntry => {},
            ProcessingError::NoTemplateLoaded => {},
            ProcessingError::TargetExists(f) => {
                r.push(("filename".to_owned(), f.clone()));
            },
        }
        proof {
            assert(r.deep_view() =~~= processing_message_args(*self));
        }
        r
    }
}

} // verus!
