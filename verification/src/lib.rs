//! Template-filling engine for packaged (zip-like) text documents.
//!
//! A template is an archive of named text entries; one designated entry holds
//! the document's primary text, in which `{{token}}`-shaped placeholders
//! appear.  The library discovers those placeholders, validates token/value
//! consistency, substitutes values, and assembles new archives — one per
//! generated document.  The engine's logic is verified throughout; the
//! trusted calls are the archive codec, the Unicode whitespace test and the
//! single-character append.

pub mod archive;
pub mod errors;
pub mod lang;
pub mod scanner;
pub mod session;
pub mod template;
pub mod text;
pub mod validations;

pub use archive::Entry;
pub use errors::DocxError;
pub use errors::ProcessingError;
pub use errors::ValidationError;
pub use lang::supported_langs;
pub use lang::SupportedLanguage;
pub use lang::TrArg;
pub use lang::TrArgVec;
pub use scanner::scan_text;
pub use session::TemplateSession;
pub use template::check_target;
pub use template::default_output_pattern;
pub use template::DocxTemplate;
pub use template::PlannedDoc;
pub use template::TokenPack;
pub use template::ValuePack;
pub use text::replace_tokens;
pub use text::string_to_values;
pub use validations::validate_batch;
pub use validations::validate_filename;
pub use validations::validate_filename_multiline;
pub use validations::validate_single;
pub use validations::validate_tokens;
pub use validations::validate_values;
pub use validations::validate_values_multiline;
