//! Tests of the language table and of the error-message boundary.

use docx_filler::SupportedLanguage;
use docx_filler::ValidationError;
use docx_filler::ProcessingError;
use docx_filler::supported_langs;
use docx_filler::text::decimal_string;

#[test]
fn language_collection_and_names() {
    let langs = SupportedLanguage::collection();
    assert_eq!(langs.len(), 3);
    assert_eq!(langs[0].to_name(), "English");
    assert_eq!(langs[1].to_name(), "Česky");
    assert_eq!(langs[2].to_name(), "Русский");
    assert_eq!(supported_langs(), vec![
        "English".to_string(),
        "Česky".to_string(),
        "Русский".to_string(),
    ]);
}

#[test]
fn language_codes() {
    assert_eq!(SupportedLanguage::EnglishUs.to_lang_code(), "en-US");
    assert_eq!(SupportedLanguage::Czech.to_lang_code(), "cz");
    assert_eq!(SupportedLanguage::Russian.to_lang_code(), "ru");
}

#[test]
fn language_from_name() {
    assert_eq!(
        SupportedLanguage::from_string("Česky"),
        Some(SupportedLanguage::Czech)
    );
    assert_eq!(
        SupportedLanguage::from_string("English"),
        Some(SupportedLanguage::EnglishUs)
    );
    assert_eq!(SupportedLanguage::from_string("Deutsch"), None);
    assert_eq!(SupportedLanguage::from_string(""), None);
}

#[test]
fn decimal_rendering() {
    assert_eq!(decimal_string(0), "0");
    assert_eq!(decimal_string(7), "7");
    assert_eq!(decimal_string(42), "42");
    assert_eq!(decimal_string(907), "907");
    assert_eq!(decimal_string(u64::MAX), u64::MAX.to_string());
}

#[test]
fn validation_messages_carry_their_arguments() {
    let e = ValidationError::CountMismatch(2, 1);
    assert_eq!(e.message_id(), "valid-count-mismatch");
    assert_eq!(e.message_args(), vec![
        ("tokens".to_string(), "2".to_string()),
        ("values".to_string(), "1".to_string()),
    ]);

    let e = ValidationError::DuplicateToken("{{a}}".to_string());
    assert_eq!(e.message_id(), "valid-token-duplicity");
    assert_eq!(e.message_args(), vec![("token".to_string(), "{{a}}".to_string())]);

    let e = ValidationError::LineError(3, Box::new(ValidationError::EmptyValueSet));
    assert_eq!(e.message_id(), "valid-line-mismatch");
    assert_eq!(e.message_args(), vec![("line".to_string(), "3".to_string())]);

    assert_eq!(ValidationError::EmptyTokenSet.message_id(), "valid-no-tokens");
    assert_eq!(ValidationError::EmptyValueSet.message_id(), "valid-missing-input");
    assert_eq!(
        ValidationError::BadExtension("x".to_string()).message_id(),
        "valid-no-docx-suffix"
    );
    assert_eq!(
        ValidationError::DuplicateOutputName("x".to_string()).message_id(),
        "valid-same-output-filename"
    );
}

#[test]
fn processing_messages_carry_their_arguments() {
    let e = ProcessingError::TargetExists("out.docx".to_string());
    assert_eq!(e.message_id(), "docx-filler-fail-overwrite");
    assert_eq!(e.message_args(), vec![("filename".to_string(), "out.docx".to_string())]);
    assert_eq!(ProcessingError::NoPrimaryEntry.message_id(), "docx-filler-fail-load");
    assert_eq!(ProcessingError::NoTemplateLoaded.message_id(), "ui-docx-no-template");
}
