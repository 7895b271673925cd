//! Tests of the pure checks and of the string utilities they rest on.

use docx_filler::DocxError;
use docx_filler::ValidationError;
use docx_filler::replace_tokens;
use docx_filler::scan_text;
use docx_filler::string_to_values;
use docx_filler::validate_batch;
use docx_filler::validate_filename;
use docx_filler::validate_filename_multiline;
use docx_filler::validate_single;
use docx_filler::validate_tokens;
use docx_filler::validate_values;
use docx_filler::validate_values_multiline;
use docx_filler::text::replace_literal;

fn strings(items: &[&str]) -> Vec<String> {
    items.iter().map(|s| s.to_string()).collect()
}

#[test]
fn tokens_must_not_be_empty() {
    let err = validate_tokens(&Vec::new()).unwrap_err();
    assert_eq!(err, DocxError::Validation(ValidationError::EmptyTokenSet));
}

#[test]
fn tokens_must_be_distinct() {
    let err = validate_tokens(&strings(&["{{a}}", "{{b}}", "{{a}}"])).unwrap_err();
    assert_eq!(
        err,
        DocxError::Validation(ValidationError::DuplicateToken("{{a}}".to_string()))
    );
    assert!(validate_tokens(&strings(&["{{a}}", "{{b}}"])).is_ok());
}

#[test]
fn values_must_pair_with_tokens() {
    let tokens = strings(&["{{a}}", "{{b}}"]);
    let err = validate_values(&tokens, &Vec::new()).unwrap_err();
    assert_eq!(err, DocxError::Validation(ValidationError::EmptyValueSet));
    let err = validate_values(&tokens, &strings(&["x"])).unwrap_err();
    assert_eq!(err, DocxError::Validation(ValidationError::CountMismatch(2, 1)));
    assert!(validate_values(&tokens, &strings(&["x", "y"])).is_ok());
}

#[test]
fn filename_needs_the_document_extension() {
    assert!(validate_filename("letter.docx").is_ok());
    let err = validate_filename("letter.txt").unwrap_err();
    assert_eq!(
        err,
        DocxError::Validation(ValidationError::BadExtension("letter.txt".to_string()))
    );
    let err = validate_filename("letter.DOCX").unwrap_err();
    assert_eq!(
        err,
        DocxError::Validation(ValidationError::BadExtension("letter.DOCX".to_string()))
    );
}

#[test]
fn multiline_values_rejects_empty_text() {
    let tokens = strings(&["{{a}}"]);
    let err = validate_values_multiline("", ";", &tokens).unwrap_err();
    assert_eq!(err, DocxError::Validation(ValidationError::EmptyValueSet));
}

#[test]
fn multiline_values_cites_the_offending_line() {
    let tokens = strings(&["{{a}}", "{{b}}"]);
    assert!(validate_values_multiline("x;y\nu;v", ";", &tokens).is_ok());
    let err = validate_values_multiline("x;y\nu", ";", &tokens).unwrap_err();
    assert_eq!(
        err,
        DocxError::Validation(ValidationError::LineError(
            2,
            Box::new(ValidationError::CountMismatch(2, 1))
        ))
    );
}

#[test]
fn multiline_filenames_reject_a_repeat() {
    let tokens = strings(&["{{a}}", "{{b}}"]);
    assert!(validate_filename_multiline(&tokens, "x;y\nu;v", ";", "{{a}}.docx").is_ok());
    let err =
        validate_filename_multiline(&tokens, "x;y\nx;v", ";", "{{a}}.docx").unwrap_err();
    assert_eq!(
        err,
        DocxError::Validation(ValidationError::DuplicateOutputName("x.docx".to_string()))
    );
}

#[test]
fn single_validation_checks_in_order() {
    let tokens = strings(&["{{a}}", "{{a}}"]);
    let err = validate_single(&tokens, &strings(&["x"]), "p.docx").unwrap_err();
    assert_eq!(
        err,
        DocxError::Validation(ValidationError::DuplicateToken("{{a}}".to_string()))
    );
    let tokens = strings(&["{{a}}"]);
    let err = validate_single(&tokens, &strings(&["x", "y"]), "p.docx").unwrap_err();
    assert_eq!(err, DocxError::Validation(ValidationError::CountMismatch(1, 2)));
    let err = validate_single(&tokens, &strings(&["x"]), "p-{{a}}").unwrap_err();
    assert_eq!(
        err,
        DocxError::Validation(ValidationError::BadExtension("p-x".to_string()))
    );
    assert!(validate_single(&tokens, &strings(&["x"]), "p-{{a}}.docx").is_ok());
}

#[test]
fn batch_validation_checks_tokens_first() {
    let err = validate_batch(&Vec::new(), "x;y", ";", "p.docx").unwrap_err();
    assert_eq!(err, DocxError::Validation(ValidationError::EmptyTokenSet));
    let tokens = strings(&["{{a}}", "{{b}}"]);
    assert!(validate_batch(&tokens, "x;y\nu;v", ";", "{{a}}.docx").is_ok());
}

#[test]
fn substitution_round_trip_leaves_no_tokens() {
    let tokens = strings(&["{{name}}", "{{city}}"]);
    let values = strings(&["Ada", "Paris"]);
    let out = replace_tokens("Hello {{name}} from {{city}}", &tokens, &values);
    assert_eq!(out, "Hello Ada from Paris");
    assert_eq!(scan_text(&out), Vec::<String>::new());
}

#[test]
fn substitution_is_sequential() {
    let tokens = strings(&["{{a}}", "{{b}}"]);
    let values = strings(&["{{b}}", "z"]);
    let out = replace_tokens("x {{a}} y {{b}}", &tokens, &values);
    assert_eq!(out, "x z y z");
}

#[test]
fn literal_replacement_matches_the_standard_one() {
    for (s, from, to) in [
        ("aaa", "aa", "b"),
        ("abcabc", "bc", "X"),
        ("hello", "", "-"),
        ("", "", "-"),
        ("no match", "zz", "yy"),
        ("{{a}}{{a}}", "{{a}}", "v"),
    ] {
        assert_eq!(replace_literal(s, from, to), s.replace(from, to));
    }
}

#[test]
fn value_rows_are_split_and_trimmed() {
    assert_eq!(
        string_to_values("  Ada ;\tParis ", ";"),
        vec!["Ada".to_string(), "Paris".to_string()]
    );
    assert_eq!(string_to_values("one", ";"), vec!["one".to_string()]);
    assert_eq!(
        string_to_values("a;;b", ";"),
        vec!["a".to_string(), "".to_string(), "b".to_string()]
    );
}

#[test]
fn empty_separator_splits_like_the_standard_one() {
    let got = string_to_values("ab", "");
    let want: Vec<String> = "ab".split("").map(|x| x.trim().to_string()).collect();
    assert_eq!(got, want);
}
