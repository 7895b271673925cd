//! End-to-end tests of the template engine: scanning, generation, batch
//! generation, and the archive round trip through the zip codec.

use std::io::Read;
use std::io::Write;

use docx_filler::DocxError;
use docx_filler::DocxTemplate;
use docx_filler::ProcessingError;
use docx_filler::TemplateSession;
use docx_filler::ValidationError;
use docx_filler::check_target;
use docx_filler::scan_text;

fn make_zip(entries: &[(&str, &str)]) -> Vec<u8> {
    let mut zip = zip::ZipWriter::new(std::io::Cursor::new(Vec::new()));
    let options = zip::write::SimpleFileOptions::default();
    for (name, content) in entries {
        zip.start_file(*name, options).unwrap();
        zip.write_all(content.as_bytes()).unwrap();
    }
    zip.finish().unwrap().into_inner()
}

fn read_zip(bytes: &[u8]) -> Vec<(String, String)> {
    let mut zip = zip::ZipArchive::new(std::io::Cursor::new(bytes)).unwrap();
    let mut out = Vec::new();
    for i in 0..zip.len() {
        let mut entry = zip.by_index(i).unwrap();
        let name = entry.name().to_string();
        let mut content = String::new();
        entry.read_to_string(&mut content).unwrap();
        out.push((name, content));
    }
    out
}

fn strings(items: &[&str]) -> Vec<String> {
    items.iter().map(|s| s.to_string()).collect()
}

#[test]
fn scan_finds_tokens_in_order() {
    let found = scan_text("Hello {{name}} from {{city}}, dear {{name}}!");
    assert_eq!(found, strings(&["{{name}}", "{{city}}"]));
}

#[test]
fn scan_without_tokens_is_empty() {
    assert_eq!(scan_text("no placeholders here"), Vec::<String>::new());
    assert_eq!(scan_text(""), Vec::<String>::new());
}

#[test]
fn scan_is_non_greedy() {
    assert_eq!(scan_text("{{a}} and {{b}}}"), strings(&["{{a}}", "{{b}}"]));
    assert_eq!(scan_text("{{{x}}"), strings(&["{{{x}}"]));
    assert_eq!(scan_text("{{a}b}}"), strings(&["{{a}b}}"]));
}

#[test]
fn scan_does_not_cross_lines() {
    assert_eq!(scan_text("{{a\nb}} then {{c}}"), strings(&["{{c}}"]));
    assert_eq!(scan_text("{{open never closed"), Vec::<String>::new());
}

#[test]
fn template_tokens_from_archive() {
    let bytes = make_zip(&[
        ("word/document.xml", "Dear {{name}}, greetings from {{city}}."),
        ("word/styles.xml", "<styles/>"),
    ]);
    let template = DocxTemplate::open("template.docx", &bytes).unwrap();
    let tokens = template.template_tokens().unwrap();
    assert_eq!(tokens, strings(&["{{name}}", "{{city}}"]));
}

#[test]
fn template_without_tokens_fails_with_empty_token_set() {
    let bytes = make_zip(&[("word/document.xml", "plain text")]);
    let template = DocxTemplate::open("template.docx", &bytes).unwrap();
    let err = template.template_tokens().unwrap_err();
    assert_eq!(err, DocxError::Validation(ValidationError::EmptyTokenSet));
}

#[test]
fn template_without_primary_entry_fails() {
    let bytes = make_zip(&[("word/styles.xml", "<styles/>")]);
    let template = DocxTemplate::open("template.docx", &bytes).unwrap();
    let err = template.template_tokens().unwrap_err();
    assert_eq!(err, DocxError::Processing(ProcessingError::NoPrimaryEntry));
}

#[test]
fn scan_accepts_the_minimal_token() {
    assert_eq!(scan_text("a{{}}b"), strings(&["{{}}"]));
    assert_eq!(scan_text("{{}"), Vec::<String>::new());
}

#[test]
fn open_rejects_an_entry_that_is_not_text() {
    let mut zip = zip::ZipWriter::new(std::io::Cursor::new(Vec::new()));
    let options = zip::write::SimpleFileOptions::default();
    zip.start_file("word/document.xml", options).unwrap();
    zip.write_all(&[0xff, 0xfe, 0x00, 0x80]).unwrap();
    let bytes = zip.finish().unwrap().into_inner();
    let err = DocxTemplate::open("template.docx", &bytes).unwrap_err();
    assert!(matches!(err, DocxError::Io(_)));
}

#[test]
fn open_rejects_malformed_bytes() {
    let err = DocxTemplate::open("nope.docx", &vec![1u8, 2, 3, 4]).unwrap_err();
    assert!(matches!(err, DocxError::Archive(_)));
}

#[test]
fn loading_keeps_later_content_of_repeated_entry() {
    let entry = |name: &str, content: &str| docx_filler::Entry {
        name: name.to_string(),
        content: content.to_string(),
    };
    let map = docx_filler::archive::build_file_map(vec![
        entry("word/document.xml", "first"),
        entry("word/styles.xml", "<styles/>"),
        entry("word/document.xml", "second"),
    ]);
    assert_eq!(map.len(), 2);
    assert_eq!(map[0].name, "word/document.xml");
    assert_eq!(map[0].content, "second");
    assert_eq!(map[1].name, "word/styles.xml");
}

#[test]
fn build_docx_substitutes_and_keeps_other_entries() {
    let bytes = make_zip(&[
        ("word/document.xml", "Dear {{name}}, see you in {{city}}."),
        ("word/styles.xml", "<styles/>"),
    ]);
    let template = DocxTemplate::open("template.docx", &bytes).unwrap();
    let tokens = strings(&["{{name}}", "{{city}}"]);
    let values = strings(&["Ada", "Paris"]);
    let plan = template.build_docx(&tokens, &values, "letter-{{name}}.docx").unwrap();
    assert_eq!(plan.path, "letter-Ada.docx");
    let mut primary = None;
    let mut styles = None;
    for e in &plan.entries {
        if e.name == "word/document.xml" {
            primary = Some(e.content.clone());
        }
        if e.name == "word/styles.xml" {
            styles = Some(e.content.clone());
        }
    }
    assert_eq!(primary.unwrap(), "Dear Ada, see you in Paris.");
    assert_eq!(styles.unwrap(), "<styles/>");
}

#[test]
fn build_docx_rejects_bad_extension() {
    let bytes = make_zip(&[("word/document.xml", "Dear {{name}}.")]);
    let template = DocxTemplate::open("template.docx", &bytes).unwrap();
    let tokens = strings(&["{{name}}"]);
    let values = strings(&["Ada"]);
    let err = template.build_docx(&tokens, &values, "letter-{{name}}.txt").unwrap_err();
    assert_eq!(
        err,
        DocxError::Validation(ValidationError::BadExtension("letter-Ada.txt".to_string()))
    );
}

#[test]
fn archive_round_trip_through_codec() {
    let bytes = make_zip(&[
        ("word/document.xml", "Hello {{name}}!"),
        ("word/styles.xml", "<styles/>"),
    ]);
    let template = DocxTemplate::open("template.docx", &bytes).unwrap();
    let tokens = strings(&["{{name}}"]);
    let values = strings(&["Ada"]);
    let plan = template.build_docx(&tokens, &values, "out.docx").unwrap();
    let produced = plan.archive_bytes().unwrap();
    let entries = read_zip(&produced);
    assert_eq!(entries.len(), 2);
    assert!(entries.contains(&("word/document.xml".to_string(), "Hello Ada!".to_string())));
    assert!(entries.contains(&("word/styles.xml".to_string(), "<styles/>".to_string())));
}

#[test]
fn reopening_a_produced_archive_yields_the_plan() {
    let bytes = make_zip(&[
        ("word/document.xml", "Hello {{name}}!"),
        ("word/styles.xml", "<styles/>"),
    ]);
    let template = DocxTemplate::open("template.docx", &bytes).unwrap();
    let plan = template
        .build_docx(&strings(&["{{name}}"]), &strings(&["Ada"]), "out.docx")
        .unwrap();
    let produced = plan.archive_bytes().unwrap();
    let reopened = DocxTemplate::open("out.docx", &produced).unwrap();
    assert_eq!(reopened.document_contents(), Some("Hello Ada!".to_string()));
    assert_eq!(reopened.template_tokens().unwrap_err(),
        DocxError::Validation(ValidationError::EmptyTokenSet));
}

#[test]
fn default_pattern_is_named_after_the_first_token() {
    let tokens = strings(&["{{name}}", "{{city}}"]);
    assert_eq!(
        docx_filler::default_output_pattern(&tokens),
        "{{name}}.docx"
    );
}

#[test]
fn never_overwrites_an_existing_target() {
    let err = check_target("out.docx", true).unwrap_err();
    assert_eq!(
        err,
        DocxError::Processing(ProcessingError::TargetExists("out.docx".to_string()))
    );
    assert!(check_target("out.docx", false).is_ok());
}

#[test]
fn batch_produces_one_document_per_line() {
    let bytes = make_zip(&[("word/document.xml", "{{name}} of {{city}}")]);
    let template = DocxTemplate::open("template.docx", &bytes).unwrap();
    let tokens = strings(&["{{name}}", "{{city}}"]);
    let plans = template
        .build_docx_batch(&tokens, "Ada;Paris\nBob;Rome", ";", "{{name}}.docx")
        .unwrap();
    assert_eq!(plans.len(), 2);
    assert_eq!(plans[0].path, "Ada.docx");
    assert_eq!(plans[1].path, "Bob.docx");
    let doc0 = plans[0].entries.iter().find(|e| e.name == "word/document.xml").unwrap();
    let doc1 = plans[1].entries.iter().find(|e| e.name == "word/document.xml").unwrap();
    assert_eq!(doc0.content, "Ada of Paris");
    assert_eq!(doc1.content, "Bob of Rome");
}

#[test]
fn batch_fails_fast_on_short_line() {
    let bytes = make_zip(&[("word/document.xml", "{{name}} of {{city}}")]);
    let template = DocxTemplate::open("template.docx", &bytes).unwrap();
    let tokens = strings(&["{{name}}", "{{city}}"]);
    let err = template
        .build_docx_batch(&tokens, "Ada;Paris\nBob", ";", "{{name}}.docx")
        .unwrap_err();
    assert_eq!(
        err,
        DocxError::Validation(ValidationError::LineError(
            2,
            Box::new(ValidationError::CountMismatch(2, 1))
        ))
    );
}

#[test]
fn batch_rejects_duplicate_output_names_before_planning() {
    let bytes = make_zip(&[("word/document.xml", "{{name}} of {{city}}")]);
    let template = DocxTemplate::open("template.docx", &bytes).unwrap();
    let tokens = strings(&["{{name}}", "{{city}}"]);
    let err = template
        .build_docx_batch(&tokens, "Ada;Paris\nAda;Rome", ";", "{{name}}.docx")
        .unwrap_err();
    assert_eq!(
        err,
        DocxError::Validation(ValidationError::DuplicateOutputName("Ada.docx".to_string()))
    );
}

#[test]
fn batch_accepts_carriage_return_line_endings() {
    let bytes = make_zip(&[("word/document.xml", "{{name}} of {{city}}")]);
    let template = DocxTemplate::open("template.docx", &bytes).unwrap();
    let tokens = strings(&["{{name}}", "{{city}}"]);
    let plans = template
        .build_docx_batch(&tokens, "Ada;Paris\r\nBob;Rome\r\n", ";", "{{name}}.docx")
        .unwrap();
    assert_eq!(plans.len(), 2);
    assert_eq!(plans[1].path, "Bob.docx");
}

#[test]
fn session_requires_a_loaded_template() {
    let session = TemplateSession::new();
    assert!(!session.is_loaded());
    let err = session.template_tokens().unwrap_err();
    assert_eq!(err, DocxError::Processing(ProcessingError::NoTemplateLoaded));
    let err = session
        .build_docx_batch(&strings(&["{{a}}"]), "x", ";", "y.docx")
        .unwrap_err();
    assert_eq!(err, DocxError::Processing(ProcessingError::NoTemplateLoaded));
}

#[test]
fn session_keeps_template_after_failed_reload() {
    let bytes = make_zip(&[("word/document.xml", "Hi {{name}}")]);
    let mut session = TemplateSession::new();
    session.open("template.docx", &bytes).unwrap();
    assert!(session.is_loaded());
    assert!(session.open("broken.docx", &vec![0u8, 1, 2]).is_err());
    assert!(session.is_loaded());
    assert_eq!(session.template_tokens().unwrap(), strings(&["{{name}}"]));
}
