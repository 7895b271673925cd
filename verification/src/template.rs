//! The loaded template and document generation: token discovery, single
//! generation and batch generation, each producing an in-memory document
//! plan; writing plans to disk is the caller's part, and never overwrites.

use vstd::prelude::*;
use vstd::string::StrSliceExecFns;
use vstd::string::StringExecFns;

use crate::archive::archive_entries;
use crate::archive::build_file_map;
use crate::archive::names_distinct;
use crate::archive::normalized;
use crate::archive::zip_encode;
use crate::archive::zip_extract;
use crate::archive::Entry;
use crate::errors::DocxError;
use crate::errors::ProcessingError;
use crate::errors::ValidationError;
use crate::scanner::found_tokens;
use crate::scanner::lemma_found_tokens_props;
use crate::scanner::scan_text;
use crate::text::docx_suffix;
use crate::text::ends_with;
use crate::text::line_values;
use crate::text::lines_of;
use crate::text::replace_tokens;
use crate::text::string_to_values;
use crate::text::substituted;
use crate::text::text_lines;
use crate::validations::batch_error;
use crate::validations::batch_ok;
use crate::validations::distinct;
use crate::validations::name_line_ok;
use crate::validations::resolved_name;
use crate::validations::single_error;
use crate::validations::single_ok;
use crate::validations::tokens_ok;
use crate::validations::validate_batch;
use crate::validations::validate_single;
use crate::validations::validate_tokens;
use crate::validations::values_ok;

verus! {

/// The fixed name of the archive entry holding the document's primary text.
pub open spec fn primary_entry_name() -> Seq<char> {
    "word/document.xml"@
}

/// Content of the first entry of `es` named `name`, if any.
pub open spec fn lookup_entry(es: Seq<(Seq<char>, Seq<char>)>, name: Seq<char>) -> Option<
    Seq<char>,
>
    decreases es.len(),
{
    if es.len() == 0 {
        None
    } else if es[0].0 == name {
        Some(es[0].1)
    } else {
        lookup_entry(es.drop_first(), name)
    }
}

/// `es` with the content of every entry named `name` replaced by `c`.
pub open spec fn with_entry_content(
    es: Seq<(Seq<char>, Seq<char>)>,
    name: Seq<char>,
    c: Seq<char>,
) -> Seq<(Seq<char>, Seq<char>)> {
    es.map(
        |_i: int, e: (Seq<char>, Seq<char>)|
            if e.0 == name {
                (e.0, c)
            } else {
                e
            },
    )
}

/// Law: rewriting the entry named `name` touches nothing else — every other
/// entry keeps its name and content unchanged, and every entry of that name
/// carries exactly the new content.
pub proof fn lemma_with_entry_content(
    es: Seq<(Seq<char>, Seq<char>)>,
    name: Seq<char>,
    c: Seq<char>,
)
    ensures
        with_entry_content(es, name, c).len() == es.len(),
        forall|k: int|
            0 <= k < es.len() && es[k].0 != name ==> with_entry_content(es, name, c)[k] == es[k],
        forall|k: int|
            0 <= k < es.len() && es[k].0 == name ==> with_entry_content(es, name, c)[k] == (
            es[k].0,
            c,
            ),
{
}

/// An ordered sequence of distinct placeholder strings.
pub type TokenPack = Vec<String>;

/// An ordered sequence of replacement strings, one per token.
pub type ValuePack = Vec<String>;

/// A document generator loaded from one packaged template, held wholly in
/// memory and read many times to produce independent output documents.
#[derive(Debug)]
pub struct DocxTemplate {
    input_path: String,
    target_xml: String,
    file_data: Vec<Entry>,
}

/// One generated document, planned in memory: the resolved output path and
/// the full entry map to encode and write there.
#[derive(Debug)]
pub struct PlannedDoc {
    pub path: String,
    pub entries: Vec<Entry>,
}

impl DocxTemplate {
    /// The loaded entry map, by name and content.
    pub closed spec fn entries(&self) -> Seq<(Seq<char>, Seq<char>)> {
        self.file_data.deep_view()
    }

    /// The path the template was loaded from.
    pub closed spec fn path(&self) -> Seq<char> {
        self.input_path@
    }

    /// Well-formed: entry names are distinct and the primary entry name is
    /// the fixed one.
    pub closed spec fn wf(&self) -> bool {
        &&& self.target_xml@ == primary_entry_name()
        &&& names_distinct(self.entries())
    }

    /// Creates a generator from the template's source path and the raw bytes
    /// of its packaged archive, loading every entry into memory.
    pub fn open(input_path: &str, archive_bytes: &Vec<u8>) -> (r: Result<DocxTemplate, DocxError>)
        ensures
            match r {
                Result::Ok(t) => {
                    &&& t.wf()
                    &&& t.path() == input_path@
                    &&& archive_entries(archive_bytes@) matches Some(raw) && t.entries()
                        == normalized(raw)
                },
                Result::Err(e) => {
                    &&& archive_entries(archive_bytes@) is None
                    &&& (e is Archive || e is Io)
                },
            },
    {
        let raw = match zip_extract(archive_bytes) {
            Ok(raw) => raw,
            Err(e) => {
                return Err(e);
            },
        };
        let file_data = build_file_map(raw);
        Ok(
            DocxTemplate {
                input_path: input_path.to_owned(),
                target_xml: "word/document.xml".to_owned(),
                file_data,
            },
        )
    }

    /// The whole textual content of the template's primary entry, if the
    /// archive holds one.
    pub fn document_contents(&self) -> (r: Option<String>)
        requires
            self.wf(),
        ensures
            match r {
                Some(c) => lookup_entry(self.entries(), primary_entry_name()) == Some(c@),
                None => lookup_entry(self.entries(), primary_entry_name()) is None,
            },
    {
        let ghost es = self.entries();
        proof {
            assert(es.skip(0) =~= es);
        }
        let mut i: usize = 0;
        while i < self.file_data.len()
            invariant
                0 <= i <= self.file_data@.len(),
                self.wf(),
                es == self.entries(),
                lookup_entry(es, self.target_xml@) == lookup_entry(
                    es.skip(i as int),
                    self.target_xml@,
                ),
            decreases self.file_data@.len() - i,
        {
            proof {
                assert(es[i as int] == self.file_data@[i as int].deep_view());
                assert(es.skip(i as int)[0] == es[i as int]);
                assert(es.skip(i as int).drop_first() =~= es.skip(i + 1));
            }
            if self.file_data[i].name == self.target_xml {
                let c = self.file_data[i].content.clone();
                proof {
                    assert(self.wf());
                    assert(self.target_xml@ == primary_entry_name());
                    assert(es.skip(i as int)[0].0 == self.target_xml@);
                    assert(lookup_entry(es.skip(i as int), self.target_xml@) == Some(
                        es.skip(i as int)[0].1,
                    ));
                    assert(c@ == es[i as int].1);
                    assert(lookup_entry(self.entries(), primary_entry_name()) == Some(c@));
                }
                return Some(c);
            }
            i += 1;
        }
        proof {
            assert(es.skip(es.len() as int).len() == 0);
        }
        None
    }

    /// The tokens of the loaded template: every distinct placeholder of the
    /// primary entry, in order of first appearance.  Fails when the primary
    /// entry is absent, and with an empty-token-set failure when the text
    /// holds no placeholder at all.
    pub fn template_tokens(&self) -> (r: Result<Vec<String>, DocxError>)
        requires
            self.wf(),
        ensures
            match r {
                Result::Ok(toks) => {
                    &&& lookup_entry(self.entries(), primary_entry_name()) matches Some(doc)
                        && toks.deep_view() == found_tokens(doc)
                    &&& tokens_ok(toks.deep_view())
                },
                Result::Err(e) => {
                    ||| {
                        &&& lookup_entry(self.entries(), primary_entry_name()) is None
                        &&& e matches DocxError::Processing(ProcessingError::NoPrimaryEntry)
                    }
                    ||| {
                        &&& lookup_entry(self.entries(), primary_entry_name()) matches Some(doc)
                            && found_tokens(doc).len() == 0
                        &&& e matches DocxError::Validation(ValidationError::EmptyTokenSet)
                    }
                },
            },
    {
        let document = match self.document_contents() {
            Some(document) => document,
            None => {
                return Err(DocxError::Processing(ProcessingError::NoPrimaryEntry));
            },
        };
        let tokens = scan_text(document.as_str());
        proof {
            lemma_found_tokens_props(document@);
            assert(distinct(tokens.deep_view()));
        }
        match validate_tokens(&tokens) {
            Ok(_) => Ok(tokens),
            Err(e) => {
                proof {
                    assert(tokens.deep_view().len() == 0);
                }
                Err(e)
            },
        }
    }

    /// Plans one document from already validated inputs: the output path is
    /// the pattern with every token substituted, and the planned entries are
    /// the template's with the primary text rewritten the same way.
    pub fn data_to_docx(
        &self,
        tokens: &Vec<String>,
        values: &Vec<String>,
        output_pattern: &str,
    ) -> (r: Result<PlannedDoc, DocxError>)
        requires
            self.wf(),
            tokens@.len() == values@.len(),
        ensures
            match r {
                Result::Ok(doc) => {
                    &&& lookup_entry(self.entries(), primary_entry_name()) matches Some(orig)
                        && doc.entries.deep_view() == with_entry_content(
                        self.entries(),
                        primary_entry_name(),
                        substituted(orig, tokens.deep_view(), values.deep_view()),
                    )
                    &&& doc.path@ == substituted(
                        output_pattern@,
                        tokens.deep_view(),
                        values.deep_view(),
                    )
                    &&& names_distinct(doc.entries.deep_view())
                },
                Result::Err(e) => {
                    &&& lookup_entry(self.entries(), primary_entry_name()) is None
                    &&& e matches DocxError::Processing(ProcessingError::NoPrimaryEntry)
                },
            },
    {
        let out_str = replace_tokens(output_pattern, tokens, values);
        let orig_document = match self.document_contents() {
            Some(d) => d,
            None => {
                return Err(DocxError::Processing(ProcessingError::NoPrimaryEntry));
            },
        };
        let updated = replace_tokens(orig_document.as_str(), tokens, values);
        let ghost es = self.entries();
        let ghost target = with_entry_content(es, primary_entry_name(), updated@);
        let ghost gu = updated@;
        let mut new_entries: Vec<Entry> = Vec::new();
        let mut i: usize = 0;
        while i < self.file_data.len()
            invariant
                0 <= i <= self.file_data@.len(),
                self.wf(),
                es == self.entries(),
                gu == updated@,
                target == with_entry_content(es, primary_entry_name(), gu),
                new_entries@.len() == i,
                forall|k: int| 0 <= k < i ==> new_entries.deep_view()[k] == target[k],
            decreases self.file_data@.len() - i,
        {
            proof {
                assert(es[i as int] == self.file_data@[i as int].deep_view());
            }
            let name = self.file_data[i].name.clone();
            let e = if self.file_data[i].name == self.target_xml {
                Entry { name, content: updated.clone() }
            } else {
                Entry { name, content: self.file_data[i].content.clone() }
            };
            let ghost ge = e;
            let ghost pre = new_entries;
            new_entries.push(e);
            proof {
                crate::archive::lemma_entry_deep_view_push(pre, new_entries, ge);
                assert(new_entries.deep_view()[i as int] == ge.deep_view());
                assert(ge.deep_view() == target[i as int]);
            }
            i += 1;
        }
        proof {
            assert(new_entries.deep_view() =~~= target);
            assert forall|a: int, b: int| 0 <= a < b < target.len() implies target[a].0
                != target[b].0 by {
                assert(target[a].0 == es[a].0);
                assert(target[b].0 == es[b].0);
            }
        }
        Ok(PlannedDoc { path: out_str, entries: new_entries })
    }

    /// Generates one document from the loaded template: validates the
    /// inputs, resolves the output path, and plans the rewritten archive.
    /// The first failing check decides the error; an absent primary entry is
    /// reported once validation has passed.
    pub fn build_docx(
        &self,
        tokens: &Vec<String>,
        values: &Vec<String>,
        output_pattern: &str,
    ) -> (r: Result<PlannedDoc, DocxError>)
        requires
            self.wf(),
        ensures
            ({
                let ts = tokens.deep_view();
                let vs = values.deep_view();
                match r {
                    Result::Ok(doc) => {
                        &&& single_ok(ts, vs, output_pattern@)
                        &&& lookup_entry(self.entries(), primary_entry_name()) matches Some(orig)
                            && doc.entries.deep_view() == with_entry_content(
                            self.entries(),
                            primary_entry_name(),
                            substituted(orig, ts, vs),
                        )
                        &&& doc.path@ == substituted(output_pattern@, ts, vs)
                        &&& names_distinct(doc.entries.deep_view())
                    },
                    Result::Err(e) => {
                        ||| {
                            &&& !single_ok(ts, vs, output_pattern@)
                            &&& e matches DocxError::Validation(ve) && single_error(
                                ve,
                                ts,
                                vs,
                                output_pattern@,
                            )
                        }
                        ||| {
                            &&& single_ok(ts, vs, output_pattern@)
                            &&& lookup_entry(self.entries(), primary_entry_name()) is None
                            &&& e matches DocxError::Processing(ProcessingError::NoPrimaryEntry)
                        }
                    },
                }
            }),
    {
        match validate_single(tokens, values, output_pattern) {
            Ok(_) => self.data_to_docx(tokens, values, output_pattern),
            Err(e) => Err(e),
        }
    }

    /// Generates one document per line of the batch input text: validates
    /// the whole batch first — so a failing batch plans nothing at all —
    /// then plans every line's document; all the planned output paths are
    /// pairwise distinct.
    pub fn build_docx_batch(
        &self,
        tokens: &Vec<String>,
        text: &str,
        separator: &str,
        output_pattern: &str,
    ) -> (r: Result<Vec<PlannedDoc>, DocxError>)
        requires
            self.wf(),
        ensures
            ({
                let ts = tokens.deep_view();
                let ls = lines_of(text@);
                let pat = output_pattern@;
                match r {
                    Result::Ok(docs) => {
                        &&& batch_ok(ts, text@, separator@, pat)
                        &&& lookup_entry(self.entries(), primary_entry_name()) matches Some(orig)
                            && {
                            &&& docs@.len() == ls.len()
                            &&& forall|k: int|
                                0 <= k < docs@.len() ==> (#[trigger] docs@[k]).path@
                                    == resolved_name(pat, ts, ls[k], separator@)
                            &&& forall|k: int|
                                0 <= k < docs@.len() ==> (#[trigger] docs@[k]).entries.deep_view()
                                    == with_entry_content(
                                    self.entries(),
                                    primary_entry_name(),
                                    substituted(orig, ts, line_values(ls[k], separator@)),
                                )
                            &&& forall|k: int|
                                0 <= k < docs@.len() ==> names_distinct(
                                    (#[trigger] docs@[k]).entries.deep_view(),
                                )
                            &&& forall|k1: int, k2: int|
                                0 <= k1 < k2 < docs@.len() ==> (#[trigger] docs@[k1]).path@ != (
                                #[trigger] docs@[k2]).path@
                        }
                    },
                    Result::Err(e) => {
                        ||| e matches DocxError::Validation(ve) && batch_error(
                            ve,
                            ts,
                            text@,
                            separator@,
                            pat,
                        )
                        ||| {
                            &&& batch_ok(ts, text@, separator@, pat)
                            &&& lookup_entry(self.entries(), primary_entry_name()) is None
                            &&& e matches DocxError::Processing(ProcessingError::NoPrimaryEntry)
                        }
                    },
                }
            }),
    {
        let ghost ts = tokens.deep_view();
        let ghost ls = lines_of(text@);
        let ghost pat = output_pattern@;
        match validate_batch(tokens, text, separator, output_pattern) {
            Ok(_) => {},
            Err(e) => {
                return Err(e);
            },
        }
        let lines = text_lines(text);
        let mut docs: Vec<PlannedDoc> = Vec::new();
        let mut k: usize = 0;
        while k < lines.len()
            invariant
                0 <= k <= lines@.len(),
                self.wf(),
                ts == tokens.deep_view(),
                ls == lines_of(text@),
                pat == output_pattern@,
                lines.deep_view() == ls,
                batch_ok(ts, text@, separator@, pat),
                docs@.len() == k,
                lookup_entry(self.entries(), primary_entry_name()) is Some || k == 0,
                forall|m: int|
                    0 <= m < k ==> (#[trigger] docs@[m]).path@ == resolved_name(
                        pat,
                        ts,
                        ls[m],
                        separator@,
                    ),
                forall|m: int|
                    0 <= m < k ==> names_distinct((#[trigger] docs@[m]).entries.deep_view()),
                forall|m: int|
                    0 <= m < k ==> (#[trigger] docs@[m]).entries.deep_view()
                        == with_entry_content(
                        self.entries(),
                        primary_entry_name(),
                        substituted(
                            lookup_entry(self.entries(), primary_entry_name())->Some_0,
                            ts,
                            line_values(ls[m], separator@),
                        ),
                    ),
            decreases lines@.len() - k,
        {
            proof {
                assert(lines.deep_view()[k as int] == lines@[k as int]@);
                assert(name_line_ok(pat, ts, separator@, ls, k as int));
            }
            let values = string_to_values(lines[k].as_str(), separator);
            proof {
                assert(values.deep_view() == line_values(ls[k as int], separator@));
                assert(values.deep_view().len() == values@.len());
                assert(ts.len() == tokens@.len());
            }
            let doc = match self.data_to_docx(tokens, &values, output_pattern) {
                Ok(doc) => doc,
                Err(e) => {
                    return Err(e);
                },
            };
            docs.push(doc);
            k += 1;
        }
        proof {
            crate::text::lemma_lines_of_nonempty(text@);
            assert(lookup_entry(self.entries(), primary_entry_name()) is Some);
            assert forall|k1: int, k2: int| 0 <= k1 < k2 < docs@.len() implies (
            #[trigger] docs@[k1]).path@ != (#[trigger] docs@[k2]).path@ by {
                assert(name_line_ok(pat, ts, separator@, ls, k2));
            }
        }
        Ok(docs)
    }
}

impl PlannedDoc {
    /// Encodes the planned entries as archive bytes ready to be written at
    /// the planned path: decoding the produced container yields exactly the
    /// planned entries.
    pub fn archive_bytes(&self) -> (r: Result<Vec<u8>, DocxError>)
        ensures
            r matches Ok(bytes) ==> archive_entries(bytes@) == Some(self.entries.deep_view()),
            r matches Err(e) ==> (e is Archive || e is Io),
    {
        zip_encode(&self.entries)
    }
}

/// The output pattern offered for a freshly discovered token pack: the
/// first token followed by the document extension, so that each generated
/// document is named after that token's value.
pub fn default_output_pattern(tokens: &Vec<String>) -> (r: String)
    requires
        tokens@.len() > 0,
    ensures
        r@ == tokens@[0]@ + docx_suffix(),
        ends_with(r@, docx_suffix()),
{
    let mut r = tokens[0].clone();
    r.append(".docx");
    proof {
        assert(r@.subrange(r@.len() - docx_suffix().len(), r@.len() as int) =~= docx_suffix());
    }
    r
}

/// Decides one write against the state of the target path: a file already
/// present at the resolved output path is never overwritten; generation
/// fails instead.
pub fn check_target(path: &str, target_exists: bool) -> (r: Result<(), DocxError>)
    ensures
        match r {
            Result::Ok(_) => !target_exists,
            Result::Err(e) => {
                &&& target_exists
                &&& e matches DocxError::Processing(ProcessingError::TargetExists(p)) && p@
                    == path@
            },
        },
{
    if target_exists {
        Err(DocxError::Processing(ProcessingError::TargetExists(path.to_owned())))
    } else {
        Ok(())
    }
}

} // verus!