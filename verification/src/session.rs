//! The template session: holds at most one loaded template.  Opening a
//! template moves the session to its loaded state, discarding any prior
//! template; every generation operation demands the loaded state and fails
//! otherwise.

use vstd::prelude::*;

use crate::archive::archive_entries;
use crate::archive::normalized;
use crate::errors::DocxError;
use crate::errors::ProcessingError;
use crate::template::DocxTemplate;
use crate::template::PlannedDoc;

verus! {

/// A session around at most one loaded template.
pub struct TemplateSession {
    template: Option<DocxTemplate>,
}

impl TemplateSession {
    /// A template is loaded.
    pub closed spec fn loaded(&self) -> bool {
        self.template is Some
    }

    /// The loaded template.
    pub closed spec fn current(&self) -> DocxTemplate {
        self.template->Some_0
    }

    /// Any loaded template is well-formed.
    pub closed spec fn wf(&self) -> bool {
        self.loaded() ==> self.current().wf()
    }

    /// A fresh session with no template loaded.
    pub fn new() -> (r: TemplateSession)
        ensures
            !r.loaded(),
            r.wf(),
    {
        TemplateSession { template: None }
    }

    /// Whether a template is currently loaded.
    pub fn is_loaded(&self) -> (r: bool)
        ensures
            r == self.loaded(),
    {
        self.template.is_some()
    }

    /// Loads the template at `input_path` from its archive bytes, discarding
    /// any previously loaded template; on failure the session is unchanged.
    pub fn open(&mut self, input_path: &str, archive_bytes: &Vec<u8>) -> (r: Result<(), DocxError>)
        requires
            old(self).wf(),
        ensures
            final(self).wf(),
            match r {
                Result::Ok(_) => {
                    &&& final(self).loaded()
                    &&& final(self).current().path() == input_path@
                    &&& archive_entries(archive_bytes@) matches Some(raw)
                        && final(self).current().entries() == normalized(raw)
                },
                Result::Err(e) => {
                    &&& *final(self) == *old(self)
                    &&& archive_entries(archive_bytes@) is None
                    &&& (e is Archive || e is Io)
                },
            },
    {
        match DocxTemplate::open(input_path, archive_bytes) {
            Ok(t) => {
                self.template = Some(t);
                Ok(())
            },
            Err(e) => Err(e),
        }
    }

    /// The tokens of the loaded template; fails when no template is loaded.
    pub fn template_tokens(&self) -> (r: Result<Vec<String>, DocxError>)
        requires
            self.wf(),
        ensures
            !self.loaded() ==> (r matches Result::Err(e) && e matches DocxError::Processing(
                ProcessingError::NoTemplateLoaded,
            )),
            self.loaded() ==> DocxTemplate::template_tokens.ensures((&self.current(),), r),
    {
        match &self.template {
            Some(t) => t.template_tokens(),
            None => Err(DocxError::Processing(ProcessingError::NoTemplateLoaded)),
        }
    }

    /// Generates one document from the loaded template; fails when no
    /// template is loaded.
    pub fn build_docx(
        &self,
        tokens: &Vec<String>,
        values: &Vec<String>,
        output_pattern: &str,
    ) -> (r: Result<PlannedDoc, DocxError>)
        requires
            self.wf(),
        ensures
            !self.loaded() ==> (r matches Result::Err(e) && e matches DocxError::Processing(
                ProcessingError::NoTemplateLoaded,
            )),
            self.loaded() ==> DocxTemplate::build_docx.ensures(
                (&self.current(), tokens, values, output_pattern),
                r,
            ),
    {
        match &self.template {
            Some(t) => t.build_docx(tokens, values, output_pattern),
            None => Err(DocxError::Processing(ProcessingError::NoTemplateLoaded)),
        }
    }

    /// Generates one document per line of the batch input from the loaded
    /// template; fails when no template is loaded.
    pub fn build_docx_batch(
        &self,
        tokens: &Vec<String>,
        text: &str,
        separator: &str,
        output_pattern: &str,
    ) -> (r: Result<Vec<PlannedDoc>, DocxError>)
        requires
            self.wf(),
        ensures
            !self.loaded() ==> (r matches Result::Err(e) && e matches DocxError::Processing(
                ProcessingError::NoTemplateLoaded,
            )),
            self.loaded() ==> DocxTemplate::build_docx_batch.ensures(
                (&self.current(), tokens, text, separator, output_pattern),
                r,
            ),
    {
        match &self.template {
            Some(t) => t.build_docx_batch(tokens, text, separator, output_pattern),
            None => Err(DocxError::Processing(ProcessingError::NoTemplateLoaded)),
        }
    }
}

} // verus!