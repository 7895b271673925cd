//! Pure consistency checks on token packs, value packs, batch input text and
//! resolved output filenames.

use vstd::prelude::*;
use vstd::string::StrSliceExecFns;

use crate::errors::DocxError;
use crate::errors::ValidationError;
use crate::text::contains_string;
use crate::text::docx_suffix;
use crate::text::ends_with;
use crate::text::line_values;
use crate::text::lines_of;
use crate::text::replace_tokens;
use crate::text::str_ends_with;
use crate::text::string_to_values;
use crate::text::substituted;
use crate::text::text_lines;

verus! {

// ---------------------------------------------------------------------------
// Spec vocabulary
// ---------------------------------------------------------------------------

/// No two elements of `ts` are equal.
pub open spec fn distinct(ts: Seq<Seq<char>>) -> bool {
    forall|i: int, j: int| 0 <= i < j < ts.len() ==> ts[i] != ts[j]
}

/// A token pack is usable: non-empty and duplicate-free.
pub open spec fn tokens_ok(ts: Seq<Seq<char>>) -> bool {
    ts.len() > 0 && distinct(ts)
}

/// The validation error raised for an unusable token pack.  The token the
/// error names is the first one that repeats an earlier token: everything
/// before it is still duplicate-free.
pub open spec fn tokens_error(ts: Seq<Seq<char>>, e: ValidationError) -> bool {
    if ts.len() == 0 {
        e is EmptyTokenSet
    } else {
        &&& !distinct(ts)
        &&& e matches ValidationError::DuplicateToken(t) && exists|i: int, j: int|
            {
                &&& 0 <= i < j < ts.len()
                &&& ts[i] == ts[j]
                &&& ts[j] == t@
                &&& distinct(ts.take(j))
            }
    }
}

/// A value pack is usable against `ntokens` tokens: non-empty and of equal
/// length.
pub open spec fn values_ok(ntokens: int, vs: Seq<Seq<char>>) -> bool {
    vs.len() > 0 && vs.len() == ntokens
}

/// The validation error raised for an unusable value pack.
pub open spec fn values_error(ntokens: int, vs: Seq<Seq<char>>, e: ValidationError) -> bool {
    if vs.len() == 0 {
        e is EmptyValueSet
    } else {
        &&& vs.len() != ntokens
        &&& e matches ValidationError::CountMismatch(a, b) && a == ntokens && b == vs.len()
    }
}

/// The output filename resolved for one line of batch input: the pattern
/// with every token replaced by the line's corresponding trimmed field.
pub open spec fn resolved_name(
    pat: Seq<char>,
    ts: Seq<Seq<char>>,
    l: Seq<char>,
    sep: Seq<char>,
) -> Seq<char> {
    substituted(pat, ts, line_values(l, sep))
}

/// Line `k` of the batch passes every filename check: its fields pair with
/// the tokens, its resolved name carries the required extension, and no
/// earlier line resolved to the same name.
pub open spec fn name_line_ok(
    pat: Seq<char>,
    ts: Seq<Seq<char>>,
    sep: Seq<char>,
    ls: Seq<Seq<char>>,
    k: int,
) -> bool {
    let vs = line_values(ls[k], sep);
    let name = resolved_name(pat, ts, ls[k], sep);
    &&& values_ok(ts.len() as int, vs)
    &&& ends_with(name, docx_suffix())
    &&& forall|m: int| 0 <= m < k ==> resolved_name(pat, ts, ls[m], sep) != name
}

/// The validation error raised by the filename checks for line `k`, in the
/// order the checks run: field count, extension, duplicate name.
pub open spec fn name_line_error(
    e: ValidationError,
    pat: Seq<char>,
    ts: Seq<Seq<char>>,
    sep: Seq<char>,
    ls: Seq<Seq<char>>,
    k: int,
) -> bool {
    let vs = line_values(ls[k], sep);
    let name = resolved_name(pat, ts, ls[k], sep);
    if !values_ok(ts.len() as int, vs) {
        values_error(ts.len() as int, vs, e)
    } else if !ends_with(name, docx_suffix()) {
        e matches ValidationError::BadExtension(f) && f@ == name
    } else {
        &&& exists|m: int| 0 <= m < k && resolved_name(pat, ts, ls[m], sep) == name
        &&& e matches ValidationError::DuplicateOutputName(f) && f@ == name
    }
}

/// The wrapped error raised by the per-line value checks for line `k`
/// (1-indexed as `k + 1`).
pub open spec fn values_line_error(
    e: ValidationError,
    ts: Seq<Seq<char>>,
    sep: Seq<char>,
    ls: Seq<Seq<char>>,
    k: int,
) -> bool {
    e matches ValidationError::LineError(ln, inner) && ln == k + 1 && values_error(
        ts.len() as int,
        line_values(ls[k], sep),
        *inner,
    )
}

/// Every check for a single generation passes: usable tokens, paired
/// values, and a resolved filename with the document extension.
pub open spec fn single_ok(ts: Seq<Seq<char>>, vs: Seq<Seq<char>>, pat: Seq<char>) -> bool {
    &&& tokens_ok(ts)
    &&& values_ok(ts.len() as int, vs)
    &&& ends_with(substituted(pat, ts, vs), docx_suffix())
}

/// The validation error raised for a single generation, by the first check
/// that fails: tokens, then values, then the resolved filename.
pub open spec fn single_error(
    ve: ValidationError,
    ts: Seq<Seq<char>>,
    vs: Seq<Seq<char>>,
    pat: Seq<char>,
) -> bool {
    if !tokens_ok(ts) {
        tokens_error(ts, ve)
    } else if !values_ok(ts.len() as int, vs) {
        values_error(ts.len() as int, vs, ve)
    } else {
        &&& !ends_with(substituted(pat, ts, vs), docx_suffix())
        &&& ve matches ValidationError::BadExtension(f) && f@ == substituted(pat, ts, vs)
    }
}

/// Every check for a batch generation passes: usable tokens, a non-empty
/// input text, and every line passing the filename checks.
pub open spec fn batch_ok(
    ts: Seq<Seq<char>>,
    text: Seq<char>,
    sep: Seq<char>,
    pat: Seq<char>,
) -> bool {
    &&& tokens_ok(ts)
    &&& text.len() > 0
    &&& forall|k: int|
        0 <= k < lines_of(text).len() ==> #[trigger] name_line_ok(pat, ts, sep, lines_of(text), k)
}

/// The validation error raised for a batch generation, by the first check
/// that fails: tokens, then each line's value count — a failure there is
/// wrapped with its line number — and only when every line's count passes,
/// each line's resolved filename.
pub open spec fn batch_error(
    ve: ValidationError,
    ts: Seq<Seq<char>>,
    text: Seq<char>,
    sep: Seq<char>,
    pat: Seq<char>,
) -> bool {
    let ls = lines_of(text);
    if !tokens_ok(ts) {
        tokens_error(ts, ve)
    } else if text.len() == 0 {
        ve is EmptyValueSet
    } else {
        ||| exists|k: int|
            {
                &&& 0 <= k < ls.len()
                &&& #[trigger] values_line_error(ve, ts, sep, ls, k)
                &&& forall|m: int|
                    0 <= m < k ==> values_ok(ts.len() as int, #[trigger] line_values(ls[m], sep))
            }
        ||| {
            &&& forall|k: int|
                0 <= k < ls.len() ==> values_ok(ts.len() as int, #[trigger] line_values(ls[k], sep))
            &&& exists|k: int|
                {
                    &&& 0 <= k < ls.len()
                    &&& #[trigger] name_line_error(ve, pat, ts, sep, ls, k)
                    &&& forall|m: int| 0 <= m < k ==> #[trigger] name_line_ok(pat, ts, sep, ls, m)
                }
        }
    }
}

/// Law: when any line of a non-empty batch has the wrong field count, the
/// batch error is the wrapped, line-numbered error of the first such line —
/// never one of the filename errors, which run only after every line's
/// count has passed.
pub proof fn lemma_batch_error_counts_first(
    ve: ValidationError,
    ts: Seq<Seq<char>>,
    text: Seq<char>,
    sep: Seq<char>,
    pat: Seq<char>,
    k: int,
)
    requires
        tokens_ok(ts),
        text.len() > 0,
        0 <= k < lines_of(text).len(),
        !values_ok(ts.len() as int, line_values(lines_of(text)[k], sep)),
        batch_error(ve, ts, text, sep, pat),
    ensures
        (ve matches ValidationError::LineError(ln, inner) && {
            let ls = lines_of(text);
            &&& 1 <= ln <= ls.len()
            &&& !values_ok(ts.len() as int, line_values(ls[ln - 1], sep))
            &&& forall|m: int|
                0 <= m < ln - 1 ==> values_ok(ts.len() as int, #[trigger] line_values(ls[m], sep))
            &&& values_error(ts.len() as int, line_values(ls[ln - 1], sep), *inner)
        }),
{
    let ls = lines_of(text);
    // The filename disjunct of `batch_error` would make every line's count
    // pass, against line `k`; so the wrapped line error fires.
    let j = choose|j: int|
        {
            &&& 0 <= j < ls.len()
            &&& #[trigger] values_line_error(ve, ts, sep, ls, j)
            &&& forall|m: int|
                0 <= m < j ==> values_ok(ts.len() as int, #[trigger] line_values(ls[m], sep))
        };
    assert(values_line_error(ve, ts, sep, ls, j));
    if line_values(ls[j], sep).len() != 0 {
        assert(line_values(ls[j], sep).len() != ts.len());
    }
}

/// Law: when every line's field count pairs with the tokens and every
/// line's resolved name carries the extension, a failing batch fails for a
/// repeated output name: the error names the first line whose resolved name
/// repeats an earlier line's, and every line before it passed whole.
pub proof fn lemma_batch_error_duplicate_name(
    ve: ValidationError,
    ts: Seq<Seq<char>>,
    text: Seq<char>,
    sep: Seq<char>,
    pat: Seq<char>,
)
    requires
        tokens_ok(ts),
        text.len() > 0,
        forall|m: int|
            0 <= m < lines_of(text).len() ==> values_ok(
                ts.len() as int,
                #[trigger] line_values(lines_of(text)[m], sep),
            ),
        forall|m: int|
            0 <= m < lines_of(text).len() ==> ends_with(
                #[trigger] resolved_name(pat, ts, lines_of(text)[m], sep),
                docx_suffix(),
            ),
        batch_error(ve, ts, text, sep, pat),
    ensures
        (ve matches ValidationError::DuplicateOutputName(f) && exists|j: int|
            {
                &&& 0 <= j < lines_of(text).len()
                &&& f@ == #[trigger] resolved_name(pat, ts, lines_of(text)[j], sep)
                &&& exists|i: int|
                    0 <= i < j && resolved_name(pat, ts, lines_of(text)[i], sep) == resolved_name(
                        pat,
                        ts,
                        lines_of(text)[j],
                        sep,
                    )
                &&& forall|m: int|
                    0 <= m < j ==> #[trigger] name_line_ok(pat, ts, sep, lines_of(text), m)
            }),
{
    let ls = lines_of(text);
    // The wrapped line-error disjunct would need some line's count to fail,
    // against the assumption that every line's count passes.
    if exists|k: int|
        {
            &&& 0 <= k < ls.len()
            &&& #[trigger] values_line_error(ve, ts, sep, ls, k)
            &&& forall|m: int|
                0 <= m < k ==> values_ok(ts.len() as int, #[trigger] line_values(ls[m], sep))
        } {
        let k = choose|k: int|
            {
                &&& 0 <= k < ls.len()
                &&& #[trigger] values_line_error(ve, ts, sep, ls, k)
                &&& forall|m: int|
                    0 <= m < k ==> values_ok(ts.len() as int, #[trigger] line_values(ls[m], sep))
            };
        assert(values_ok(ts.len() as int, line_values(ls[k], sep)));
        assert(false);
    }
    let k = choose|k: int|
        {
            &&& 0 <= k < ls.len()
            &&& #[trigger] name_line_error(ve, pat, ts, sep, ls, k)
            &&& forall|m: int| 0 <= m < k ==> #[trigger] name_line_ok(pat, ts, sep, ls, m)
        };
    assert(values_ok(ts.len() as int, line_values(ls[k], sep)));
    assert(ends_with(resolved_name(pat, ts, ls[k], sep), docx_suffix()));
}

// ---------------------------------------------------------------------------
// Token and value checks
// ---------------------------------------------------------------------------

/// Verifies a token pack: it must be non-empty and free of duplicates.
pub fn validate_tokens(tokens: &Vec<String>) -> (r: Result<(), DocxError>)
    ensures
        ({
            let ts = tokens.deep_view();
            match r {
                Result::Ok(_) => tokens_ok(ts),
                Result::Err(e) => {
                    &&& !tokens_ok(ts)
                    &&& e matches DocxError::Validation(ve) && tokens_error(ts, ve)
                },
            }
        }),
{
    let ghost ts = tokens.deep_view();
    if tokens.len() == 0 {
        return Err(DocxError::Validation(ValidationError::EmptyTokenSet));
    }
    let mut j: usize = 1;
    while j < tokens.len()
        invariant
            1 <= j <= tokens@.len(),
            ts == tokens.deep_view(),
            forall|a: int, b: int| 0 <= a < b < j ==> ts[a] != ts[b],
        decreases tokens@.len() - j,
    {
        let mut i: usize = 0;
        while i < j
            invariant
                0 <= i <= j < tokens@.len(),
                ts == tokens.deep_view(),
                forall|a: int, b: int| 0 <= a < b < j ==> ts[a] != ts[b],
                forall|a: int| 0 <= a < i ==> ts[a] != ts[j as int],
            decreases j - i,
        {
            if tokens[i] == tokens[j] {
                proof {
                    assert(ts[i as int] == tokens@[i as int]@);
                    assert(ts[j as int] == tokens@[j as int]@);
                    assert(ts[i as int] == ts[j as int]);
                    assert forall|a: int, b: int|
                        0 <= a < b < ts.take(j as int).len() implies ts.take(j as int)[a]
                        != ts.take(j as int)[b] by {
                        assert(ts.take(j as int)[a] == ts[a]);
                        assert(ts.take(j as int)[b] == ts[b]);
                    }
                    assert(distinct(ts.take(j as int)));
                }
                return Err(
                    DocxError::Validation(ValidationError::DuplicateToken(tokens[j].clone())),
                );
            }
            proof {
                assert(ts[i as int] == tokens@[i as int]@);
                assert(ts[j as int] == tokens@[j as int]@);
            }
            i += 1;
        }
        j += 1;
    }
    Ok(())
}

/// Verifies a value pack against a token pack: the values must be non-empty
/// and pair one to one with the tokens.
pub fn validate_values(tokens: &Vec<String>, values: &Vec<String>) -> (r: Result<(), DocxError>)
    ensures
        ({
            let ts = tokens.deep_view();
            let vs = values.deep_view();
            match r {
                Result::Ok(_) => values_ok(ts.len() as int, vs),
                Result::Err(e) => {
                    &&& !values_ok(ts.len() as int, vs)
                    &&& e matches DocxError::Validation(ve) && values_error(ts.len() as int, vs, ve)
                },
            }
        }),
{
    if values.len() == 0 {
        return Err(DocxError::Validation(ValidationError::EmptyValueSet));
    }
    if values.len() != tokens.len() {
        return Err(
            DocxError::Validation(ValidationError::CountMismatch(tokens.len(), values.len())),
        );
    }
    Ok(())
}

/// Verifies a resolved output filename: it must end with the document
/// extension.
pub fn validate_filename(filename: &str) -> (r: Result<(), DocxError>)
    ensures
        match r {
            Result::Ok(_) => ends_with(filename@, docx_suffix()),
            Result::Err(e) => {
                &&& !ends_with(filename@, docx_suffix())
                &&& e matches DocxError::Validation(ValidationError::BadExtension(f)) && f@
                    == filename@
            },
        },
{
    if !str_ends_with(filename, ".docx") {
        return Err(DocxError::Validation(ValidationError::BadExtension(filename.to_owned())));
    }
    Ok(())
}

// ---------------------------------------------------------------------------
// Batch checks
// ---------------------------------------------------------------------------

/// Verifies that every line of the batch input yields as many values as
/// there are tokens; a failing line is reported with its 1-indexed number.
pub fn validate_values_multiline(text: &str, separator: &str, tokens: &Vec<String>) -> (r: Result<
    (),
    DocxError,
>)
    ensures
        ({
            let ts = tokens.deep_view();
            let ls = lines_of(text@);
            match r {
                Result::Ok(_) => text@.len() > 0 && forall|k: int|
                    0 <= k < ls.len() ==> values_ok(
                        ts.len() as int,
                        #[trigger] line_values(ls[k], separator@),
                    ),
                Result::Err(e) => {
                    &&& e matches DocxError::Validation(ve) && (if text@.len() == 0 {
                        ve is EmptyValueSet
                    } else {
                        exists|k: int|
                            {
                                &&& 0 <= k < ls.len()
                                &&& #[trigger] values_line_error(ve, ts, separator@, ls, k)
                                &&& forall|m: int|
                                    0 <= m < k ==> values_ok(
                                        ts.len() as int,
                                        #[trigger] line_values(ls[m], separator@),
                                    )
                            }
                    })
                },
            }
        }),
{
    let ghost ts = tokens.deep_view();
    let ghost ls = lines_of(text@);
    if text.unicode_len() == 0 {
        return Err(DocxError::Validation(ValidationError::EmptyValueSet));
    }
    let lines = text_lines(text);
    let mut idx: usize = 0;
    while idx < lines.len()
        invariant
            0 <= idx <= lines@.len(),
            ts == tokens.deep_view(),
            ls == lines_of(text@),
            lines.deep_view() == ls,
            text@.len() > 0,
            forall|m: int|
                0 <= m < idx ==> values_ok(ts.len() as int, #[trigger] line_values(ls[m], separator@)),
        decreases lines@.len() - idx,
    {
        proof {
            assert(lines.deep_view()[idx as int] == lines@[idx as int]@);
        }
        let values = string_to_values(lines[idx].as_str(), separator);
        proof {
            assert(values.deep_view() == line_values(ls[idx as int], separator@));
        }
        if values.len() == 0 {
            let ve = ValidationError::LineError(idx + 1, Box::new(ValidationError::EmptyValueSet));
            proof {
                assert(values_line_error(ve, ts, separator@, ls, idx as int));
            }
            return Err(DocxError::Validation(ve));
        }
        if values.len() != tokens.len() {
            let ve = ValidationError::LineError(
                idx + 1,
                Box::new(ValidationError::CountMismatch(tokens.len(), values.len())),
            );
            proof {
                assert(values_line_error(ve, ts, separator@, ls, idx as int));
            }
            return Err(DocxError::Validation(ve));
        }
        idx += 1;
    }
    Ok(())
}

/// Verifies the resolved output filename of every line of the batch input:
/// each line's fields must pair with the tokens, each resolved name must
/// carry the document extension, and no two lines may resolve to the same
/// name.  The first offending line decides the error.
pub fn validate_filename_multiline(
    tokens: &Vec<String>,
    text: &str,
    separator: &str,
    output_pattern: &str,
) -> (r: Result<(), DocxError>)
    ensures
        ({
            let ts = tokens.deep_view();
            let ls = lines_of(text@);
            let pat = output_pattern@;
            match r {
                Result::Ok(_) => forall|k: int|
                    0 <= k < ls.len() ==> #[trigger] name_line_ok(pat, ts, separator@, ls, k),
                Result::Err(e) => {
                    &&& e matches DocxError::Validation(ve) && exists|k: int|
                        {
                            &&& 0 <= k < ls.len()
                            &&& #[trigger] name_line_error(ve, pat, ts, separator@, ls, k)
                            &&& forall|m: int|
                                0 <= m < k ==> #[trigger] name_line_ok(pat, ts, separator@, ls, m)
                        }
                },
            }
        }),
{
    let ghost ts = tokens.deep_view();
    let ghost ls = lines_of(text@);
    let ghost pat = output_pattern@;
    let lines = text_lines(text);
    let mut names: Vec<String> = Vec::new();
    let mut idx: usize = 0;
    while idx < lines.len()
        invariant
            0 <= idx <= lines@.len(),
            ts == tokens.deep_view(),
            ls == lines_of(text@),
            pat == output_pattern@,
            lines.deep_view() == ls,
            names@.len() == idx,
            forall|m: int|
                0 <= m < idx ==> names.deep_view()[m] == resolved_name(pat, ts, ls[m], separator@),
            forall|m: int| 0 <= m < idx ==> #[trigger] name_line_ok(pat, ts, separator@, ls, m),
        decreases lines@.len() - idx,
    {
        proof {
            assert(lines.deep_view()[idx as int] == lines@[idx as int]@);
        }
        let values = string_to_values(lines[idx].as_str(), separator);
        proof {
            assert(values.deep_view() == line_values(ls[idx as int], separator@));
        }
        if values.len() == 0 {
            let ve = ValidationError::EmptyValueSet;
            proof {
                assert(name_line_error(ve, pat, ts, separator@, ls, idx as int));
            }
            return Err(DocxError::Validation(ve));
        }
        if values.len() != tokens.len() {
            let ve = ValidationError::CountMismatch(tokens.len(), values.len());
            proof {
                assert(name_line_error(ve, pat, ts, separator@, ls, idx as int));
            }
            return Err(DocxError::Validation(ve));
        }
        let filename = replace_tokens(output_pattern, tokens, &values);
        proof {
            assert(filename@ == resolved_name(pat, ts, ls[idx as int], separator@));
        }
        if !str_ends_with(filename.as_str(), ".docx") {
            let ghost gfn = filename@;
            let ve = ValidationError::BadExtension(filename);
            proof {
                assert(ve matches ValidationError::BadExtension(f) && f@ == gfn);
                assert(name_line_error(ve, pat, ts, separator@, ls, idx as int));
            }
            return Err(DocxError::Validation(ve));
        }
        if contains_string(&names, &filename) {
            let ghost gfn = filename@;
            let ve = ValidationError::DuplicateOutputName(filename);
            proof {
                let m = choose|m: int|
                    0 <= m < names.deep_view().len() && names.deep_view()[m] == gfn;
                assert(resolved_name(pat, ts, ls[m], separator@) == gfn);
                assert(ve matches ValidationError::DuplicateOutputName(f) && f@ == gfn);
                assert(name_line_error(ve, pat, ts, separator@, ls, idx as int));
            }
            return Err(DocxError::Validation(ve));
        }
        proof {
            assert forall|mm: int| 0 <= mm < idx implies resolved_name(pat, ts, ls[mm], separator@)
                != resolved_name(pat, ts, ls[idx as int], separator@) by {
                assert(names.deep_view()[mm] == resolved_name(pat, ts, ls[mm], separator@));
            }
            assert(name_line_ok(pat, ts, separator@, ls, idx as int));
        }
        let ghost gf = filename;
        let ghost pre = names;
        names.push(filename);
        proof {
            crate::text::lemma_deep_view_push(pre, names, gf);
        }
        idx += 1;
    }
    Ok(())
}

// ---------------------------------------------------------------------------
// Combined checks
// ---------------------------------------------------------------------------

/// Verifies the consistency of the inputs for a single document generation:
/// the token pack, the value pack, and the resolved output filename, in that
/// order; the first failing check decides the error.
pub fn validate_single(tokens: &Vec<String>, values: &Vec<String>, output_pattern: &str) -> (r:
    Result<(), DocxError>)
    ensures
        ({
            let ts = tokens.deep_view();
            let vs = values.deep_view();
            match r {
                Result::Ok(_) => single_ok(ts, vs, output_pattern@),
                Result::Err(e) => {
                    &&& !single_ok(ts, vs, output_pattern@)
                    &&& e matches DocxError::Validation(ve) && single_error(
                        ve,
                        ts,
                        vs,
                        output_pattern@,
                    )
                },
            }
        }),
{
    let rt = validate_tokens(tokens);
    if let Err(e) = rt {
        return Err(e);
    }
    let rv = validate_values(tokens, values);
    if let Err(e) = rv {
        return Err(e);
    }
    let filename = replace_tokens(output_pattern, tokens, values);
    if !str_ends_with(filename.as_str(), ".docx") {
        return Err(DocxError::Validation(ValidationError::BadExtension(filename)));
    }
    Ok(())
}

/// Verifies the consistency of the inputs for a batch generation: the token
/// pack, every line's value count, and every line's resolved output
/// filename, in that order; the first failing check decides the error.
pub fn validate_batch(
    tokens: &Vec<String>,
    text: &str,
    separator: &str,
    output_pattern: &str,
) -> (r: Result<(), DocxError>)
    ensures
        ({
            let ts = tokens.deep_view();
            match r {
                Result::Ok(_) => batch_ok(ts, text@, separator@, output_pattern@),
                Result::Err(e) => {
                    &&& e matches DocxError::Validation(ve) && batch_error(
                        ve,
                        ts,
                        text@,
                        separator@,
                        output_pattern@,
                    )
                },
            }
        }),
{
    let rt = validate_tokens(tokens);
    if let Err(e) = rt {
        return Err(e);
    }
    let rm = validate_values_multiline(text, separator, tokens);
    if let Err(e) = rm {
        return Err(e);
    }
    let rf = validate_filename_multiline(tokens, text, separator, output_pattern);
    if let Err(e) = rf {
        return Err(e);
    }
    Ok(())
}

} // verus!
