//! The archive store: named text entries of a packaged document, together
//! with the trusted calls that decode such a package from bytes and encode
//! one back.  Every entry map held by the library keeps its entry names
//! distinct; loading resolves repeated names by keeping the later content,
//! as a mapping filled in archive order would.

use std::io::Read;
use std::io::Write;

use vstd::prelude::*;

use crate::errors::DocxError;

verus! {

/// One named text entry of a packaged document.
#[derive(Debug)]
pub struct Entry {
    pub name: String,
    pub content: String,
}

impl DeepView for Entry {
    type V = (Seq<char>, Seq<char>);

    open spec fn deep_view(&self) -> (Seq<char>, Seq<char>) {
        (self.name@, self.content@)
    }
}

/// No two entries share a name.
pub open spec fn names_distinct(es: Seq<(Seq<char>, Seq<char>)>) -> bool {
    forall|i: int, j: int| 0 <= i < j < es.len() ==> es[i].0 != es[j].0
}

/// Pushing an entry onto a vector pushes its view onto the deep view.
pub proof fn lemma_entry_deep_view_push(pre: Vec<Entry>, post: Vec<Entry>, x: Entry)
    requires
        post@ == pre@.push(x),
    ensures
        post.deep_view() == pre.deep_view().push(x.deep_view()),
{
    assert forall|k: int| 0 <= k < post@.len() implies post.deep_view()[k] == pre.deep_view().push(
        x.deep_view(),
    )[k] by {
        assert(post.deep_view()[k] == post@[k].deep_view());
        if k < pre@.len() {
            assert(post@[k] == pre@[k]);
            assert(pre.deep_view()[k] == pre@[k].deep_view());
        } else {
            assert(post@[k] == x);
        }
    }
    assert(post.deep_view() =~~= pre.deep_view().push(x.deep_view()));
}

// ---------------------------------------------------------------------------
// Loading: resolving repeated names
// ---------------------------------------------------------------------------

/// `es` with `x` stored under its name: the first entry of that name is
/// replaced, or `x` is appended when the name is new.
pub open spec fn upserted(
    es: Seq<(Seq<char>, Seq<char>)>,
    x: (Seq<char>, Seq<char>),
) -> Seq<(Seq<char>, Seq<char>)>
    decreases es.len(),
{
    if es.len() == 0 {
        seq![x]
    } else if es[0].0 == x.0 {
        seq![x] + es.drop_first()
    } else {
        seq![es[0]] + upserted(es.drop_first(), x)
    }
}

/// The entry map that storing every element of `raw` in order yields.
pub open spec fn normalized(raw: Seq<(Seq<char>, Seq<char>)>) -> Seq<(Seq<char>, Seq<char>)>
    decreases raw.len(),
{
    if raw.len() == 0 {
        Seq::empty()
    } else {
        upserted(normalized(raw.drop_last()), raw.last())
    }
}

/// Law: an entry map whose names are distinct is its own normalization.
/// With the codec's round trip, re-opening a produced container therefore
/// loads exactly the entry map it was encoded from.
pub proof fn lemma_normalized_distinct(es: Seq<(Seq<char>, Seq<char>)>)
    requires
        names_distinct(es),
    ensures
        normalized(es) == es,
    decreases es.len(),
{
    if es.len() == 0 {
        assert(normalized(es) =~= es);
    } else {
        let dl = es.drop_last();
        assert(names_distinct(dl)) by {
            assert forall|i: int, j: int| 0 <= i < j < dl.len() implies dl[i].0 != dl[j].0 by {
                assert(dl[i] == es[i]);
                assert(dl[j] == es[j]);
            }
        }
        lemma_normalized_distinct(dl);
        assert forall|k: int| 0 <= k < dl.len() implies dl[k].0 != es.last().0 by {
            assert(dl[k] == es[k]);
            assert(es.last() == es[es.len() - 1]);
        }
        lemma_upserted_new(dl, es.last());
        assert(normalized(es) == dl.push(es.last()));
        assert(dl.push(es.last()) =~= es);
    }
}

/// Some entry of `es` bears the name `n`.
pub open spec fn has_name(es: Seq<(Seq<char>, Seq<char>)>, n: Seq<char>) -> bool {
    exists|i: int| 0 <= i < es.len() && #[trigger] es[i].0 == n
}

proof fn lemma_upserted_names(es: Seq<(Seq<char>, Seq<char>)>, x: (Seq<char>, Seq<char>))
    ensures
        forall|n: Seq<char>| #[trigger] has_name(upserted(es, x), n) <==> (n == x.0 || has_name(
            es,
            n,
        )),
        names_distinct(es) ==> names_distinct(upserted(es, x)),
    decreases es.len(),
{
    if es.len() == 0 {
        assert forall|n: Seq<char>| #[trigger] has_name(upserted(es, x), n) implies (n == x.0
            || has_name(es, n)) by {
            let i = choose|i: int|
                0 <= i < upserted(es, x).len() && #[trigger] upserted(es, x)[i].0 == n;
            assert(n == x.0);
        }
        assert forall|n: Seq<char>| (n == x.0 || has_name(es, n)) implies #[trigger] has_name(
            upserted(es, x),
            n,
        ) by {
            assert(upserted(es, x)[0].0 == x.0);
        }
    } else if es[0].0 == x.0 {
        assert forall|n: Seq<char>| #[trigger] has_name(upserted(es, x), n) implies (n == x.0
            || has_name(es, n)) by {
            let i = choose|i: int|
                0 <= i < upserted(es, x).len() && #[trigger] upserted(es, x)[i].0 == n;
            if i > 0 {
                assert(es[i].0 == n);
            }
        }
        assert forall|n: Seq<char>| (n == x.0 || has_name(es, n)) implies #[trigger] has_name(
            upserted(es, x),
            n,
        ) by {
            if n == x.0 {
                assert(upserted(es, x)[0].0 == n);
            } else {
                let i = choose|i: int| 0 <= i < es.len() && #[trigger] es[i].0 == n;
                assert(i > 0);
                assert(upserted(es, x)[i].0 == es[i].0);
            }
        }
    } else {
        lemma_upserted_names(es.drop_first(), x);
        let u = upserted(es, x);
        let ud = upserted(es.drop_first(), x);
        assert(u == seq![es[0]] + ud);
        assert forall|n: Seq<char>| #[trigger] has_name(u, n) implies (n == x.0 || has_name(
            es,
            n,
        )) by {
            let i = choose|i: int| 0 <= i < u.len() && #[trigger] u[i].0 == n;
            if i == 0 {
                assert(es[0].0 == n);
            } else {
                assert(ud[i - 1].0 == n);
                assert(has_name(ud, n));
                if n != x.0 {
                    assert(has_name(es.drop_first(), n));
                    let j = choose|j: int|
                        0 <= j < es.drop_first().len() && #[trigger] es.drop_first()[j].0 == n;
                    assert(es[j + 1].0 == n);
                }
            }
        }
        assert forall|n: Seq<char>| (n == x.0 || has_name(es, n)) implies #[trigger] has_name(
            u,
            n,
        ) by {
            if n == x.0 {
                assert(has_name(ud, n));
                let j = choose|j: int| 0 <= j < ud.len() && #[trigger] ud[j].0 == n;
                assert(u[j + 1].0 == n);
            } else {
                let i = choose|i: int| 0 <= i < es.len() && #[trigger] es[i].0 == n;
                if i == 0 {
                    assert(u[0].0 == n);
                } else {
                    assert(es.drop_first()[i - 1].0 == n);
                    assert(has_name(es.drop_first(), n));
                    assert(has_name(ud, n));
                    let j = choose|j: int| 0 <= j < ud.len() && #[trigger] ud[j].0 == n;
                    assert(u[j + 1].0 == n);
                }
            }
        }
        if names_distinct(es) {
            assert(names_distinct(es.drop_first())) by {
                assert forall|i: int, j: int|
                    0 <= i < j < es.drop_first().len() implies es.drop_first()[i].0
                    != es.drop_first()[j].0 by {
                    assert(es.drop_first()[i] == es[i + 1]);
                    assert(es.drop_first()[j] == es[j + 1]);
                }
            }
            assert forall|i: int, j: int| 0 <= i < j < u.len() implies u[i].0 != u[j].0 by {
                if i == 0 {
                    assert(u[0] == es[0]);
                    assert(ud[j - 1].0 == u[j].0);
                    if u[j].0 == es[0].0 {
                        assert(has_name(ud, es[0].0));
                        assert(es[0].0 != x.0);
                        assert(has_name(es.drop_first(), es[0].0));
                        let m = choose|m: int|
                            0 <= m < es.drop_first().len() && #[trigger] es.drop_first()[m].0
                                == es[0].0;
                        assert(es[m + 1].0 == es[0].0);
                        assert(false);
                    }
                } else {
                    assert(u[i] == ud[i - 1]);
                    assert(u[j] == ud[j - 1]);
                }
            }
        }
    }
}

proof fn lemma_upserted_at(
    es: Seq<(Seq<char>, Seq<char>)>,
    x: (Seq<char>, Seq<char>),
    i: int,
)
    requires
        0 <= i < es.len(),
        es[i].0 == x.0,
        forall|k: int| 0 <= k < i ==> es[k].0 != x.0,
    ensures
        upserted(es, x) == es.update(i, x),
    decreases es.len(),
{
    if i == 0 {
        assert(upserted(es, x) =~= es.update(0, x));
    } else {
        let df = es.drop_first();
        assert(df[i - 1].0 == x.0);
        assert forall|k: int| 0 <= k < i - 1 implies df[k].0 != x.0 by {
            assert(df[k] == es[k + 1]);
        }
        lemma_upserted_at(df, x, i - 1);
        assert(upserted(es, x) =~= es.update(i, x));
    }
}

proof fn lemma_upserted_new(es: Seq<(Seq<char>, Seq<char>)>, x: (Seq<char>, Seq<char>))
    requires
        forall|k: int| 0 <= k < es.len() ==> es[k].0 != x.0,
    ensures
        upserted(es, x) == es.push(x),
    decreases es.len(),
{
    if es.len() == 0 {
        assert(upserted(es, x) =~= es.push(x));
    } else {
        let df = es.drop_first();
        assert forall|k: int| 0 <= k < df.len() implies df[k].0 != x.0 by {
            assert(df[k] == es[k + 1]);
        }
        lemma_upserted_new(df, x);
        assert(upserted(es, x) =~= es.push(x));
    }
}

fn find_name(es: &Vec<Entry>, name: &String) -> (r: Option<usize>)
    ensures
        match r {
            Some(i) => {
                &&& i < es@.len()
                &&& es.deep_view()[i as int].0 == name@
                &&& forall|k: int| 0 <= k < i ==> es.deep_view()[k].0 != name@
            },
            None => forall|k: int| 0 <= k < es@.len() ==> es.deep_view()[k].0 != name@,
        },
{
    let mut i: usize = 0;
    while i < es.len()
        invariant
            0 <= i <= es@.len(),
            forall|k: int| 0 <= k < i ==> es.deep_view()[k].0 != name@,
        decreases es@.len() - i,
    {
        if es[i].name == *name {
            proof {
                assert(es.deep_view()[i as int] == es@[i as int].deep_view());
            }
            return Some(i);
        }
        proof {
            assert(es.deep_view()[i as int] == es@[i as int].deep_view());
        }
        i += 1;
    }
    None
}

/// Builds the entry map that storing every raw entry in order yields: names
/// stay distinct, a repeated name keeps the later content.
pub fn build_file_map(raw: Vec<Entry>) -> (r: Vec<Entry>)
    ensures
        r.deep_view() == normalized(raw.deep_view()),
        names_distinct(r.deep_view()),
{
    let ghost rdv = raw.deep_view();
    let mut out: Vec<Entry> = Vec::new();
    let mut i: usize = 0;
    while i < raw.len()
        invariant
            0 <= i <= raw@.len(),
            rdv == raw.deep_view(),
            out.deep_view() == normalized(rdv.take(i as int)),
            names_distinct(out.deep_view()),
        decreases raw@.len() - i,
    {
        proof {
            assert(rdv[i as int] == raw@[i as int].deep_view());
            assert(rdv.take(i + 1).drop_last() =~= rdv.take(i as int));
            assert(rdv.take(i + 1).last() == rdv[i as int]);
        }
        let name = raw[i].name.clone();
        let content = raw[i].content.clone();
        let ghost x = (name@, content@);
        proof {
            lemma_upserted_names(out.deep_view(), x);
        }
        match find_name(&out, &name) {
            Some(j) => {
                proof {
                    lemma_upserted_at(out.deep_view(), x, j as int);
                }
                let ghost pre = out;
                out.set(j, Entry { name, content });
                proof {
                    assert forall|k: int| 0 <= k < out@.len() implies out.deep_view()[k]
                        == pre.deep_view().update(j as int, x)[k] by {
                        assert(out.deep_view()[k] == out@[k].deep_view());
                        if k != j {
                            assert(out@[k] == pre@[k]);
                            assert(pre.deep_view()[k] == pre@[k].deep_view());
                        }
                    }
                    assert(out.deep_view() =~~= pre.deep_view().update(j as int, x));
                }
            },
            None => {
                proof {
                    lemma_upserted_new(out.deep_view(), x);
                }
                let e = Entry { name, content };
                let ghost ge = e;
                let ghost pre = out;
                out.push(e);
                proof {
                    lemma_entry_deep_view_push(pre, out, ge);
                }
            },
        }
        i += 1;
    }
    proof {
        assert(rdv.take(raw@.len() as int) =~= rdv);
    }
    out
}

// ---------------------------------------------------------------------------
// Trusted archive codec
// ---------------------------------------------------------------------------

/// What decoding an archive's bytes yields: the entries' names and text
/// contents in archive order, or nothing when the bytes do not form a
/// well-formed archive of text entries.
pub uninterp spec fn archive_entries(bytes: Seq<u8>) -> Option<Seq<(Seq<char>, Seq<char>)>>;

/// Relies on zip::ZipArchive: decodes an in-memory archive and reads every
/// entry as text, in archive order.  The outcome is a function of the bytes
/// alone.
#[verifier::external_body]
pub fn zip_extract(bytes: &Vec<u8>) -> (r: Result<Vec<Entry>, DocxError>)
    ensures
        match r {
            Result::Ok(es) => archive_entries(bytes@) == Some(es.deep_view()),
            Result::Err(e) => archive_entries(bytes@) is None && (e is Archive || e is Io),
        },
{
    let cursor = std::io::Cursor::new(bytes.as_slice());
    let mut zip = zip::ZipArchive::new(cursor).map_err(|e| DocxError::Archive(e.to_string()))?;
    let mut out: Vec<Entry> = Vec::new();
    for i in 0..zip.len() {
        let mut entry = zip.by_index(i).map_err(|e| DocxError::Archive(e.to_string()))?;
        let name = String::from(entry.name());
        let mut content = String::new();
        entry.read_to_string(&mut content).map_err(|e| DocxError::Io(e.to_string()))?;
        out.push(Entry { name, content });
    }
    Ok(out)
}

/// Relies on zip::ZipWriter: encodes the entries, in order, as a
/// deflate-compressed archive held in memory.  The produced bytes depend on
/// the writer's defaults — among them the current time stamp — so they may
/// not be named; what holds of every successful outcome is that decoding
/// them yields the entries back: names are stored verbatim, the compression
/// is lossless, entry order follows write order, and the time stamp touches
/// neither.  A failure (for one, two entries of the same name, which the
/// writer refuses) reports the writer's error.
#[verifier::external_body]
pub fn zip_encode(entries: &Vec<Entry>) -> (r: Result<Vec<u8>, DocxError>)
    ensures
        r matches Ok(bytes) ==> archive_entries(bytes@) == Some(entries.deep_view()),
        r matches Err(e) ==> (e is Archive || e is Io),
{
    let mut zip = zip::ZipWriter::new(std::io::Cursor::new(Vec::new()));
    let options = zip::write::SimpleFileOptions::default().compression_method(
        zip::CompressionMethod::Deflated,
    ).unix_permissions(0o755);
    for e in entries.iter() {
        zip.start_file(e.name.as_str(), options).map_err(|x| DocxError::Archive(x.to_string()))?;
        zip.write_all(e.content.as_bytes()).map_err(|x| DocxError::Io(x.to_string()))?;
    }
    let cursor = zip.finish().map_err(|x| DocxError::Archive(x.to_string()))?;
    Ok(cursor.into_inner())
}

} // verus!