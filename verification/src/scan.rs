//! The directory scanner: a directory listing to a sorted snapshot of
//! notes, or an error. Only files with the note extension (`.markdown`,
//! exactly) take part; any single file's failure aborts the whole scan,
//! so a half-broken directory is never published. The caller supplies the
//! listing: file names with the raw file contents, in directory
//! enumeration order.

use vstd::prelude::*;

use crate::note::{Note, NoteView, ScanError, ScanErrorView};
use crate::parse::{parse_note, parse_result_view, parse_spec};
use crate::sort::{
    lemma_sort_sorted, lemma_sort_stable, sort_by_date_desc, sort_notes_by_date, sorted_desc,
    views_of, with_date,
};
use crate::text::str_eq;

verus! {

/// One directory entry handed to the scanner: the file's name (the final
/// path component) and its raw contents.
pub struct RawDocument {
    pub name: String,
    pub content: String,
}

/// The mathematical value of a `RawDocument`.
pub struct RawDocumentView {
    pub name: Seq<char>,
    pub content: Seq<char>,
}

impl View for RawDocument {
    type V = RawDocumentView;

    open spec fn view(&self) -> RawDocumentView {
        RawDocumentView { name: self.name@, content: self.content@ }
    }
}

/// The mathematical values of a sequence of directory entries.
pub open spec fn doc_views_of(s: Seq<RawDocument>) -> Seq<RawDocumentView> {
    s.map_values(|d: RawDocument| d@)
}

/// Whether a file name carries the note extension: its last `.` is not
/// the leading character and what follows it is exactly `markdown`, the
/// test that `Path::extension` makes for a plain file name.
pub open spec fn has_note_extension(name: Seq<char>) -> bool {
    exists|i: int|
        0 < i && i < name.len() && #[trigger] name[i] == '.' && (forall|j: int|
            i < j < name.len() ==> name[j] != '.') && name.skip(i + 1) == "markdown"@
}

/// Whether the named file takes part in a scan.
#[verifier::loop_isolation(false)]
pub fn is_note_file(name: &str) -> (r: bool)
    ensures
        r == has_note_extension(name@),
{
    let n = name.unicode_len();
    // Walk back to the last dot.
    let mut k: usize = n;
    while k > 0 && name.get_char(k - 1) != '.'
        invariant
            0 <= k <= n,
            n == name@.len(),
            forall|j: int| k <= j < n ==> name@[j] != '.',
        decreases k,
    {
        k -= 1;
    }
    if k == 0 {
        assert(!has_note_extension(name@));
        return false;
    }
    let dot = k - 1;
    assert(name@[dot as int] == '.');
    if dot == 0 {
        assert(!has_note_extension(name@));
        return false;
    }
    let suffix = name.substring_char(k, n);
    let r = str_eq(suffix, "markdown");
    proof {
        assert(suffix@ =~= name@.skip(dot as int + 1));
        if r {
            assert(has_note_extension(name@));
        } else {
            assert forall|i: int|
                !(0 < i && i < name@.len() && #[trigger] name@[i] == '.' && (forall|j: int|
                    i < j < name@.len() ==> name@[j] != '.') && name@.skip(i + 1)
                    == "markdown"@) by {
                if 0 < i && i < name@.len() && name@[i] == '.' && (forall|j: int|
                    i < j < name@.len() ==> name@[j] != '.') {
                    if i < dot as int {
                        assert(name@[dot as int] == '.');
                        assert(false);
                    } else if i > dot as int {
                        assert(name@[i] != '.');
                        assert(false);
                    } else {
                        assert(name@.skip(i + 1) != "markdown"@);
                    }
                }
            }
        }
    }
    r
}

/// Parse every entry that carries the note extension, in order; the first
/// failure aborts the scan.
pub open spec fn parse_all(docs: Seq<RawDocumentView>) -> Result<Seq<NoteView>, ScanErrorView>
    decreases docs.len(),
{
    if docs.len() == 0 {
        Ok(Seq::empty())
    } else {
        let d = docs[0];
        if !has_note_extension(d.name) {
            parse_all(docs.drop_first())
        } else {
            match parse_spec(d.content) {
                Err(e) => Err(ScanErrorView::NoteFailed { path: d.name, cause: e }),
                Ok(nv) => match parse_all(docs.drop_first()) {
                    Ok(rest) => Ok(seq![nv] + rest),
                    Err(e) => Err(e),
                },
            }
        }
    }
}

/// What `scan` returns, as a function of the directory listing: the
/// parsed notes sorted by date, newest first, or the first failure.
pub open spec fn scan_spec(docs: Seq<RawDocumentView>) -> Result<Seq<NoteView>, ScanErrorView> {
    match parse_all(docs) {
        Ok(ns) => Ok(sort_by_date_desc(ns)),
        Err(e) => Err(e),
    }
}

/// A scan succeeds exactly when every entry carrying the note extension
/// parses.
pub proof fn lemma_scan_ok_iff_all_parse(docs: Seq<RawDocumentView>)
    ensures
        scan_spec(docs) is Ok <==> (forall|k: int|
            0 <= k < docs.len() && has_note_extension(#[trigger] docs[k].name)
                ==> parse_spec(docs[k].content) is Ok),
    decreases docs.len(),
{
    if docs.len() > 0 {
        let rest = docs.drop_first();
        assert(forall|k: int| 0 <= k < rest.len() ==> rest[k] == docs[k + 1]);
        lemma_scan_ok_iff_all_parse(rest);
        let all = forall|k: int|
            0 <= k < docs.len() && has_note_extension(#[trigger] docs[k].name) ==> parse_spec(
                docs[k].content,
            ) is Ok;
        if all {
            assert forall|k: int|
                0 <= k < rest.len() && has_note_extension(
                    #[trigger] rest[k].name,
                ) implies parse_spec(rest[k].content) is Ok by {
                assert(rest[k] == docs[k + 1]);
            }
            assert(parse_all(rest) is Ok);
            assert(parse_all(docs) is Ok);
        }
        if parse_all(docs) is Ok {
            assert(parse_all(rest) is Ok);
            assert forall|k: int|
                0 <= k < docs.len() && has_note_extension(
                    #[trigger] docs[k].name,
                ) implies parse_spec(docs[k].content) is Ok by {
                if k > 0 {
                    assert(docs[k] == rest[k - 1]);
                }
            }
        }
    }
}

/// A successful scan's snapshot is sorted by date, newest first, and for
/// every date keeps the notes carrying it in their enumeration order.
pub proof fn lemma_scan_sorted_and_stable(docs: Seq<RawDocumentView>, d: i64)
    requires
        scan_spec(docs) is Ok,
    ensures
        sorted_desc(scan_spec(docs)->Ok_0),
        with_date(scan_spec(docs)->Ok_0, d) == with_date(parse_all(docs)->Ok_0, d),
{
    lemma_sort_sorted(parse_all(docs)->Ok_0);
    lemma_sort_stable(parse_all(docs)->Ok_0, d);
}

/// The result of `scan` lifted to mathematical values.
pub open spec fn scan_result_view(r: Result<Vec<Note>, ScanError>) -> Result<
    Seq<NoteView>,
    ScanErrorView,
> {
    match r {
        Ok(v) => Ok(views_of(v@)),
        Err(e) => Err(e@),
    }
}

/// Scan a directory listing into a snapshot: parse every note file and
/// sort the notes by date, newest first; the scan is all-or-nothing.
#[verifier::loop_isolation(false)]
pub fn scan(docs: &Vec<RawDocument>) -> (r: Result<Vec<Note>, ScanError>)
    ensures
        scan_result_view(r) == scan_spec(doc_views_of(docs@)),
{
    let ghost dv = doc_views_of(docs@);
    let mut out: Vec<Note> = Vec::new();
    let mut k: usize = 0;
    proof {
        assert(dv.skip(0) =~= dv);
        assert(views_of(Seq::<Note>::empty()) =~= Seq::<NoteView>::empty());
    }
    while k < docs.len()
        invariant
            0 <= k <= docs@.len(),
            dv == doc_views_of(docs@),
            parse_all(dv) == (match parse_all(dv.skip(k as int)) {
                Ok(rest) => Ok(views_of(out@) + rest),
                Err(e) => Err(e),
            }),
        decreases docs@.len() - k,
    {
        let d = &docs[k];
        proof {
            assert(dv.skip(k as int)[0] == dv[k as int]);
            assert(dv[k as int] == docs@[k as int]@);
            assert(dv.skip(k as int).drop_first() =~= dv.skip(k as int + 1));
        }
        if is_note_file(d.name.as_str()) {
            match parse_note(d.content.as_str()) {
                Ok(note) => {
                    let ghost acc0 = views_of(out@);
                    let ghost nv = note@;
                    out.push(note);
                    proof {
                        assert(views_of(out@) =~= acc0.push(nv));
                        let tail = parse_all(dv.skip(k as int + 1));
                        if tail is Ok {
                            assert(acc0 + (seq![nv] + tail->Ok_0) =~= acc0.push(nv)
                                + tail->Ok_0);
                        }
                    }
                },
                Err(e) => {
                    proof {
                        assert(parse_all(dv) == Err::<Seq<NoteView>, ScanErrorView>(
                            ScanErrorView::NoteFailed { path: docs@[k as int].name@, cause: e@ },
                        ));
                    }
                    return Err(ScanError::NoteFailed { path: d.name.clone(), cause: e });
                },
            }
        }
        k += 1;
    }
    proof {
        assert(dv.skip(dv.len() as int) =~= Seq::<RawDocumentView>::empty());
        assert(views_of(out@) + Seq::<NoteView>::empty() =~= views_of(out@));
        assert(parse_all(dv) == Ok::<Seq<NoteView>, ScanErrorView>(views_of(out@)));
    }
    let mut sorted = out;
    sort_notes_by_date(&mut sorted);
    Ok(sorted)
}

} // verus!
