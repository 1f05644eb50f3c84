//! The document parser: raw text to a structured note or an error.
//!
//! A document is a header and a body, split at the first blank line (two
//! consecutive newlines). The header is `key: value` lines; `name` sets
//! the title and `date` the publication time (format `%F %R`, that is
//! `YYYY-MM-DD HH:MM`, read as UTC). The body is markup text rendered to
//! HTML. A document without a `name` header gets the empty title and one
//! without a `date` header the epoch-zero sentinel.

use vstd::prelude::*;

use crate::date::{parse_datetime_utc, utc_datetime_of};
use crate::markup::{render_markup, rendered_html_of};
use crate::note::{Note, NoteView, ParseError, ParseErrorView};
use crate::text::{
    find_from, find_sep_from, has_separator, lemma_find_from_unique, lemma_split_lines_step,
    split_lines, str_eq, trim, trim_spec,
};

verus! {

/// The strftime format of a note's `date` header value.
pub open spec fn note_date_format() -> Seq<char> {
    "%F %R"@
}

/// One pass over the header lines, from the front, threading the title
/// and date accumulated so far; the first offending line aborts.
pub open spec fn parse_header(
    lines: Seq<Seq<char>>,
    title: Seq<char>,
    date: i64,
) -> Result<(Seq<char>, i64), ParseErrorView>
    decreases lines.len(),
{
    if lines.len() == 0 {
        Ok((title, date))
    } else {
        let line = lines[0];
        let c = find_from(line, 0, ':');
        if c == line.len() {
            Err(ParseErrorView::MalformedHeaderLine(line))
        } else {
            let key = line.take(c);
            let val = trim_spec(line.skip(c + 1));
            if key == "name"@ {
                parse_header(lines.drop_first(), val, date)
            } else if key == "date"@ {
                match utc_datetime_of(val, note_date_format()) {
                    Some(t) => parse_header(lines.drop_first(), title, t),
                    None => Err(ParseErrorView::InvalidDate(val)),
                }
            } else {
                Err(ParseErrorView::UnknownHeaderKey(key))
            }
        }
    }
}

/// What `parse_note` returns, as a function of the raw document text.
pub open spec fn parse_spec(s: Seq<char>) -> Result<NoteView, ParseErrorView> {
    let i = find_sep_from(s, 0);
    if i == s.len() {
        Err(ParseErrorView::MissingSeparator)
    } else {
        match parse_header(split_lines(s.take(i)), Seq::empty(), 0) {
            Ok((title, date)) => Ok(
                NoteView { title, date, content: rendered_html_of(s.skip(i)) },
            ),
            Err(e) => Err(e),
        }
    }
}

/// The result of `parse_note` lifted to mathematical values.
pub open spec fn parse_result_view(r: Result<Note, ParseError>) -> Result<
    NoteView,
    ParseErrorView,
> {
    match r {
        Ok(n) => Ok(n@),
        Err(e) => Err(e@),
    }
}

/// Whether a header line has a colon, making it a key/value line.
pub open spec fn line_has_colon(l: Seq<char>) -> bool {
    find_from(l, 0, ':') < l.len()
}

/// The key of a key/value header line: what stands before its first colon.
pub open spec fn line_key(l: Seq<char>) -> Seq<char> {
    l.take(find_from(l, 0, ':'))
}

/// The trimmed value of a key/value header line: what stands after its
/// first colon, without surrounding whitespace.
pub open spec fn line_value(l: Seq<char>) -> Seq<char> {
    trim_spec(l.skip(find_from(l, 0, ':') + 1))
}

/// A `name` header line.
pub open spec fn is_name_line(l: Seq<char>) -> bool {
    line_has_colon(l) && line_key(l) == "name"@
}

/// A `date` header line whose value parses under the note date format.
pub open spec fn is_good_date_line(l: Seq<char>) -> bool {
    line_has_colon(l) && line_key(l) == "date"@ && utc_datetime_of(
        line_value(l),
        note_date_format(),
    ) is Some
}

/// The header lines of a document, as the parser sees them.
pub open spec fn header_lines_of(s: Seq<char>) -> Seq<Seq<char>> {
    split_lines(s.take(find_sep_from(s, 0)))
}

/// A well-formed header line: a `name` line, or a `date` line whose value
/// parses under the note date format.
pub open spec fn good_header_line(l: Seq<char>) -> bool {
    is_name_line(l) || is_good_date_line(l)
}

proof fn lemma_parse_header_ok_iff(lines: Seq<Seq<char>>, t: Seq<char>, d: i64)
    ensures
        parse_header(lines, t, d) is Ok <==> (forall|j: int|
            0 <= j < lines.len() ==> good_header_line(#[trigger] lines[j])),
    decreases lines.len(),
{
    if lines.len() > 0 {
        let line = lines[0];
        let c = find_from(line, 0, ':');
        crate::text::lemma_find_from(line, 0, ':');
        let rest = lines.drop_first();
        assert(forall|j: int| 0 <= j < rest.len() ==> rest[j] == lines[j + 1]);
        if good_header_line(line) {
            if is_name_line(line) {
                lemma_parse_header_ok_iff(rest, line_value(line), d);
                assert(parse_header(lines, t, d) == parse_header(rest, line_value(line), d));
            } else {
                let t2 = utc_datetime_of(line_value(line), note_date_format())->Some_0;
                lemma_parse_header_ok_iff(rest, t, t2);
                assert(parse_header(lines, t, d) == parse_header(rest, t, t2));
            }
            if (forall|j: int| 0 <= j < rest.len() ==> good_header_line(#[trigger] rest[j])) {
                assert forall|j: int| 0 <= j < lines.len() implies good_header_line(
                    #[trigger] lines[j],
                ) by {
                    if j > 0 {
                        assert(lines[j] == rest[j - 1]);
                    }
                }
            }
            if (forall|j: int| 0 <= j < lines.len() ==> good_header_line(#[trigger] lines[j])) {
                assert forall|j: int| 0 <= j < rest.len() implies good_header_line(
                    #[trigger] rest[j],
                ) by {
                    assert(rest[j] == lines[j + 1]);
                }
            }
        } else {
            assert(parse_header(lines, t, d) is Err);
            assert(!good_header_line(lines[0]));
        }
    }
}

/// A parse succeeds exactly when the document has a blank-line separator
/// and every header line is a well-formed `name` or `date` line.
pub proof fn lemma_parse_ok_iff(s: Seq<char>)
    ensures
        parse_spec(s) is Ok <==> (has_separator(s) && forall|j: int|
            0 <= j < header_lines_of(s).len() ==> good_header_line(
                #[trigger] header_lines_of(s)[j],
            )),
{
    crate::text::lemma_find_sep_from(s, 0);
    if has_separator(s) {
        lemma_parse_header_ok_iff(header_lines_of(s), Seq::empty(), 0);
    }
}

proof fn lemma_parse_header_no_missing(lines: Seq<Seq<char>>, t: Seq<char>, d: i64)
    ensures
        parse_header(lines, t, d) != Err::<(Seq<char>, i64), ParseErrorView>(
            ParseErrorView::MissingSeparator,
        ),
    decreases lines.len(),
{
    if lines.len() > 0 {
        let line = lines[0];
        let c = find_from(line, 0, ':');
        if c != line.len() {
            let val = trim_spec(line.skip(c + 1));
            if line.take(c) == "name"@ {
                lemma_parse_header_no_missing(lines.drop_first(), val, d);
            } else if line.take(c) == "date"@ {
                if let Some(t2) = utc_datetime_of(val, note_date_format()) {
                    lemma_parse_header_no_missing(lines.drop_first(), t, t2);
                }
            }
        }
    }
}

/// The parse fails with `MissingSeparator` exactly on the documents that
/// have no blank-line header/body boundary.
pub proof fn lemma_parse_missing_separator(s: Seq<char>)
    ensures
        (parse_spec(s) == Err::<NoteView, ParseErrorView>(ParseErrorView::MissingSeparator))
            <==> !has_separator(s),
{
    crate::text::lemma_find_sep_from(s, 0);
    if has_separator(s) {
        lemma_parse_header_no_missing(header_lines_of(s), Seq::empty(), 0);
    }
}

proof fn lemma_header_title_preserved(lines: Seq<Seq<char>>, t: Seq<char>, d: i64)
    requires
        forall|j: int| 0 <= j < lines.len() ==> !is_name_line(#[trigger] lines[j]),
        parse_header(lines, t, d) is Ok,
    ensures
        (parse_header(lines, t, d)->Ok_0).0 == t,
    decreases lines.len(),
{
    if lines.len() > 0 {
        let line = lines[0];
        let c = find_from(line, 0, ':');
        let rest = lines.drop_first();
        assert(forall|j: int| 0 <= j < rest.len() ==> rest[j] == lines[j + 1]);
        assert(!is_name_line(line));
        crate::text::lemma_find_from(line, 0, ':');
        if c == line.len() {
            assert(false);
        } else {
            let val = trim_spec(line.skip(c + 1));
            if line.take(c) == "name"@ {
                assert(false);
            } else if line.take(c) == "date"@ {
                match utc_datetime_of(val, note_date_format()) {
                    Some(t2) => {
                        assert(parse_header(lines, t, d) == parse_header(rest, t, t2));
                        lemma_header_title_preserved(rest, t, t2);
                    },
                    None => {
                        assert(false);
                    },
                }
            } else {
                assert(false);
            }
        }
    }
}

proof fn lemma_header_title(lines: Seq<Seq<char>>, t: Seq<char>, d: i64, i: int)
    requires
        0 <= i < lines.len(),
        is_name_line(lines[i]),
        forall|j: int| 0 <= j < lines.len() && j != i ==> !is_name_line(#[trigger] lines[j]),
        parse_header(lines, t, d) is Ok,
    ensures
        (parse_header(lines, t, d)->Ok_0).0 == line_value(lines[i]),
    decreases lines.len(),
{
    let line = lines[0];
    let c = find_from(line, 0, ':');
    let rest = lines.drop_first();
    assert(forall|j: int| 0 <= j < rest.len() ==> rest[j] == lines[j + 1]);
    crate::text::lemma_find_from(line, 0, ':');
    if i == 0 {
        assert(parse_header(lines, t, d) == parse_header(rest, line_value(line), d));
        lemma_header_title_preserved(rest, line_value(line), d);
    } else {
        assert(!is_name_line(line));
        if c == line.len() {
            assert(false);
        } else {
            let val = trim_spec(line.skip(c + 1));
            if line.take(c) == "name"@ {
                assert(false);
            } else if line.take(c) == "date"@ {
                match utc_datetime_of(val, note_date_format()) {
                    Some(t2) => {
                        assert(parse_header(lines, t, d) == parse_header(rest, t, t2));
                        lemma_header_title(rest, t, t2, i - 1);
                    },
                    None => {
                        assert(false);
                    },
                }
            } else {
                assert(false);
            }
        }
    }
}

/// For a document whose header carries exactly one `name` line, a
/// successful parse's title is the trimmed value of that line.
pub proof fn lemma_parse_title(s: Seq<char>, i: int)
    requires
        0 <= i < header_lines_of(s).len(),
        is_name_line(header_lines_of(s)[i]),
        forall|j: int|
            0 <= j < header_lines_of(s).len() && j != i ==> !is_name_line(
                #[trigger] header_lines_of(s)[j],
            ),
        parse_spec(s) is Ok,
    ensures
        (parse_spec(s)->Ok_0).title == line_value(header_lines_of(s)[i]),
{
    crate::text::lemma_find_sep_from(s, 0);
    lemma_header_title(header_lines_of(s), Seq::empty(), 0, i);
}

proof fn lemma_header_malformed(lines: Seq<Seq<char>>, t: Seq<char>, d: i64, i: int)
    requires
        0 <= i < lines.len(),
        !line_has_colon(lines[i]),
        forall|j: int|
            0 <= j < i ==> is_name_line(#[trigger] lines[j]) || is_good_date_line(lines[j]),
    ensures
        parse_header(lines, t, d) == Err::<(Seq<char>, i64), ParseErrorView>(
            ParseErrorView::MalformedHeaderLine(lines[i]),
        ),
    decreases i,
{
    crate::text::lemma_find_from(lines[i], 0, ':');
    if i > 0 {
        let line = lines[0];
        let c = find_from(line, 0, ':');
        let rest = lines.drop_first();
        assert(forall|j: int| 0 <= j < rest.len() ==> rest[j] == lines[j + 1]);
        assert(is_name_line(line) || is_good_date_line(line));
        let val = trim_spec(line.skip(c + 1));
        if line.take(c) == "name"@ {
            lemma_header_malformed(rest, val, d, i - 1);
        } else {
            let t2 = utc_datetime_of(val, note_date_format())->Some_0;
            lemma_header_malformed(rest, t, t2, i - 1);
        }
    }
}

/// The first offending header line decides the error: where every line
/// before line `i` is a well-formed `name` or `date` line and line `i`
/// has no colon, the parse fails with `MalformedHeaderLine` carrying that
/// line.
pub proof fn lemma_parse_malformed_line(s: Seq<char>, i: int)
    requires
        has_separator(s),
        0 <= i < header_lines_of(s).len(),
        !line_has_colon(header_lines_of(s)[i]),
        forall|j: int|
            0 <= j < i ==> is_name_line(#[trigger] header_lines_of(s)[j]) || is_good_date_line(
                header_lines_of(s)[j],
            ),
    ensures
        parse_spec(s) == Err::<NoteView, ParseErrorView>(
            ParseErrorView::MalformedHeaderLine(header_lines_of(s)[i]),
        ),
{
    crate::text::lemma_find_sep_from(s, 0);
    lemma_header_malformed(header_lines_of(s), Seq::empty(), 0, i);
}

/// Parse one raw document into a note.
#[verifier::loop_isolation(false)]
pub fn parse_note(raw: &str) -> (r: Result<Note, ParseError>)
    ensures
        parse_result_view(r) == parse_spec(raw@),
{
    let n = raw.unicode_len();
    // Find the first blank-line separator.
    let mut i: usize = 0;
    while i + 1 < n && !(raw.get_char(i) == '\n' && raw.get_char(i + 1) == '\n')
        invariant
            n == raw@.len(),
            0 <= i <= n,
            n > 0 ==> i < n,
            find_sep_from(raw@, 0) == find_sep_from(raw@, i as int),
        decreases n - i,
    {
        proof {
            assert(find_sep_from(raw@, i as int) == find_sep_from(raw@, i as int + 1));
        }
        i += 1;
    }
    if i + 1 >= n {
        proof {
            assert(find_sep_from(raw@, i as int) == n as int);
        }
        return Err(ParseError::MissingSeparator);
    }
    let sep = i;
    assert(find_sep_from(raw@, 0) == sep as int);
    let header = raw.substring_char(0, sep);
    let body = raw.substring_char(sep, n);
    let content = render_markup(body);
    proof {
        assert(header@ =~= raw@.take(sep as int));
        assert(body@ =~= raw@.skip(sep as int));
    }

    let hlen = sep;
    assert(hlen == header@.len());
    let mut title: String = String::new();
    let mut date: i64 = 0;
    let mut pos: usize = 0;
    proof {
        assert(header@.skip(0) =~= header@);
    }
    let mut done = false;
    while !done
        invariant
            pos <= hlen,
            hlen == header@.len(),
            !done ==> parse_header(split_lines(header@), Seq::empty(), 0) == parse_header(
                split_lines(header@.skip(pos as int)),
                title@,
                date,
            ),
            done ==> parse_header(split_lines(header@), Seq::empty(), 0) == Ok::<
                (Seq<char>, i64),
                ParseErrorView,
            >((title@, date)),
        decreases hlen - pos, (if done { 0int } else { 1int }),
    {
        // Find the end of the current line.
        let mut j: usize = pos;
        while j < hlen && header.get_char(j) != '\n'
            invariant
                pos <= j <= hlen,
                hlen == header@.len(),
                forall|k: int| pos <= k < j ==> header@[k] != '\n',
            decreases hlen - j,
        {
            j += 1;
        }
        let line = header.substring_char(pos, j);
        proof {
            lemma_split_lines_step(header@, pos as int, j as int);
        }
        let ghost lines = split_lines(header@.skip(pos as int));
        let ghost rest = lines.drop_first();
        let ghost title0 = title@;
        let ghost date0 = date;
        proof {
            if j < hlen {
                assert(split_lines(header@.skip(pos as int))
                    == seq![line@] + split_lines(header@.skip(j as int + 1)));
                assert(split_lines(header@.skip(pos as int))[0] == line@);
                assert(rest =~= split_lines(header@.skip(j as int + 1)));
            } else {
                assert(line@ =~= header@.skip(pos as int));
                assert(split_lines(header@.skip(pos as int)) == seq![line@]);
                assert(split_lines(header@.skip(pos as int))[0] == line@);
                assert(rest =~= Seq::<Seq<char>>::empty());
            }
        }

        // Find the first colon of the line.
        let llen = j - pos;
        assert(llen == line@.len());
        let mut c: usize = 0;
        while c < llen && line.get_char(c) != ':'
            invariant
                0 <= c <= llen,
                llen == line@.len(),
                forall|k: int| 0 <= k < c ==> line@[k] != ':',
            decreases llen - c,
        {
            c += 1;
        }
        proof {
            lemma_find_from_unique(line@, 0, ':', c as int);
            assert(lines[0] == line@);
        }
        if c == llen {
            proof {
                assert(parse_header(lines, title0, date0) == Err::<(Seq<char>, i64),
                    ParseErrorView>(ParseErrorView::MalformedHeaderLine(line@)));
                assert(parse_header(split_lines(header@), Seq::empty(), 0) == Err::<
                    (Seq<char>, i64),
                    ParseErrorView,
                >(ParseErrorView::MalformedHeaderLine(line@)));
                assert(header@ == raw@.take(sep as int));
                assert(find_sep_from(raw@, 0) == sep as int && (sep as int) < raw@.len());
                assert(parse_spec(raw@) == Err::<NoteView, ParseErrorView>(
                    ParseErrorView::MalformedHeaderLine(line@),
                ));
            }
            return Err(ParseError::MalformedHeaderLine(line.to_owned()));
        }
        let key = line.substring_char(0, c);
        let val = trim(line.substring_char(c + 1, llen));
        proof {
            assert(key@ =~= line@.take(c as int));
            assert(line@.subrange(c as int + 1, llen as int) =~= line@.skip(c as int + 1));
            assert(val@ == trim_spec(line@.skip(c as int + 1)));
        }
        if str_eq(key, "name") {
            title = val;
            proof {
                assert(parse_header(lines, title0, date0) == parse_header(rest, title@, date));
            }
        } else if str_eq(key, "date") {
            match parse_datetime_utc(val.as_str(), "%F %R") {
                Some(t) => {
                    date = t;
                    proof {
                        assert(utc_datetime_of(val@, note_date_format()) == Some(date));
                        assert(parse_header(lines, title0, date0) == parse_header(
                            rest,
                            title@,
                            date,
                        ));
                    }
                },
                None => {
                    proof {
                        assert(parse_header(lines, title0, date0) == Err::<(Seq<char>, i64),
                            ParseErrorView>(ParseErrorView::InvalidDate(val@)));
                    }
                    return Err(ParseError::InvalidDate(val));
                },
            }
        } else {
            proof {
                assert(parse_header(lines, title0, date0) == Err::<(Seq<char>, i64),
                    ParseErrorView>(ParseErrorView::UnknownHeaderKey(key@)));
            }
            return Err(ParseError::UnknownHeaderKey(key.to_owned()));
        }
        if j == hlen {
            proof {
                assert(parse_header(rest, title@, date) == Ok::<(Seq<char>, i64), ParseErrorView>(
                    (title@, date),
                ));
            }
            done = true;
        } else {
            pos = j + 1;
        }
    }
    let r = Ok(Note { title, date, content });
    proof {
        assert(parse_header(split_lines(raw@.take(sep as int)), Seq::empty(), 0)
            == Ok::<_, ParseErrorView>((title@, date)));
        assert(parse_spec(raw@) == Ok::<NoteView, ParseErrorView>(
            NoteView { title: title@, date, content: rendered_html_of(raw@.skip(sep as int)) },
        ));
    }
    r
}

} // verus!
