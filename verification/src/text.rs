//! Character-level text utilities shared by the document parser:
//! whitespace trimming, character search, line splitting, and separator
//! search, each with a spec-level definition and a verified executable
//! counterpart.

use vstd::prelude::*;

verus! {

/// The Unicode `White_Space` code points, the set that `str::trim` removes.
pub open spec fn is_space_char(c: char) -> bool {
    c == ' ' || c == '\t' || c == '\n' || c == '\u{0B}' || c == '\u{0C}' || c == '\r'
        || c == '\u{85}' || c == '\u{A0}' || c == '\u{1680}'
        || ('\u{2000}' <= c && c <= '\u{200A}')
        || c == '\u{2028}' || c == '\u{2029}' || c == '\u{202F}' || c == '\u{205F}'
        || c == '\u{3000}'
}

/// Executable whitespace test matching `is_space_char`.
pub fn is_space(c: char) -> (r: bool)
    ensures
        r == is_space_char(c),
{
    c == ' ' || c == '\t' || c == '\n' || c == '\u{0B}' || c == '\u{0C}' || c == '\r'
        || c == '\u{85}' || c == '\u{A0}' || c == '\u{1680}'
        || ('\u{2000}' <= c && c <= '\u{200A}')
        || c == '\u{2028}' || c == '\u{2029}' || c == '\u{202F}' || c == '\u{205F}'
        || c == '\u{3000}'
}

/// Index of the first occurrence of `c` at or after `i`; `s.len()` if none.
pub open spec fn find_from(s: Seq<char>, i: int, c: char) -> int
    decreases s.len() - i when 0 <= i
{
    if i >= s.len() {
        s.len() as int
    } else if s[i] == c {
        i
    } else {
        find_from(s, i + 1, c)
    }
}

pub proof fn lemma_find_from(s: Seq<char>, i: int, c: char)
    requires
        0 <= i <= s.len(),
    ensures
        i <= find_from(s, i, c) <= s.len(),
        find_from(s, i, c) < s.len() ==> s[find_from(s, i, c)] == c,
        forall|j: int| i <= j < find_from(s, i, c) ==> s[j] != c,
    decreases s.len() - i,
{
    if i < s.len() && s[i] != c {
        lemma_find_from(s, i + 1, c);
    }
}

/// Any index with the "first occurrence" properties is `find_from`.
pub proof fn lemma_find_from_unique(s: Seq<char>, i: int, c: char, j: int)
    requires
        0 <= i <= j <= s.len(),
        forall|k: int| i <= k < j ==> s[k] != c,
        j < s.len() ==> s[j] == c,
    ensures
        find_from(s, i, c) == j,
    decreases j - i,
{
    if i < j {
        lemma_find_from_unique(s, i + 1, c, j);
    }
}

/// Index of the first blank-line separator (two consecutive newlines) at or
/// after `i`; `s.len()` if none.
pub open spec fn find_sep_from(s: Seq<char>, i: int) -> int
    decreases s.len() - i when 0 <= i
{
    if i + 1 >= s.len() {
        s.len() as int
    } else if s[i] == '\n' && s[i + 1] == '\n' {
        i
    } else {
        find_sep_from(s, i + 1)
    }
}

pub open spec fn has_separator(s: Seq<char>) -> bool {
    find_sep_from(s, 0) < s.len()
}

pub proof fn lemma_find_sep_from(s: Seq<char>, i: int)
    requires
        0 <= i <= s.len(),
    ensures
        i <= find_sep_from(s, i) <= s.len(),
        find_sep_from(s, i) < s.len() ==> find_sep_from(s, i) + 1 < s.len()
            && s[find_sep_from(s, i)] == '\n' && s[find_sep_from(s, i) + 1] == '\n',
        forall|j: int| i <= j < find_sep_from(s, i) && j + 1 < s.len()
            ==> !(#[trigger] s[j] == '\n' && s[j + 1] == '\n'),
    decreases s.len() - i,
{
    if i + 1 < s.len() && !(s[i] == '\n' && s[i + 1] == '\n') {
        lemma_find_sep_from(s, i + 1);
    }
}

/// The separator search finds exactly the documents that contain two
/// consecutive newline characters.
pub proof fn lemma_has_separator_exists(s: Seq<char>)
    ensures
        has_separator(s) <==> exists|i: int|
            0 <= i && i + 1 < s.len() && #[trigger] s[i] == '\n' && s[i + 1] == '\n',
{
    lemma_find_sep_from(s, 0);
    if has_separator(s) {
        let w = find_sep_from(s, 0);
        assert(0 <= w && w + 1 < s.len() && s[w] == '\n' && s[w + 1] == '\n');
    }
}

/// The header split into lines at each newline, as `str::split` does:
/// an empty input gives one empty line.
pub open spec fn split_lines(s: Seq<char>) -> Seq<Seq<char>>
    decreases s.len()
{
    let i = find_from(s, 0, '\n');
    if 0 <= i < s.len() {
        seq![s.take(i)] + split_lines(s.skip(i + 1))
    } else {
        seq![s]
    }
}

/// Unfolding `split_lines` on a suffix, given the position of the next
/// newline in the enclosing sequence.
pub proof fn lemma_split_lines_step(s: Seq<char>, p: int, j: int)
    requires
        0 <= p <= j <= s.len(),
        forall|k: int| p <= k < j ==> s[k] != '\n',
        j < s.len() ==> s[j] == '\n',
    ensures
        j == s.len() ==> split_lines(s.skip(p)) == seq![s.skip(p)],
        j < s.len() ==> split_lines(s.skip(p)) == seq![s.subrange(p, j)] + split_lines(
            s.skip(j + 1),
        ),
{
    let t = s.skip(p);
    assert forall|k: int| 0 <= k < j - p implies t[k] != '\n' by {
        assert(t[k] == s[k + p]);
    }
    if j < s.len() {
        assert(t[j - p] == s[j]);
        lemma_find_from_unique(t, 0, '\n', j - p);
        assert(t.take(j - p) =~= s.subrange(p, j));
        assert(t.skip(j - p + 1) =~= s.skip(j + 1));
    } else {
        lemma_find_from_unique(t, 0, '\n', t.len() as int);
    }
}

/// The input with leading whitespace removed.
pub open spec fn trim_start_rec(s: Seq<char>) -> Seq<char>
    decreases s.len()
{
    if s.len() > 0 && is_space_char(s[0]) {
        trim_start_rec(s.drop_first())
    } else {
        s
    }
}

/// The input with trailing whitespace removed.
pub open spec fn trim_end_rec(s: Seq<char>) -> Seq<char>
    decreases s.len()
{
    if s.len() > 0 && is_space_char(s[s.len() - 1]) {
        trim_end_rec(s.drop_last())
    } else {
        s
    }
}

/// The input with surrounding whitespace removed, as `str::trim` returns it.
pub open spec fn trim_spec(s: Seq<char>) -> Seq<char> {
    trim_end_rec(trim_start_rec(s))
}

proof fn lemma_trim_start_skip(s: Seq<char>, lo: int)
    requires
        0 <= lo <= s.len(),
        forall|j: int| 0 <= j < lo ==> is_space_char(s[j]),
        lo < s.len() ==> !is_space_char(s[lo]),
    ensures
        trim_start_rec(s) == s.skip(lo),
    decreases lo,
{
    if lo == 0 {
        assert(s.skip(0) =~= s);
    } else {
        let t = s.drop_first();
        assert forall|j: int| 0 <= j < lo - 1 implies is_space_char(t[j]) by {
            assert(t[j] == s[j + 1]);
        }
        assert(lo - 1 < t.len() ==> !is_space_char(t[lo - 1]));
        lemma_trim_start_skip(t, lo - 1);
        assert(t.skip(lo - 1) =~= s.skip(lo));
    }
}

proof fn lemma_trim_end_take(s: Seq<char>, hi: int)
    requires
        0 <= hi <= s.len(),
        forall|j: int| hi <= j < s.len() ==> is_space_char(s[j]),
        hi > 0 ==> !is_space_char(s[hi - 1]),
    ensures
        trim_end_rec(s) == s.take(hi),
    decreases s.len() - hi,
{
    if hi == s.len() {
        assert(s.take(hi) =~= s);
    } else {
        let t = s.drop_last();
        assert forall|j: int| hi <= j < t.len() implies is_space_char(t[j]) by {
            assert(t[j] == s[j]);
        }
        lemma_trim_end_take(t, hi);
        assert(t.take(hi) =~= s.take(hi));
    }
}

/// `trim_spec` written with explicit cut points: the characters strictly
/// between the first and one past the last non-whitespace character.
pub proof fn lemma_trim_subrange(s: Seq<char>, lo: int, hi: int)
    requires
        0 <= lo <= hi <= s.len(),
        forall|j: int| 0 <= j < lo ==> is_space_char(s[j]),
        forall|j: int| hi <= j < s.len() ==> is_space_char(s[j]),
        lo < s.len() ==> !is_space_char(s[lo]),
        hi > 0 && lo < hi ==> !is_space_char(s[hi - 1]),
    ensures
        trim_spec(s) == s.subrange(lo, hi),
{
    lemma_trim_start_skip(s, lo);
    let t = s.skip(lo);
    assert forall|j: int| hi - lo <= j < t.len() implies is_space_char(t[j]) by {
        assert(t[j] == s[j + lo]);
    }
    if hi - lo > 0 {
        assert(t[hi - lo - 1] == s[hi - 1]);
    }
    lemma_trim_end_take(t, hi - lo);
    assert(t.take(hi - lo) =~= s.subrange(lo, hi));
}

/// Executable equality of two string slices at the character level.
pub fn str_eq(a: &str, b: &str) -> (r: bool)
    ensures
        r == (a@ == b@),
{
    let na = a.unicode_len();
    let nb = b.unicode_len();
    if na != nb {
        assert(a@ != b@);
        return false;
    }
    let mut k: usize = 0;
    while k < na
        invariant
            0 <= k <= na,
            na == a@.len() && na == b@.len(),
            forall|j: int| 0 <= j < k ==> a@[j] == b@[j],
        decreases na - k,
    {
        if a.get_char(k) != b.get_char(k) {
            assert(a@ != b@);
            return false;
        }
        k += 1;
    }
    assert(a@ =~= b@);
    true
}

/// The input without surrounding whitespace, as `str::trim` returns it.
pub fn trim(s: &str) -> (r: String)
    ensures
        r@ == trim_spec(s@),
{
    let n = s.unicode_len();
    let mut lo: usize = 0;
    while lo < n && is_space(s.get_char(lo))
        invariant
            0 <= lo <= n,
            n == s@.len(),
            forall|j: int| 0 <= j < lo ==> is_space_char(s@[j]),
        decreases n - lo,
    {
        lo += 1;
    }
    if lo == n {
        proof {
            lemma_trim_subrange(s@, n as int, n as int);
            assert(s@.subrange(n as int, n as int) =~= Seq::<char>::empty());
        }
        let r = String::new();
        assert(r@ =~= trim_spec(s@));
        return r;
    }
    let mut hi: usize = n;
    while hi > lo && is_space(s.get_char(hi - 1))
        invariant
            lo <= hi <= n,
            n == s@.len(),
            forall|j: int| hi <= j < n ==> is_space_char(s@[j]),
        decreases hi,
    {
        hi -= 1;
    }
    proof {
        lemma_trim_subrange(s@, lo as int, hi as int);
    }
    s.substring_char(lo, hi).to_owned()
}

} // verus!
