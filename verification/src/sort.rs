//! Sorting of notes by publication time, newest first, with a stable
//! insertion sort: notes with equal dates keep their original order.

use vstd::prelude::*;

use crate::note::{Note, NoteView};

verus! {

/// The mathematical values of a sequence of notes.
pub open spec fn views_of(s: Seq<Note>) -> Seq<NoteView> {
    s.map_values(|n: Note| n@)
}

/// Insert `x` into a descending-sorted sequence, after every entry whose
/// date is at least `x`'s, so that entries with equal dates keep their
/// original order.
pub open spec fn insert_desc(x: NoteView, s: Seq<NoteView>) -> Seq<NoteView>
    decreases s.len(),
{
    if s.len() == 0 {
        seq![x]
    } else if s[0].date >= x.date {
        seq![s[0]] + insert_desc(x, s.drop_first())
    } else {
        seq![x] + s
    }
}

/// Stable insertion sort by date, newest first.
pub open spec fn sort_by_date_desc(s: Seq<NoteView>) -> Seq<NoteView>
    decreases s.len(),
{
    if s.len() == 0 {
        Seq::empty()
    } else {
        insert_desc(s.last(), sort_by_date_desc(s.drop_last()))
    }
}

/// Dates are non-increasing along the sequence.
pub open spec fn sorted_desc(s: Seq<NoteView>) -> bool {
    forall|i: int, j: int| 0 <= i < j < s.len() ==> s[i].date >= s[j].date
}

/// The subsequence of entries carrying one date, in order; the vehicle for
/// stating stability.
pub open spec fn with_date(s: Seq<NoteView>, d: i64) -> Seq<NoteView>
    decreases s.len(),
{
    if s.len() == 0 {
        s
    } else if s[0].date == d {
        seq![s[0]] + with_date(s.drop_first(), d)
    } else {
        with_date(s.drop_first(), d)
    }
}

proof fn lemma_insert_desc_bound(x: NoteView, s: Seq<NoteView>, d: i64)
    requires
        x.date <= d,
        forall|k: int| 0 <= k < s.len() ==> s[k].date <= d,
    ensures
        insert_desc(x, s).len() == s.len() + 1,
        forall|k: int| 0 <= k < insert_desc(x, s).len() ==> insert_desc(x, s)[k].date <= d,
    decreases s.len(),
{
    if s.len() == 0 {
    } else if s[0].date >= x.date {
        let t = s.drop_first();
        assert(forall|k: int| 0 <= k < t.len() ==> t[k].date <= d);
        lemma_insert_desc_bound(x, t, d);
        assert forall|k: int| 0 <= k < insert_desc(x, s).len() implies insert_desc(x, s)[k].date
            <= d by {
            if k > 0 {
                assert(insert_desc(x, s)[k] == insert_desc(x, t)[k - 1]);
            }
        }
    } else {
    }
}

pub proof fn lemma_insert_desc_sorted(x: NoteView, s: Seq<NoteView>)
    requires
        sorted_desc(s),
    ensures
        insert_desc(x, s).len() == s.len() + 1,
        sorted_desc(insert_desc(x, s)),
    decreases s.len(),
{
    if s.len() == 0 {
    } else if s[0].date >= x.date {
        let t = s.drop_first();
        assert(sorted_desc(t)) by {
            assert(forall|i: int, j: int| 0 <= i < j < t.len() ==> t[i] == s[i + 1] && t[j] == s[j
                + 1]);
        }
        lemma_insert_desc_sorted(x, t);
        assert(forall|k: int| 0 <= k < t.len() ==> t[k].date <= s[0].date);
        lemma_insert_desc_bound(x, t, s[0].date);
        let r = insert_desc(x, s);
        assert forall|i: int, j: int| 0 <= i < j < r.len() implies r[i].date >= r[j].date by {
            assert(r[j] == insert_desc(x, t)[j - 1]);
            if i > 0 {
                assert(r[i] == insert_desc(x, t)[i - 1]);
            }
        }
    } else {
        let r = insert_desc(x, s);
        assert forall|i: int, j: int| 0 <= i < j < r.len() implies r[i].date >= r[j].date by {
            assert(r[j] == s[j - 1]);
            if i > 0 {
                assert(r[i] == s[i - 1]);
            }
            if 0 < j - 1 {
                assert(s[0].date >= s[j - 1].date);
            }
        }
    }
}

/// The sort leaves the dates non-increasing.
pub proof fn lemma_sort_sorted(s: Seq<NoteView>)
    ensures
        sort_by_date_desc(s).len() == s.len(),
        sorted_desc(sort_by_date_desc(s)),
    decreases s.len(),
{
    if s.len() > 0 {
        lemma_sort_sorted(s.drop_last());
        lemma_insert_desc_sorted(s.last(), sort_by_date_desc(s.drop_last()));
    }
}

proof fn lemma_with_date_head(a: NoteView, t: Seq<NoteView>, d: i64)
    ensures
        with_date(seq![a] + t, d) == if a.date == d {
            seq![a] + with_date(t, d)
        } else {
            with_date(t, d)
        },
{
    let s = seq![a] + t;
    assert(s.len() > 0 && s[0] == a);
    assert(s.drop_first() =~= t);
}

proof fn lemma_with_date_all_below(s: Seq<NoteView>, d: i64)
    requires
        forall|k: int| 0 <= k < s.len() ==> s[k].date != d,
    ensures
        with_date(s, d) == Seq::<NoteView>::empty(),
    decreases s.len(),
{
    if s.len() > 0 {
        let t = s.drop_first();
        assert(forall|k: int| 0 <= k < t.len() ==> t[k] == s[k + 1]);
        lemma_with_date_all_below(t, d);
    } else {
        assert(s =~= Seq::<NoteView>::empty());
    }
}

proof fn lemma_insert_desc_stable(x: NoteView, s: Seq<NoteView>, d: i64)
    requires
        sorted_desc(s),
    ensures
        with_date(insert_desc(x, s), d) == if x.date == d {
            with_date(s, d).push(x)
        } else {
            with_date(s, d)
        },
    decreases s.len(),
{
    if s.len() == 0 {
        assert(insert_desc(x, s) =~= seq![x] + Seq::<NoteView>::empty());
        lemma_with_date_head(x, Seq::empty(), d);
        if x.date == d {
            assert(seq![x] + with_date(Seq::empty(), d) =~= with_date(s, d).push(x));
        }
    } else if s[0].date >= x.date {
        let t = s.drop_first();
        assert(sorted_desc(t)) by {
            assert(forall|i: int, j: int| 0 <= i < j < t.len() ==> t[i] == s[i + 1] && t[j] == s[j
                + 1]);
        }
        lemma_insert_desc_stable(x, t, d);
        lemma_with_date_head(s[0], insert_desc(x, t), d);
        lemma_with_date_head(s[0], t, d);
        assert(s =~= seq![s[0]] + t);
        if x.date == d {
            if s[0].date == d {
                assert(seq![s[0]] + with_date(t, d).push(x) =~= (seq![s[0]] + with_date(
                    t,
                    d,
                )).push(x));
            }
        }
    } else {
        // x goes in front; everything in s is strictly older than x.
        assert(forall|k: int| 0 <= k < s.len() ==> (#[trigger] s[k]).date <= s[0].date);
        lemma_with_date_head(x, s, d);
        if x.date == d {
            lemma_with_date_all_below(s, d);
            assert(seq![x] + Seq::<NoteView>::empty() =~= Seq::<NoteView>::empty().push(x));
        }
    }
}

proof fn lemma_with_date_push(s: Seq<NoteView>, x: NoteView, d: i64)
    ensures
        with_date(s.push(x), d) == if x.date == d {
            with_date(s, d).push(x)
        } else {
            with_date(s, d)
        },
    decreases s.len(),
{
    if s.len() == 0 {
        assert(s.push(x) =~= seq![x] + Seq::<NoteView>::empty());
        lemma_with_date_head(x, Seq::empty(), d);
        if x.date == d {
            assert(seq![x] + with_date(Seq::empty(), d) =~= with_date(s, d).push(x));
        }
    } else {
        let t = s.drop_first();
        assert(s.push(x) =~= seq![s[0]] + t.push(x));
        assert(s =~= seq![s[0]] + t);
        lemma_with_date_push(t, x, d);
        lemma_with_date_head(s[0], t.push(x), d);
        lemma_with_date_head(s[0], t, d);
        if x.date == d && s[0].date == d {
            assert(seq![s[0]] + with_date(t, d).push(x) =~= (seq![s[0]] + with_date(t, d)).push(
                x,
            ));
        }
    }
}

/// Stability: for every date, the sort keeps the entries carrying that
/// date in their original order.
pub proof fn lemma_sort_stable(s: Seq<NoteView>, d: i64)
    ensures
        with_date(sort_by_date_desc(s), d) == with_date(s, d),
    decreases s.len(),
{
    if s.len() > 0 {
        let dl = s.drop_last();
        lemma_sort_stable(dl, d);
        lemma_sort_sorted(dl);
        lemma_insert_desc_stable(s.last(), sort_by_date_desc(dl), d);
        assert(s =~= dl.push(s.last()));
        lemma_with_date_push(dl, s.last(), d);
    }
}

proof fn lemma_views_insert(s: Seq<Note>, p: int, x: Note)
    requires
        0 <= p <= s.len(),
    ensures
        views_of(s.insert(p, x)) =~= views_of(s).insert(p, x@),
{
    s.insert_ensures(p, x);
    views_of(s).insert_ensures(p, x@);
}

proof fn lemma_insert_desc_at(x: NoteView, s: Seq<NoteView>, p: int)
    requires
        0 <= p <= s.len(),
        forall|j: int| 0 <= j < p ==> s[j].date >= x.date,
        p < s.len() ==> s[p].date < x.date,
    ensures
        insert_desc(x, s) == s.insert(p, x),
    decreases p,
{
    if p == 0 {
        if s.len() == 0 {
            assert(insert_desc(x, s) =~= s.insert(0, x));
        } else {
            assert(insert_desc(x, s) =~= s.insert(0, x));
        }
    } else {
        let t = s.drop_first();
        assert(forall|j: int| 0 <= j < p - 1 ==> t[j] == s[j + 1]);
        assert(p - 1 < t.len() ==> t[p - 1] == s[p]);
        lemma_insert_desc_at(x, t, p - 1);
        assert(seq![s[0]] + t.insert(p - 1, x) =~= s.insert(p, x));
    }
}

/// Sort the notes by date, newest first; notes with equal dates keep
/// their original order (the sort realises `sort_by_date_desc`).
#[verifier::loop_isolation(false)]
pub fn sort_notes_by_date(notes: &mut Vec<Note>)
    ensures
        views_of(final(notes)@) == sort_by_date_desc(views_of(old(notes)@)),
{
    let ghost orig = old(notes)@;
    let mut out: Vec<Note> = Vec::new();
    proof {
        assert(orig.take(0) =~= Seq::<Note>::empty());
        assert(views_of(Seq::<Note>::empty()) =~= Seq::<NoteView>::empty());
        assert(orig.skip(0) =~= orig);
    }
    while notes.len() > 0
        invariant
            notes@.len() <= orig.len(),
            notes@ == orig.skip(orig.len() - notes@.len()),
            views_of(out@) == sort_by_date_desc(views_of(orig.take(orig.len() - notes@.len()))),
        decreases notes@.len(),
    {
        let ghost k = orig.len() - notes@.len();
        let x = notes.remove(0);
        proof {
            assert(x == orig[k]);
            assert(orig.skip(k).remove(0) =~= orig.skip(k + 1));
        }
        // Find the first position whose date is strictly older than x's.
        let mut p: usize = 0;
        while p < out.len() && out[p].date >= x.date
            invariant
                0 <= p <= out@.len(),
                forall|j: int| 0 <= j < p ==> out@[j].date >= x.date,
            decreases out@.len() - p,
        {
            p += 1;
        }
        proof {
            assert forall|j: int| 0 <= j < p implies views_of(out@)[j].date >= x@.date by {
                assert(views_of(out@)[j] == out@[j]@);
            }
            if (p as int) < out@.len() {
                assert(views_of(out@)[p as int] == out@[p as int]@);
            }
            lemma_insert_desc_at(x@, views_of(out@), p as int);
            lemma_views_insert(out@, p as int, x);
            let prev = views_of(orig.take(k));
            let now = views_of(orig.take(k + 1));
            assert(now.drop_last() =~= prev);
            assert(now.last() == orig[k]@);
        }
        out.insert(p, x);
    }
    proof {
        assert(orig.take(orig.len() as int) =~= orig);
    }
    *notes = out;
}

} // verus!
