//! The execution engine's text work: finding the first placeholder token
//! `<[name]>` in a command text and splicing an answer over it.
//!
//! The engine itself runs outside this crate: it prompts for one answer per
//! placeholder and finally hands the text to a shell.  Everything it decides
//! about the text is decided here, one verified step per placeholder.

use crate::text::is_space;
use crate::text::is_space_char;
use vstd::prelude::*;

verus! {

/// Index of the first position at or after `from` where `a` is immediately
/// followed by `b`, or `t.len()` if there is none.
pub open spec fn marker_index(t: Seq<char>, a: char, b: char, from: int) -> int
    recommends
        0 <= from <= t.len(),
    decreases t.len() - from,
{
    if from < 0 || from + 2 > t.len() {
        t.len() as int
    } else if t[from] == a && t[from + 1] == b {
        from
    } else {
        marker_index(t, a, b, from + 1)
    }
}

/// `marker_index` names the first marker position at or after `from`: it is
/// below `t.len()` exactly when a marker occurs, it is a marker when below,
/// and no position between `from` and it holds one.
pub proof fn lemma_marker_index(t: Seq<char>, a: char, b: char, from: int)
    requires
        0 <= from <= t.len(),
    ensures
        from <= marker_index(t, a, b, from) <= t.len(),
        marker_index(t, a, b, from) + 2 <= t.len() || marker_index(t, a, b, from) == t.len(),
        marker_index(t, a, b, from) < t.len() ==> t[marker_index(t, a, b, from)] == a
            && t[marker_index(t, a, b, from) + 1] == b,
        forall|k: int|
            from <= k < marker_index(t, a, b, from) && k + 2 <= t.len() ==> !((#[trigger] t[k])
                == a && t[k + 1] == b),
    decreases t.len() - from,
{
    if from + 2 > t.len() {
    } else if t[from] == a && t[from + 1] == b {
    } else {
        lemma_marker_index(t, a, b, from + 1);
    }
}

/// A marker position with no marker between `from` and it is where
/// `marker_index` points.
pub proof fn lemma_marker_index_is(t: Seq<char>, a: char, b: char, from: int, i: int)
    requires
        0 <= from <= i,
        i + 2 <= t.len(),
        t[i] == a && t[i + 1] == b,
        forall|k: int| from <= k < i ==> !((#[trigger] t[k]) == a && t[k + 1] == b),
    ensures
        marker_index(t, a, b, from) == i,
{
    lemma_marker_index(t, a, b, from);
}

/// When no marker occurs at or after `from`, `marker_index` is the length.
pub proof fn lemma_marker_index_absent(t: Seq<char>, a: char, b: char, from: int)
    requires
        0 <= from <= t.len(),
        forall|k: int| from <= k && k + 2 <= t.len() ==> !((#[trigger] t[k]) == a && t[k + 1] == b),
    ensures
        marker_index(t, a, b, from) == t.len(),
{
    lemma_marker_index(t, a, b, from);
}

/// Position of the first opening marker `<[`.
pub open spec fn open_pos(t: Seq<char>) -> int {
    marker_index(t, '<', '[', 0)
}

/// Position of the first closing marker `]>` at or after the first opening
/// marker.
pub open spec fn close_pos(t: Seq<char>) -> int {
    marker_index(t, ']', '>', open_pos(t))
}

/// Whether an opening marker occurs at all.
pub open spec fn has_open(t: Seq<char>) -> bool {
    open_pos(t) < t.len()
}

/// Whether the first opening marker is answered by a closing marker: the
/// text's first placeholder is then complete.
pub open spec fn has_hole(t: Seq<char>) -> bool {
    has_open(t) && close_pos(t) < t.len()
}

/// The name between the markers of the first placeholder.
pub open spec fn hole_name(t: Seq<char>) -> Seq<char>
    recommends
        has_hole(t),
{
    t.subrange(open_pos(t) + 2, close_pos(t))
}

/// Index just past the first placeholder's closing marker.
pub open spec fn hole_end(t: Seq<char>) -> int {
    close_pos(t) + 2
}

/// The text with `answer` spliced over the first placeholder, verbatim.
pub open spec fn spec_fill(t: Seq<char>, answer: Seq<char>) -> Seq<char>
    recommends
        has_hole(t),
{
    t.subrange(0, open_pos(t)) + answer + t.subrange(hole_end(t), t.len() as int)
}

/// What scanning a command text finds: no marker at all (ready to run), a
/// complete first placeholder, or an opening marker that is never closed
/// (the text must not run).
pub enum Scan {
    Ready,
    Hole { start: usize, end: usize, name: Vec<char> },
    Unmatched,
}

/// Finds the first marker pair `a``b` at or after `from`, as `marker_index`
/// names it.
fn find_marker(text: &Vec<char>, a: char, b: char, from: usize) -> (r: usize)
    requires
        from <= text@.len(),
    ensures
        r == marker_index(text@, a, b, from as int),
{
    proof {
        lemma_marker_index(text@, a, b, from as int);
    }
    let n = text.len();
    if n < 2 {
        proof {
            lemma_marker_index_absent(text@, a, b, from as int);
        }
        return n;
    }
    let stop = n - 1;
    let mut i: usize = from;
    while i < stop
        invariant
            from <= i,
            i <= stop || i == from,
            stop == n - 1,
            n == text@.len(),
            n >= 2,
            forall|k: int| from <= k < i ==> !((#[trigger] text@[k]) == a && text@[k + 1] == b),
        decreases stop - i,
    {
        if text[i] == a && text[i + 1] == b {
            proof {
                lemma_marker_index_is(text@, a, b, from as int, i as int);
            }
            return i;
        }
        i += 1;
    }
    proof {
        lemma_marker_index_absent(text@, a, b, from as int);
    }
    n
}

/// Scans `text` for its first placeholder, exactly as the specification
/// functions name it.
pub fn next_hole(text: &Vec<char>) -> (r: Scan)
    ensures
        (r is Ready) == !has_open(text@),
        (r is Unmatched) == (has_open(text@) && !has_hole(text@)),
        (r is Hole) == has_hole(text@),
        r matches Scan::Hole { start, end, name } ==> start == open_pos(text@) && end == hole_end(
            text@,
        ) && name@ == hole_name(text@),
    {
    let o = find_marker(text, '<', '[', 0);
    if o == text.len() {
        return Scan::Ready;
    }
    proof {
        lemma_marker_index(text@, '<', '[', 0);
    }
    let c = find_marker(text, ']', '>', o);
    if c == text.len() {
        return Scan::Unmatched;
    }
    proof {
        lemma_marker_index(text@, ']', '>', o as int);
    }
    let mut name: Vec<char> = Vec::new();
    let mut k: usize = o + 2;
    while k < c
        invariant
            o + 2 <= k <= c || k == o + 2,
            c < text@.len(),
            o + 2 <= c,
            name@ == text@.subrange(o + 2, k as int),
        decreases c - k,
    {
        name.push(text[k]);
        k += 1;
        proof {
            assert(name@ =~= text@.subrange(o + 2, k as int));
        }
    }
    proof {
        assert(name@ =~= hole_name(text@));
    }
    Scan::Hole { start: o, end: c + 2, name }
}

/// Splices `answer` over the first placeholder of `text`, raw and unescaped,
/// leaving the rest of the text untouched.  Nothing to splice over when the
/// text has no complete first placeholder.
pub fn fill_hole(text: &Vec<char>, answer: &Vec<char>) -> (r: Option<Vec<char>>)
    ensures
        (r is Some) == has_hole(text@),
        r matches Some(u) ==> u@ == spec_fill(text@, answer@),
{
    let o = find_marker(text, '<', '[', 0);
    if o == text.len() {
        return None;
    }
    proof {
        lemma_marker_index(text@, '<', '[', 0);
    }
    let c = find_marker(text, ']', '>', o);
    if c == text.len() {
        return None;
    }
    proof {
        lemma_marker_index(text@, ']', '>', o as int);
    }
    let n = text.len();
    let mut out: Vec<char> = Vec::new();
    let mut i: usize = 0;
    while i < o
        invariant
            i <= o,
            o < n,
            n == text@.len(),
            out@ == text@.subrange(0, i as int),
        decreases o - i,
    {
        out.push(text[i]);
        i += 1;
        proof {
            assert(out@ =~= text@.subrange(0, i as int));
        }
    }
    let mut j: usize = 0;
    while j < answer.len()
        invariant
            j <= answer@.len(),
            out@ == text@.subrange(0, o as int) + answer@.subrange(0, j as int),
            o < n,
            n == text@.len(),
        decreases answer@.len() - j,
    {
        out.push(answer[j]);
        j += 1;
        proof {
            assert(out@ =~= text@.subrange(0, o as int) + answer@.subrange(0, j as int));
        }
    }
    proof {
        assert(answer@.subrange(0, answer@.len() as int) =~= answer@);
    }
    let mut k: usize = c + 2;
    while k < n
        invariant
            c + 2 <= k <= n || k == c + 2,
            c + 2 <= n,
            n == text@.len(),
            out@ == text@.subrange(0, o as int) + answer@ + text@.subrange(c + 2, k as int),
        decreases n - k,
    {
        out.push(text[k]);
        k += 1;
        proof {
            assert(out@ =~= text@.subrange(0, o as int) + answer@ + text@.subrange(
                c + 2,
                k as int,
            ));
        }
    }
    proof {
        assert(out@ =~= spec_fill(text@, answer@));
    }
    Some(out)
}

/// Whether a command text is nothing but whitespace: such a text is refused
/// before any placeholder work.
pub fn is_blank(text: &Vec<char>) -> (r: bool)
    ensures
        r == (forall|i: int| 0 <= i < text@.len() ==> is_space_char(#[trigger] text@[i])),
{
    let mut i: usize = 0;
    while i < text.len()
        invariant
            i <= text@.len(),
            forall|j: int| 0 <= j < i ==> is_space_char(#[trigger] text@[j]),
        decreases text@.len() - i,
    {
        if !is_space(text[i]) {
            return false;
        }
        i += 1;
    }
    true
}

} // verus!
