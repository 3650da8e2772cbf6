//! Character-sequence helpers shared by the session and the execution
//! engine: conversions between `String` and `Vec<char>`, the whitespace
//! test, and splitting an input buffer at its first whitespace character.

use vstd::prelude::*;
use vstd::std_specs::iter::IteratorSpec;

verus! {

broadcast use vstd::string::group_string_axioms;

/// The whitespace characters the library recognizes.
pub open spec fn is_space_char(c: char) -> bool {
    c == ' ' || c == '\t' || c == '\n' || c == '\r'
}

/// Index of the first whitespace character, or `t.len()` if there is none.
pub open spec fn space_index(t: Seq<char>) -> int
    decreases t.len(),
{
    if t.len() == 0 {
        0
    } else if is_space_char(t[0]) {
        0
    } else {
        1 + space_index(t.drop_first())
    }
}

/// `space_index` names the first whitespace position: it is in bounds exactly
/// when whitespace occurs, it is whitespace when in bounds, and everything
/// before it is not.
pub proof fn lemma_space_index(t: Seq<char>)
    ensures
        0 <= space_index(t) <= t.len(),
        space_index(t) < t.len() ==> is_space_char(t[space_index(t)]),
        forall|j: int| 0 <= j < space_index(t) && j < t.len() ==> !is_space_char(t[j]),
    decreases t.len(),
{
    if t.len() == 0 {
    } else if is_space_char(t[0]) {
    } else {
        lemma_space_index(t.drop_first());
        assert forall|j: int|
            0 <= j < space_index(t) && j < t.len() implies !is_space_char(t[j]) by {
            if j > 0 {
                assert(t.drop_first()[j - 1] == t[j]);
            }
        }
    }
}

/// The characters of `s`, in order.
pub fn string_to_chars(s: &str) -> (v: Vec<char>)
    ensures
        v@ == s@,
{
    let mut it = s.chars();
    let mut v: Vec<char> = Vec::new();
    loop
        invariant
            it.decrease() is Some,
            v@ + it.remaining() == s@,
        ensures
            v@ == s@,
        decreases it.decrease()->0,
    {
        let ghost prev = v@;
        let ghost rem = it.remaining();
        match it.next() {
            Some(c) => {
                v.push(c);
                proof {
                    assert(v@ + it.remaining() =~= s@);
                }
            },
            None => {
                proof {
                    assert(v@ =~= s@);
                }
                break ;
            },
        }
    }
    v
}

/// Relies on `String`'s `FromIterator` over `char`: collecting yields a
/// string of exactly those characters.
#[verifier::external_body]
pub fn chars_to_string(v: &Vec<char>) -> (s: String)
    ensures
        s@ == v@,
{
    v.iter().collect()
}

/// Splits `buf` at its first whitespace character, which is kept in neither
/// half.  With no whitespace anywhere there is no split.
pub fn split_first_space(buf: &Vec<char>) -> (r: Option<(Vec<char>, Vec<char>)>)
    ensures
        (r is Some) == (space_index(buf@) < buf@.len()),
        r matches Some(p) ==> p.0@ == buf@.take(space_index(buf@)) && p.1@ == buf@.skip(
            space_index(buf@) + 1,
        ),
{
    proof {
        lemma_space_index(buf@);
    }
    let n = buf.len();
    let mut i: usize = 0;
    while i < n
        invariant
            i <= n,
            n == buf@.len(),
            forall|j: int| 0 <= j < i ==> !is_space_char(buf@[j]),
            0 <= space_index(buf@) <= buf@.len(),
            space_index(buf@) < buf@.len() ==> is_space_char(buf@[space_index(buf@)]),
            forall|j: int|
                0 <= j < space_index(buf@) && j < buf@.len() ==> !is_space_char(buf@[j]),
        decreases n - i,
    {
        if is_space(buf[i]) {
            let mut head: Vec<char> = Vec::new();
            let mut k: usize = 0;
            while k < i
                invariant
                    k <= i,
                    i < buf@.len(),
                    head@ == buf@.subrange(0, k as int),
                decreases i - k,
            {
                head.push(buf[k]);
                k += 1;
                proof {
                    assert(head@ =~= buf@.subrange(0, k as int));
                }
            }
            let mut tail: Vec<char> = Vec::new();
            let mut m: usize = i + 1;
            while m < n
                invariant
                    i + 1 <= m <= n,
                    n == buf@.len(),
                    tail@ == buf@.subrange(i + 1, m as int),
                decreases n - m,
            {
                tail.push(buf[m]);
                m += 1;
                proof {
                    assert(tail@ =~= buf@.subrange(i + 1, m as int));
                }
            }
            proof {
                assert(space_index(buf@) == i);
                assert(head@ =~= buf@.take(i as int));
                assert(tail@ =~= buf@.skip(i + 1));
            }
            return Some((head, tail));
        }
        i += 1;
    }
    None
}

/// The whitespace test, executable form.
pub fn is_space(c: char) -> (r: bool)
    ensures
        r == is_space_char(c),
{
    c == ' ' || c == '\t' || c == '\n' || c == '\r'
}

} // verus!
