//! Source-line lookup for diagnostics.
use vstd::prelude::*;
use crate::text::{chars_of, push_char};

verus! {

broadcast use vstd::std_specs::vec::group_vec_axioms, vstd::seq::group_seq_axioms;

/// The positions of `c` in `s`, in order.
pub open spec fn occurrences(s: Seq<char>, c: char) -> Seq<int>
    decreases s.len(),
{
    if s.len() == 0 {
        Seq::empty()
    } else if s.last() == c {
        occurrences(s.drop_last(), c).push(s.len() - 1)
    } else {
        occurrences(s.drop_last(), c)
    }
}

/// The position of the occurrence of `c` numbered `n` (from 0), if there is one.
pub open spec fn nth_index(s: Seq<char>, c: char, n: nat) -> Option<int> {
    if n < occurrences(s, c).len() {
        Some(occurrences(s, c)[n as int])
    } else {
        None
    }
}

/// The position of the occurrence of `c` numbered `nth` (from 0), counted in characters.
pub fn find_nth(src: &str, c: char, nth: usize) -> (r: Option<usize>)
    ensures
        match nth_index(src@, c, nth as nat) {
            Some(k) => r is Some && r->Some_0 == k,
            None => r is None,
        },
{
    let chars = chars_of(src);
    let mut i: usize = 0;
    let mut seen: usize = 0;
    while i < chars.len()
        invariant
            chars@ == src@,
            i <= chars.len(),
            seen == occurrences(src@.subrange(0, i as int), c).len(),
            seen <= nth,
        decreases chars.len() - i,
    {
        proof {
            assert(src@.subrange(0, i + 1).drop_last() =~= src@.subrange(0, i as int));
        }
        if chars[i] == c {
            if seen == nth {
                proof {
                    lemma_occurrences_prefix(src@, c, i as int + 1);
                }
                return Some(i);
            }
            seen = seen + 1;
        }
        i = i + 1;
    }
    assert(src@.subrange(0, chars.len() as int) =~= src@);
    None
}

proof fn lemma_occurrences_prefix(s: Seq<char>, c: char, k: int)
    requires
        0 <= k <= s.len(),
    ensures
        occurrences(s, c).len() >= occurrences(s.subrange(0, k), c).len(),
        forall|j: int|
            0 <= j < occurrences(s.subrange(0, k), c).len() ==> #[trigger] occurrences(s, c)[j]
                == occurrences(s.subrange(0, k), c)[j],
    decreases s.len() - k,
{
    if k < s.len() {
        assert(s.subrange(0, k + 1).drop_last() =~= s.subrange(0, k));
        lemma_occurrences_prefix(s, c, k + 1);
    } else {
        assert(s.subrange(0, k) =~= s);
    }
}

/// Where the line that starts at `p` ends: the next newline, or the end.
pub open spec fn line_end(s: Seq<char>, p: int) -> int
    decreases s.len() - p,
{
    if p >= s.len() || s[p] == '\n' {
        p
    } else {
        line_end(s, p + 1)
    }
}

/// The text of line `lineno`: the text after the newline numbered `lineno`
/// (counting from 1), up to the next newline; line 0 is the text before the
/// first newline. Empty past the last line.
pub open spec fn line_text(s: Seq<char>, lineno: nat) -> Seq<char> {
    let start = if lineno == 0 {
        Some(0int)
    } else {
        match nth_index(s, '\n', (lineno - 1) as nat) {
            Some(k) => Some(k + 1),
            None => None,
        }
    };
    match start {
        Some(p) => s.subrange(p, line_end(s, p)),
        None => Seq::empty(),
    }
}

proof fn lemma_line_end(s: Seq<char>, p: int)
    requires
        0 <= p <= s.len(),
    ensures
        p <= line_end(s, p) <= s.len(),
    decreases s.len() - p,
{
    if !(p >= s.len() || s[p] == '\n') {
        lemma_line_end(s, p + 1);
    }
}

/// The text of source line `lineno` (see [`line_text`]), for a diagnostic.
pub fn get_line(src: &str, lineno: usize) -> (r: String)
    ensures
        r@ == line_text(src@, lineno as nat),
{
    let chars = chars_of(src);
    let start: usize = if lineno == 0 {
        0
    } else {
        match find_nth(src, '\n', lineno - 1) {
            Some(k) => {
                proof {
                    lemma_occurrences_bound(src@, '\n');
                    assert(src@.len() == chars.len());
                }
                k + 1
            },
            None => return String::new(),
        }
    };
    let mut res = String::new();
    let mut i: usize = start;
    proof {
        lemma_line_end(src@, start as int);
    }
    while i < chars.len() && chars[i] != '\n'
        invariant
            chars@ == src@,
            start <= i <= chars.len(),
            line_end(src@, start as int) == line_end(src@, i as int),
            res@ == src@.subrange(start as int, i as int),
        decreases chars.len() - i,
    {
        push_char(&mut res, chars[i]);
        i = i + 1;
        assert(res@ =~= src@.subrange(start as int, i as int));
    }
    res
}

proof fn lemma_occurrences_bound(s: Seq<char>, c: char)
    ensures
        forall|j: int| 0 <= j < occurrences(s, c).len() ==> 0 <= #[trigger] occurrences(s, c)[j] < s.len(),
    decreases s.len(),
{
    if s.len() > 0 {
        lemma_occurrences_bound(s.drop_last(), c);
        let o = occurrences(s.drop_last(), c);
        assert forall|j: int| 0 <= j < occurrences(s, c).len() implies 0 <= #[trigger] occurrences(s, c)[j] < s.len() by {
            if j < o.len() {
                assert(occurrences(s, c)[j] == o[j]);
            }
        }
    }
}

} // verus!
