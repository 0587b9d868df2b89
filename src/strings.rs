//! A table of string literals, each stored once.
use vstd::prelude::*;
use crate::text::{copy_string, same_text};

verus! {

broadcast use vstd::std_specs::vec::group_vec_axioms, vstd::seq::group_seq_axioms;

/// Distinct strings, in the order they were first registered.
#[derive(Debug)]
pub struct StringsContainer {
    strings: Vec<String>,
}

/// The index of the first entry equal to `x`.
pub open spec fn first_index(s: Seq<Seq<char>>, x: Seq<char>) -> Option<int>
    decreases s.len(),
{
    if s.len() == 0 {
        None
    } else {
        match first_index(s.drop_last(), x) {
            Some(i) => Some(i),
            None => if s.last() == x {
                Some(s.len() - 1)
            } else {
                None
            },
        }
    }
}

impl View for StringsContainer {
    type V = Seq<Seq<char>>;

    closed spec fn view(&self) -> Seq<Seq<char>> {
        self.strings@.map_values(|s: String| s@)
    }
}

impl StringsContainer {
    pub fn new() -> (r: StringsContainer)
        ensures
            r@ == Seq::<Seq<char>>::empty(),
    {
        let r = StringsContainer { strings: Vec::new() };
        assert(r@ =~= Seq::<Seq<char>>::empty());
        r
    }

    /// The index of `string` in the table, adding it at the end if it is not
    /// there yet.
    pub fn register_string(&mut self, string: String) -> (r: u64)
        ensures
            match first_index(old(self)@, string@) {
                Some(i) => r == i && final(self)@ == old(self)@,
                None => r == old(self)@.len() && final(self)@ == old(self)@.push(string@),
            },
    {
        let mut i: usize = 0;
        while i < self.strings.len()
            invariant
                i <= self.strings.len(),
                self@ == old(self)@,
                first_index(self@.subrange(0, i as int), string@) is None,
            decreases self.strings.len() - i,
        {
            proof {
                assert(self@.subrange(0, i + 1).drop_last() =~= self@.subrange(0, i as int));
            }
            if same_text(&self.strings[i], &string) {
                proof {
                    lemma_first_index_extend(self@, i as int + 1, string@);
                }
                return i as u64;
            }
            i = i + 1;
        }
        assert(self@.subrange(0, self.strings.len() as int) =~= self@);
        let ghost before = self@;
        let n = self.strings.len();
        self.strings.push(string);
        assert(self@ =~= before.push(string@));
        n as u64
    }

    /// Copies of the strings, in order.
    pub fn get_strings(&self) -> (r: Vec<String>)
        ensures
            r@.map_values(|s: String| s@) == self@,
    {
        let mut r: Vec<String> = Vec::new();
        let mut i: usize = 0;
        while i < self.strings.len()
            invariant
                i <= self.strings.len(),
                r.len() == i,
                forall|k: int| 0 <= k < i ==> (#[trigger] r@[k])@ == self.strings@[k]@,
            decreases self.strings.len() - i,
        {
            r.push(copy_string(&self.strings[i]));
            i = i + 1;
        }
        assert(r@.map_values(|s: String| s@) =~= self@);
        r
    }
}

proof fn lemma_first_index_extend(s: Seq<Seq<char>>, k: int, x: Seq<char>)
    requires
        0 <= k <= s.len(),
        first_index(s.subrange(0, k), x) is Some,
    ensures
        first_index(s, x) == first_index(s.subrange(0, k), x),
    decreases s.len() - k,
{
    if k < s.len() {
        assert(s.subrange(0, k + 1).drop_last() =~= s.subrange(0, k));
        lemma_first_index_extend(s, k + 1, x);
    } else {
        assert(s.subrange(0, k) =~= s);
    }
}

} // verus!
