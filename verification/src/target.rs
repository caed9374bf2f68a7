//! The target character set: the deduplicated set of Unicode scalar
//! values the user wants counted.

use vstd::prelude::*;

verus! {

/// The set of all characters occurring in a sequence of tokens.
pub open spec fn tokens_char_set(tokens: Seq<Seq<char>>) -> Set<char>
    decreases tokens.len(),
{
    if tokens.len() == 0 {
        Set::<char>::empty()
    } else {
        tokens_char_set(tokens.drop_last()).union(tokens.last().to_set())
    }
}

/// A set of target characters, held as a vector without duplicates.
///
/// Its view is the mathematical `Set<char>` of its elements.  Building
/// the set is idempotent in its inputs: inserting a character twice, or
/// supplying it in two tokens, leaves a single element.
pub struct TargetSet {
    chars: Vec<char>,
}

impl View for TargetSet {
    type V = Set<char>;

    closed spec fn view(&self) -> Set<char> {
        self.chars@.to_set()
    }
}

impl TargetSet {
    /// The elements are stored without duplicates.
    pub closed spec fn wf(&self) -> bool {
        self.chars@.no_duplicates()
    }

    /// Creates an empty target set.
    pub fn new() -> (s: TargetSet)
        ensures
            s@ == Set::<char>::empty(),
            s.wf(),
    {
        let s = TargetSet { chars: Vec::new() };
        proof {
            assert(s@ =~= Set::<char>::empty());
        }
        s
    }

    /// Adds one character to the set; adding a character already
    /// present leaves the set unchanged.
    pub fn insert_char(&mut self, c: char)
        requires
            old(self).wf(),
        ensures
            final(self)@ == old(self)@.insert(c),
            final(self).wf(),
    {
        if !self.contains_char(c) {
            proof {
                assert(!self.chars@.contains(c));
            }
            self.chars.push(c);
            proof {
                old(self).chars@.lemma_push_to_set_commute(c);
                assert(self@ =~= old(self)@.insert(c));
            }
        } else {
            proof {
                assert(self@ =~= old(self)@.insert(c));
            }
        }
    }

    /// Builds the set from user-supplied tokens, flattening every
    /// character of every token into one deduplicated collection.
    /// The order of the tokens is irrelevant to the resulting set, and
    /// repetition is idempotent.
    pub fn from_tokens(tokens: &Vec<String>) -> (s: TargetSet)
        ensures
            s@ == tokens_char_set(tokens.deep_view()),
            s.wf(),
    {
        let ghost dv: Seq<Seq<char>> = tokens.deep_view();
        let mut s = TargetSet::new();
        let n = tokens.len();
        proof {
            assert(dv.take(0) =~= Seq::<Seq<char>>::empty());
            assert(s@ =~= tokens_char_set(dv.take(0)));
        }
        let mut k: usize = 0;
        while k < n
            invariant
                k <= n,
                n == tokens.len(),
                dv == tokens.deep_view(),
                dv.len() == n,
                forall|j: int| 0 <= j < n ==> dv[j] == tokens@[j]@,
                s.wf(),
                s@ == tokens_char_set(dv.take(k as int)),
            decreases n - k,
        {
            let t: &String = &tokens[k];
            let tlen = t.as_str().unicode_len();
            proof {
                assert(t@.take(0) =~= Seq::<char>::empty());
                assert(t@.take(0).to_set() =~= Set::<char>::empty());
                assert(s@ =~= tokens_char_set(dv.take(k as int)).union(
                    t@.take(0).to_set(),
                ));
            }
            let mut i: usize = 0;
            while i < tlen
                invariant
                    i <= tlen,
                    tlen == t@.len(),
                    t@ == dv[k as int],
                    k < n,
                    dv.len() == n,
                    s.wf(),
                    s@ == tokens_char_set(dv.take(k as int)).union(
                        t@.take(i as int).to_set(),
                    ),
                decreases tlen - i,
            {
                let c = t.as_str().get_char(i);
                s.insert_char(c);
                proof {
                    t@.take(i as int).lemma_push_to_set_commute(c);
                    assert(t@.take((i + 1) as int) =~= t@.take(i as int).push(c));
                    assert(s@ =~= tokens_char_set(dv.take(k as int)).union(
                        t@.take((i + 1) as int).to_set(),
                    ));
                }
                i = i + 1;
            }
            proof {
                assert(t@.take(tlen as int) =~= t@);
                assert(dv.take((k + 1) as int).drop_last() =~= dv.take(k as int));
                assert(dv.take((k + 1) as int).last() == t@);
                assert(s@ =~= tokens_char_set(dv.take((k + 1) as int)));
            }
            k = k + 1;
        }
        proof {
            assert(dv.take(n as int) =~= dv);
        }
        s
    }

    /// Membership test: true exactly when `c` is in the set.
    pub fn contains_char(&self, c: char) -> (r: bool)
        ensures
            r == self@.contains(c),
    {
        let n = self.chars.len();
        let mut i: usize = 0;
        while i < n
            invariant
                i <= n,
                n == self.chars.len(),
                forall|j: int| 0 <= j < i ==> self.chars@[j] != c,
            decreases n - i,
        {
            if self.chars[i] == c {
                return true;
            }
            i = i + 1;
        }
        proof {
            assert(!self.chars@.contains(c));
        }
        false
    }
}

} // verus!
