//! The counter: given a text and a set of target characters, how many
//! characters of the text belong to the set.
//!
//! Characters are compared by exact Unicode scalar value: no
//! normalization, case folding or grapheme-cluster merging, so a symbol
//! built from several scalar values is matched per scalar value.

use vstd::prelude::*;

use rayon::iter::IntoParallelRefIterator;
use rayon::iter::ParallelIterator;

use crate::target::TargetSet;

verus! {

/// How many characters each parallel worker scans at most.
const CHUNK_LEN: usize = 4096;

/// The number of positions of `text` whose character is a member of
/// `targets`.
pub open spec fn spec_count(text: Seq<char>, targets: Set<char>) -> nat
    decreases text.len(),
{
    if text.len() == 0 {
        0
    } else {
        spec_count(text.drop_last(), targets) + (if targets.contains(text.last()) {
            1nat
        } else {
            0nat
        })
    }
}

/// Appending one character raises the count by one exactly when that
/// character is a target.
pub proof fn lemma_spec_count_push(text: Seq<char>, targets: Set<char>, c: char)
    ensures
        spec_count(text.push(c), targets) == spec_count(text, targets) + (if targets.contains(c) {
            1nat
        } else {
            0nat
        }),
{
    assert(text.push(c).drop_last() =~= text);
    assert(text.push(c).last() == c);
}

/// The count never exceeds the length of the text.
pub proof fn lemma_spec_count_le_len(text: Seq<char>, targets: Set<char>)
    ensures
        spec_count(text, targets) <= text.len(),
    decreases text.len(),
{
    if text.len() > 0 {
        lemma_spec_count_le_len(text.drop_last(), targets);
    }
}

/// An empty text contains no target occurrences, whatever the set.
pub proof fn lemma_count_empty_text(targets: Set<char>)
    ensures
        spec_count(Seq::<char>::empty(), targets) == 0,
{
}

/// An empty target set matches nothing, whatever the text.
pub proof fn lemma_count_empty_set(text: Seq<char>)
    ensures
        spec_count(text, Set::<char>::empty()) == 0,
    decreases text.len(),
{
    if text.len() > 0 {
        lemma_count_empty_set(text.drop_last());
        assert(!Set::<char>::empty().contains(text.last()));
    }
}

/// Splitting a text at any character boundary and counting the two
/// parts independently sums to the count of the whole: the combining
/// operation is plain addition, so the result does not depend on how
/// the text is partitioned.
pub proof fn lemma_count_split(a: Seq<char>, b: Seq<char>, targets: Set<char>)
    ensures
        spec_count(a + b, targets) == spec_count(a, targets) + spec_count(b, targets),
    decreases b.len(),
{
    if b.len() == 0 {
        assert(a + b =~= a);
    } else {
        lemma_count_split(a, b.drop_last(), targets);
        assert((a + b).drop_last() =~= a + b.drop_last());
        assert((a + b).last() == b.last());
    }
}

/// Determinism: the count is a pure function of the text and the
/// target set, so any two results obtained for the same text and the
/// same set are equal.
pub proof fn lemma_count_deterministic(
    text: Seq<char>,
    targets: Set<char>,
    n1: nat,
    n2: nat,
)
    requires
        n1 == spec_count(text, targets),
        n2 == spec_count(text, targets),
    ensures
        n1 == n2,
{
}

/// The concatenation of a sequence of chunks.
pub open spec fn concat_chunks(chunks: Seq<Seq<char>>) -> Seq<char>
    decreases chunks.len(),
{
    if chunks.len() == 0 {
        Seq::<char>::empty()
    } else {
        concat_chunks(chunks.drop_last()) + chunks.last()
    }
}

/// The sum of the per-chunk counts.
pub open spec fn sum_counts(chunks: Seq<Seq<char>>, targets: Set<char>) -> nat
    decreases chunks.len(),
{
    if chunks.len() == 0 {
        0
    } else {
        sum_counts(chunks.drop_last(), targets) + spec_count(chunks.last(), targets)
    }
}

/// Counting each chunk independently and summing the partial counts
/// yields the count of the concatenated whole: the result is invariant
/// under how the text is partitioned for parallel evaluation.
pub proof fn lemma_sum_counts_concat(chunks: Seq<Seq<char>>, targets: Set<char>)
    ensures
        sum_counts(chunks, targets) == spec_count(concat_chunks(chunks), targets),
    decreases chunks.len(),
{
    if chunks.len() > 0 {
        lemma_sum_counts_concat(chunks.drop_last(), targets);
        lemma_count_split(concat_chunks(chunks.drop_last()), chunks.last(), targets);
    }
}

/// Counts how many characters of one chunk of text belong to the
/// target set, by a single sequential scan.
pub fn count_chunk(content: &str, pattern: &TargetSet) -> (n: usize)
    ensures
        n == spec_count(content@, pattern@),
{
    let len = content.unicode_len();
    let mut n: usize = 0;
    let mut i: usize = 0;
    while i < len
        invariant
            i <= len,
            len == content@.len(),
            n <= i,
            n == spec_count(content@.take(i as int), pattern@),
        decreases len - i,
    {
        let c = content.get_char(i);
        proof {
            lemma_spec_count_push(content@.take(i as int), pattern@, c);
            assert(content@.take((i + 1) as int) =~= content@.take(i as int).push(c));
        }
        if pattern.contains_char(c) {
            n = n + 1;
        }
        i = i + 1;
    }
    proof {
        assert(content@.take(len as int) =~= content@);
    }
    n
}

/// Splits a text into contiguous chunks of at most `chunk_len`
/// characters each.  The cuts fall on character boundaries by
/// construction, so no chunk splits a multi-byte encoded character,
/// and the chunks concatenate back to the whole text.
pub fn split_chunks<'a>(content: &'a str, chunk_len: usize) -> (chunks: Vec<&'a str>)
    requires
        chunk_len >= 1,
    ensures
        concat_chunks(chunks.deep_view()) == content@,
        content@.len() <= usize::MAX,
{
    let len = content.unicode_len();
    let mut chunks: Vec<&'a str> = Vec::new();
    proof {
        assert(chunks.deep_view() =~= Seq::<Seq<char>>::empty());
        assert(concat_chunks(chunks.deep_view()) =~= content@.take(0));
    }
    let mut i: usize = 0;
    while i < len
        invariant
            i <= len,
            len == content@.len(),
            chunk_len >= 1,
            concat_chunks(chunks.deep_view()) == content@.take(i as int),
        decreases len - i,
    {
        let end = if len - i < chunk_len {
            len
        } else {
            i + chunk_len
        };
        let piece = content.substring_char(i, end);
        let ghost prev = chunks.deep_view();
        chunks.push(piece);
        proof {
            assert(chunks.deep_view().drop_last() =~= prev);
            assert(chunks.deep_view().last() == piece@);
            assert(content@.take(i as int) + content@.subrange(i as int, end as int)
                =~= content@.take(end as int));
        }
        i = end;
    }
    proof {
        assert(content@.take(len as int) =~= content@);
    }
    chunks
}

/// Relies on rayon's parallel iterator: `par_iter().map(f).sum()`
/// applies `f` to every element and returns the sum of the results,
/// exactly as the sequential iterator would; the partial sums are
/// combined by integer addition, which is commutative and associative,
/// so the grouping rayon chooses does not affect the total.  The
/// closure only calls the verified per-chunk counter.
#[verifier::external_body]
fn par_sum_chunk_counts(chunks: &Vec<&str>, pattern: &TargetSet) -> (n: usize)
    requires
        sum_counts(chunks.deep_view(), pattern@) <= usize::MAX,
    ensures
        n == sum_counts(chunks.deep_view(), pattern@),
{
    chunks.par_iter().map(|chunk| count_chunk(chunk, pattern)).sum()
}

/// Counts the total occurrences of the pattern's characters in the
/// text.  The scan runs in parallel over character-boundary-aligned
/// chunks whose partial counts are summed; by the partition law the
/// total equals the count of the undivided text, and for a fixed text
/// and pattern the result is exact and reproducible.
pub fn count(content: &String, pattern: TargetSet) -> (n: usize)
    ensures
        n == spec_count(content@, pattern@),
{
    let chunks = split_chunks(content.as_str(), CHUNK_LEN);
    proof {
        lemma_sum_counts_concat(chunks.deep_view(), pattern@);
        lemma_spec_count_le_len(content@, pattern@);
    }
    par_sum_chunk_counts(&chunks, &pattern)
}

} // verus!
