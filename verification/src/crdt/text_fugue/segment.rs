//! Grapheme clusters: the user-perceived characters that positions and
//! block lengths count.

use unicode_segmentation::UnicodeSegmentation;
use vstd::prelude::*;
use vstd::string::StringExecFns;

verus! {

/// The extended grapheme clusters of a text, in order.
pub uninterp spec fn grapheme_seq(text: Seq<char>) -> Seq<Seq<char>>;

/// How many grapheme clusters a text has.
pub open spec fn grapheme_count(text: Seq<char>) -> nat {
    grapheme_seq(text).len()
}

/// The pieces joined end to end.
pub open spec fn concat_all(parts: Seq<Seq<char>>) -> Seq<char>
    decreases parts.len(),
{
    if parts.len() == 0 {
        Seq::empty()
    } else {
        concat_all(parts.drop_last()) + parts.last()
    }
}

/// The texts that a sequence of strings holds.
pub open spec fn texts_of(parts: Seq<String>) -> Seq<Seq<char>> {
    Seq::new(parts.len(), |i: int| parts[i]@)
}

/// How many characters the first `count` grapheme clusters of a text take.
pub open spec fn grapheme_offset(text: Seq<char>, count: int) -> nat {
    concat_all(grapheme_seq(text).take(count)).len()
}

/// Joining a prefix of the pieces never gives more than joining them all.
pub proof fn lemma_concat_prefix_len(parts: Seq<Seq<char>>, count: int)
    requires
        0 <= count <= parts.len(),
    ensures
        concat_all(parts.take(count)).len() <= concat_all(parts).len(),
    decreases parts.len(),
{
    if count < parts.len() {
        assert(parts.drop_last().take(count) =~= parts.take(count));
        lemma_concat_prefix_len(parts.drop_last(), count);
    } else {
        assert(parts.take(count) =~= parts);
    }
}

/// A longer prefix of the pieces joins to a text at least as long.
pub proof fn lemma_concat_prefix_monotone(parts: Seq<Seq<char>>, a: int, b: int)
    requires
        0 <= a <= b <= parts.len(),
    ensures
        concat_all(parts.take(a)).len() <= concat_all(parts.take(b)).len(),
{
    assert(parts.take(b).take(a) =~= parts.take(a));
    lemma_concat_prefix_len(parts.take(b), a);
}

/// Splits a text into its extended grapheme clusters.
///
/// Calls `UnicodeSegmentation::graphemes` in extended mode. Trusted: the
/// pieces are the clusters of the text, and joined in order they give the
/// text back (the iterator hands out consecutive slices of the text, from
/// its start to its end).
#[verifier::external_body]
pub(crate) fn grapheme_clusters(text: &str) -> (parts: Vec<String>)
    ensures
        texts_of(parts@) == grapheme_seq(text@),
        concat_all(texts_of(parts@)) == text@,
{
    text.graphemes(true).map(|g| g.to_string()).collect()
}

/// Joins the pieces `from..to` into one string.
pub(crate) fn join_range(parts: &Vec<String>, from: usize, to: usize) -> (joined: String)
    requires
        from <= to <= parts@.len(),
    ensures
        joined@ == concat_all(texts_of(parts@).subrange(from as int, to as int)),
{
    let mut joined = String::new();
    let mut i: usize = from;
    assert(texts_of(parts@).subrange(from as int, from as int) =~= Seq::<Seq<char>>::empty());
    while i < to
        invariant
            from <= i <= to <= parts@.len(),
            joined@ == concat_all(texts_of(parts@).subrange(from as int, i as int)),
        decreases to - i,
    {
        proof {
            let next = texts_of(parts@).subrange(from as int, i + 1);
            assert(next.drop_last() =~= texts_of(parts@).subrange(from as int, i as int));
            assert(next.last() == parts@[i as int]@);
        }
        joined.append(parts[i].as_str());
        i = i + 1;
    }
    joined
}

/// How many characters the first `count` pieces hold together, given
/// how many all the pieces hold.
pub(crate) fn prefix_chars(parts: &Vec<String>, count: usize, total: usize) -> (chars: usize)
    requires
        count <= parts@.len(),
        total == concat_all(texts_of(parts@)).len(),
    ensures
        chars == concat_all(texts_of(parts@).take(count as int)).len(),
{
    let mut chars: usize = 0;
    let mut i: usize = 0;
    assert(texts_of(parts@).take(0) =~= Seq::<Seq<char>>::empty());
    while i < count
        invariant
            i <= count <= parts@.len(),
            total == concat_all(texts_of(parts@)).len(),
            chars == concat_all(texts_of(parts@).take(i as int)).len(),
        decreases count - i,
    {
        proof {
            let next = texts_of(parts@).take(i + 1);
            assert(next.drop_last() =~= texts_of(parts@).take(i as int));
            assert(next.last() == parts@[i as int]@);
            lemma_concat_prefix_len(texts_of(parts@), i + 1);
        }
        chars = chars + parts[i].as_str().unicode_len();
        i = i + 1;
    }
    chars
}

} // verus!
