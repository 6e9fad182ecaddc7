use vstd::prelude::*;
use crate::util::strings_view;
use itertools::Itertools;
use icu_segmenter::LineSegmenter;

verus! {

/// The pieces of a text between its line-break opportunities, as `icu_segmenter`'s automatic
/// line segmenter finds them.
pub uninterp spec fn line_segments(text: Seq<char>) -> Seq<Seq<char>>;

/// The texts joined together.
pub open spec fn concat(s: Seq<Seq<char>>) -> Seq<char>
    decreases s.len(),
{
    if s.len() == 0 {
        seq![]
    } else {
        concat(s.drop_last()) + s.last()
    }
}

/// Calls `icu_segmenter::LineSegmenter::new_auto` and `segment_str`, and takes the text
/// between each two consecutive breakpoints (with itertools' `tuple_windows`).
/// Claims: the pieces are the name `line_segments` of the text, and, since the breakpoints
/// are always at 0 and at the text's length and the iterator walks forward through the text,
/// each breakpoint past the one before it, no piece is empty and the pieces put together give
/// the text back.
#[verifier::external_body]
fn segment_pieces(text: &str) -> (r: Vec<String>)
    ensures
        strings_view(r@) == line_segments(text@),
        concat(strings_view(r@)) == text@,
        forall|i: int| 0 <= i < r@.len() ==> (#[trigger] r@[i])@.len() > 0,
{
    let segmenter = LineSegmenter::new_auto();
    segmenter.segment_str(text).tuple_windows().map(|(start, end)| text[start..end].to_string())
        .collect()
}

/// The text without its trailing spaces.
pub open spec fn trim_end_spaces(s: Seq<char>) -> Seq<char>
    decreases s.len(),
{
    if s.len() > 0 && s.last() == ' ' {
        trim_end_spaces(s.drop_last())
    } else {
        s
    }
}

/// A word of a segment, and whether spaces followed it.
pub open spec fn word_of_segment(s: Seq<char>) -> (Seq<char>, bool) {
    (trim_end_spaces(s), trim_end_spaces(s).len() != s.len())
}

pub open spec fn spec_segment_words(text: Seq<char>) -> Seq<(Seq<char>, bool)> {
    line_segments(text).map_values(|s: Seq<char>| word_of_segment(s))
}

proof fn lemma_trim_len(s: Seq<char>)
    ensures
        trim_end_spaces(s).len() <= s.len(),
        trim_end_spaces(s) == s.subrange(0, trim_end_spaces(s).len() as int),
    decreases s.len(),
{
    if s.len() > 0 && s.last() == ' ' {
        lemma_trim_len(s.drop_last());
        assert(s.drop_last().subrange(0, trim_end_spaces(s).len() as int) == s.subrange(
            0,
            trim_end_spaces(s).len() as int,
        ));
    } else {
        assert(s.subrange(0, s.len() as int) == s);
    }
}

/// Drop the trailing spaces of a text.
fn trim_end_matches_space(s: &String) -> (r: String)
    ensures
        r@ == trim_end_spaces(s@),
{
    let mut t = s.clone();
    let mut n = t.as_str().unicode_len();
    while n > 0 && t.as_str().get_char(n - 1) == ' '
        invariant
            n == t@.len(),
            trim_end_spaces(t@) == trim_end_spaces(s@),
        decreases n,
    {
        crate::util::string_pop(&mut t);
        n = n - 1;
    }
    t
}

/// Split a text into segmented words, keeping whitespace as it is.
///
/// This is used for as-is words like intra-codes.
pub fn segment_str(text: &str) -> (r: Vec<String>)
    ensures
        strings_view(r@) == line_segments(text@),
        concat(strings_view(r@)) == text@,
        forall|i: int| 0 <= i < r@.len() ==> (#[trigger] r@[i])@.len() > 0,
{
    segment_pieces(text)
}

/// Split a text into segmented words with their trailing spaces dropped, each with whether it
/// had any.
///
/// This is used where text wrapping is applied, as in normal texts.
pub fn segment_words(text: &str) -> (r: Vec<(String, bool)>)
    ensures
        r@.len() == spec_segment_words(text@).len(),
        forall|i: int|
            0 <= i < r@.len() ==> (#[trigger] r@[i]).0@ == spec_segment_words(text@)[i].0 && r@[i].1
                == spec_segment_words(text@)[i].1,
{
    let pieces = segment_pieces(text);
    let ghost segs = line_segments(text@);
    let mut out: Vec<(String, bool)> = Vec::new();
    let mut i: usize = 0;
    while i < pieces.len()
        invariant
            i <= pieces@.len(),
            strings_view(pieces@) == segs,
            segs == line_segments(text@),
            out@.len() == i,
            forall|k: int|
                0 <= k < i ==> (#[trigger] out@[k]).0@ == word_of_segment(segs[k]).0 && out@[k].1
                    == word_of_segment(segs[k]).1,
        decreases pieces@.len() - i,
    {
        let word = trim_end_matches_space(&pieces[i]);
        let trailing = word.as_str().unicode_len() != pieces[i].as_str().unicode_len();
        proof {
            assert(segs[i as int] == pieces@[i as int]@);
        }
        out.push((word, trailing));
        i = i + 1;
    }
    out
}

} // verus!
