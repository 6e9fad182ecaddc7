use vstd::prelude::*;
use crate::style::Style;
use crate::ui::markdown::lines::StyledLine;
use crate::ui::markdown::parse::entry_point::Blocks;
use crate::ui::markdown::parse::links::{first_footnote, last_region_of, link_style, spec_link_style, Links};
use crate::ui::markdown::parse::meta_tag::{LinkTag, MetaTag};
use crate::ui::markdown::parse::word::{Block, Line, Word};
use crate::ui::markdown::region::{
    headings_view, lemma_headings_pushed_view, lemma_pushes_view_concat, pushes_view, TargetRegion,
    heading_ids_distinct, headings_pushed, lemma_headings_pushed_none, lemma_headings_pushed_step, pushed_heading, LinkedRegions, SelectedRegion,
};
use crate::ui::markdown::wrapped::StyledText;
use crate::util::{decimal, spec_decimal, str_width, string_push, string_push_str, strings_view, unicode_width_of};

verus! {

/// A text of a line, with its style.
pub type TextV = (Seq<char>, Style);

/// The text a word shows: the word, and a space after it when one follows.
pub open spec fn text_of(w: Word) -> TextV {
    (
        if w.trailling_whitespace {
            w.word@.push(' ')
        } else {
            w.word@
        },
        w.style,
    )
}

/// The words of a line without a first empty one, which only stands for a whitespace at
/// the start of a line.
pub open spec fn skip_blank_first(ws: Seq<Word>) -> Seq<Word> {
    if ws.len() > 0 && ws[0].word@.len() == 0 {
        ws.drop_first()
    } else {
        ws
    }
}

/// The texts of a line of words.
pub open spec fn word_texts(ws: Seq<Word>) -> Seq<TextV> {
    skip_blank_first(ws).map_values(|w: Word| text_of(w))
}

/// The texts and styles of a styled line.
pub open spec fn styled_v(l: StyledLine) -> Seq<TextV> {
    l.line@.map_values(|t: StyledText| (t.text.text@, t.text.style))
}

/// The sum of the display widths of the texts.
pub open spec fn texts_width(ts: Seq<TextV>) -> nat
    decreases ts.len(),
{
    if ts.len() == 0 {
        0
    } else {
        texts_width(ts.drop_last()) + unicode_width_of(ts.last().0)
    }
}

/// The texts fit in a line: their widths add up within `usize`.
pub open spec fn texts_fit(ts: Seq<TextV>) -> bool {
    texts_width(ts) <= usize::MAX
}

/// The region on the row of each heading word, with its heading's id, in order: the columns
/// that the word's text takes when the words stand one after another from column 0.
pub open spec fn heading_regions_of(ws: Seq<Word>, row: usize) -> Seq<(usize, SelectedRegion)>
    decreases ws.len(),
{
    if ws.len() == 0 {
        seq![]
    } else {
        let prev = heading_regions_of(ws.drop_last(), row);
        let w = ws.last();
        let start = texts_width(ws.drop_last().map_values(|x: Word| text_of(x)));
        match w.tag {
            MetaTag::Heading(idx) => prev.push(
                (
                    idx,
                    SelectedRegion {
                        row_start: row,
                        row_end: row,
                        col_start: start as usize,
                        col_end: (start + unicode_width_of(text_of(w).0)) as usize,
                    },
                ),
            ),
            _ => prev,
        }
    }
}

proof fn lemma_heading_regions_step(ws: Seq<Word>, k: int, row: usize)
    requires
        0 <= k < ws.len(),
    ensures
        ({
            let prev = heading_regions_of(ws.subrange(0, k), row);
            let next = heading_regions_of(ws.subrange(0, k + 1), row);
            let start = texts_width(ws.subrange(0, k).map_values(|x: Word| text_of(x)));
            match ws[k].tag {
                MetaTag::Heading(idx) => next == prev.push(
                    (
                        idx,
                        SelectedRegion {
                            row_start: row,
                            row_end: row,
                            col_start: start as usize,
                            col_end: (start + unicode_width_of(text_of(ws[k]).0)) as usize,
                        },
                    ),
                ),
                _ => next == prev,
            }
        }),
{
    assert(ws.subrange(0, k + 1).drop_last() =~= ws.subrange(0, k));
}

impl Word {
    /// The styled text of the word starting at the column, and the word's tag.
    fn into_text(self, start: usize) -> (r: (StyledText, MetaTag))
        requires
            start + unicode_width_of(text_of(self).0) <= usize::MAX,
        ensures
            (r.0.text.text@, r.0.text.style) == text_of(self),
            r.0.span.start == start,
            r.0.span.end == start + unicode_width_of(text_of(self).0),
            r.1 == self.tag,
    {
        let mut text = self.word;
        if self.trailling_whitespace {
            string_push(&mut text, ' ');
        }
        (StyledText::new(text, self.style, start), self.tag)
    }

    /// A line of the words' texts one after another, without a first empty word; each
    /// heading word adds its columns on the row to its heading's region. When the widths
    /// would overflow `usize`, the texts that do not fit are left out.
    pub fn words_to_line(words: &[Word], row: usize, linked_regions: &mut LinkedRegions) -> (r: StyledLine)
        requires
            heading_ids_distinct(old(linked_regions).heading@),
        ensures
            r.wf(),
            texts_fit(word_texts(words@)) ==> styled_v(r) == word_texts(words@),
            texts_fit(word_texts(words@)) ==> headings_pushed(
                old(linked_regions).heading@,
                heading_regions_of(skip_blank_first(words@), row),
                final(linked_regions).heading@,
            ),
            final(linked_regions).tag == old(linked_regions).tag,
            heading_ids_distinct(final(linked_regions).heading@),
    {
        let skip: usize = if words.len() > 0 && words[0].word.as_str().unicode_len() == 0 {
            1
        } else {
            0
        };
        let ghost ws = skip_blank_first(words@);
        let ghost all = word_texts(words@);
        assert(ws == words@.subrange(skip as int, words@.len() as int));
        let mut line = StyledLine::new();
        let mut i = skip;
        assert(ws.subrange(0, ws.len() as int) =~= ws);
        proof {
            assert(heading_regions_of(ws.subrange(0, 0), row) == Seq::<(usize, SelectedRegion)>::empty());
            lemma_headings_pushed_none(linked_regions.heading@);
        }
        while i < words.len()
            invariant_except_break
                skip <= i <= words@.len(),
                ws == words@.subrange(skip as int, words@.len() as int),
                all == ws.map_values(|w: Word| text_of(w)),
                line.wf(),
                styled_v(line) == all.subrange(0, i - skip),
                line.width == texts_width(all.subrange(0, i - skip)),
                heading_ids_distinct(linked_regions.heading@),
                headings_pushed(
                    old(linked_regions).heading@,
                    heading_regions_of(ws.subrange(0, i - skip), row),
                    linked_regions.heading@,
                ),
            invariant
                line.wf(),
                heading_ids_distinct(linked_regions.heading@),
                linked_regions.tag == old(linked_regions).tag,
                ws.subrange(0, ws.len() as int) == ws,
                ws.len() == words@.len() - skip,
            ensures
                line.wf(),
                heading_ids_distinct(linked_regions.heading@),
                texts_fit(all) ==> styled_v(line) == all,
                texts_fit(all) ==> headings_pushed(
                    old(linked_regions).heading@,
                    heading_regions_of(ws, row),
                    linked_regions.heading@,
                ),
            decreases words@.len() - i,
        {
            let w = words[i].clone();
            let ghost tv = text_of(w);
            let ghost h_before = linked_regions.heading@;
            let ghost k = i - skip;
            proof {
                lemma_heading_regions_step(ws, k, row);
                assert(ws.subrange(0, k).map_values(|x: Word| text_of(x)) =~= all.subrange(0, k));
                assert(all[i - skip] == tv);
                assert(all.subrange(0, i - skip + 1).drop_last() =~= all.subrange(0, i - skip));
                lemma_texts_width_prefix(all, i - skip + 1);
            }
            let start = line.width;
            let width = str_width_of_word(&w);
            if width > usize::MAX - start {
                break;
            }
            let (text, tag) = w.into_text(start);
            match tag {
                MetaTag::Heading(idx) => {
                    linked_regions.push_heading(idx, row, text.span());
                    proof {
                        let ps = heading_regions_of(ws.subrange(0, k + 1), row);
                        assert(w == ws[k]);
                        assert(start == texts_width(ws.subrange(0, k).map_values(|x: Word| text_of(x))));
                        assert(ps.last().1 == SelectedRegion { row_start: row, row_end: row, col_start: text.span.start, col_end: text.span.end });
                        assert(ps.drop_last() =~= heading_regions_of(ws.subrange(0, k), row));
                        lemma_headings_pushed_step(old(linked_regions).heading@, ps, h_before, linked_regions.heading@);
                    }
                },
                _ => {},
            }
            line.push(text.text.text, text.text.style);
            proof {
                assert(styled_v(line) =~= all.subrange(0, i - skip + 1));
            }
            i = i + 1;
        }
        proof {
            if i == words@.len() {
                assert(all.subrange(0, i - skip) =~= all);
                assert(ws.subrange(0, i - skip) =~= ws);
            }
        }
        line
    }
}

/// The display width of the text a word shows.
fn str_width_of_word(w: &Word) -> (r: usize)
    ensures
        r == unicode_width_of(text_of(*w).0),
{
    if w.trailling_whitespace {
        let mut t = w.word.clone();
        string_push(&mut t, ' ');
        str_width(t.as_str())
    } else {
        str_width(w.word.as_str())
    }
}

/// The width of a prefix is at most that of the whole.
proof fn lemma_texts_width_prefix(ts: Seq<TextV>, n: int)
    requires
        0 <= n <= ts.len(),
    ensures
        texts_width(ts.subrange(0, n)) <= texts_width(ts),
    decreases ts.len() - n,
{
    if n < ts.len() {
        lemma_texts_width_prefix(ts, n + 1);
        assert(ts.subrange(0, n + 1).drop_last() =~= ts.subrange(0, n));
        assert(texts_width(ts.subrange(0, n + 1)) == texts_width(ts.subrange(0, n)) + unicode_width_of(ts[n].0));
    } else {
        assert(ts.subrange(0, n) =~= ts);
    }
}

/// The lengths that the wrapping gave for each line, `None` where it failed.
pub open spec fn wraps_v(w: Seq<Option<Vec<usize>>>) -> Seq<Option<Seq<usize>>> {
    w.map_values(|o: Option<Vec<usize>>| match o {
        Some(v) => Some(v@),
        None => None,
    })
}

/// The words cut into pieces of the given lengths, the last pieces cut short where the words
/// run out.
pub open spec fn pieces(words: Seq<Word>, lens: Seq<usize>) -> Seq<Seq<Word>>
    decreases lens.len(),
{
    if lens.len() == 0 {
        seq![]
    } else {
        let n = if lens[0] <= words.len() {
            lens[0] as int
        } else {
            words.len() as int
        };
        seq![words.take(n)] + pieces(words.skip(n), lens.drop_first())
    }
}

pub open spec fn pieces_texts(ps: Seq<Seq<Word>>) -> Seq<Seq<TextV>> {
    ps.map_values(|p: Seq<Word>| word_texts(p))
}

/// The wrapping of the line at `at`, if there is one.
pub open spec fn wrap_at(wraps: Seq<Option<Seq<usize>>>, at: nat) -> Option<Seq<usize>> {
    if at < wraps.len() {
        wraps[at as int]
    } else {
        None
    }
}

/// The lines written for lines of words wrapped by the wrappings from `at` on, one for each
/// line: a line whose wrapping failed is not written.
pub open spec fn wrapped_lines(lines: Seq<Line>, wraps: Seq<Option<Seq<usize>>>, at: nat) -> Seq<Seq<TextV>>
    decreases lines.len(),
{
    if lines.len() == 0 {
        seq![]
    } else {
        let first = match wrap_at(wraps, at) {
            Some(lens) => pieces_texts(pieces(lines[0].words@, lens)),
            None => seq![],
        };
        first + wrapped_lines(lines.drop_first(), wraps, at + 1)
    }
}

/// The lines of the footnotes with the keys, in order; a key with no footnote adds none.
pub open spec fn footnote_lines(fs: Seq<(String, Block)>, keys: Seq<String>) -> Seq<Line>
    decreases keys.len(),
{
    if keys.len() == 0 {
        seq![]
    } else {
        let first = match first_footnote(fs, keys[0]@) {
            Some(k) => fs[k].1.lines@,
            None => seq![],
        };
        first + footnote_lines(fs, keys.drop_first())
    }
}

/// `[idx]:`
pub open spec fn anchor_text(idx: usize) -> Seq<char> {
    seq!['['] + spec_decimal(idx as nat) + seq![']', ':']
}

/// The link cut into pieces of the width, the last one shorter.
pub open spec fn chunks(link: Seq<char>, width: nat) -> Seq<Seq<char>>
    decreases link.len(),
{
    if width == 0 || link.len() == 0 {
        seq![]
    } else {
        let end = if width <= link.len() {
            width as int
        } else {
            link.len() as int
        };
        seq![link.take(end)] + chunks(link.skip(end), width)
    }
}

/// The lines of the link with the index: `[idx]: link` on one line, or when that is wider
/// than the width, `[idx]: ` and then the link cut into lines of the width. Widths here count
/// characters.
pub open spec fn link_lines(idx: usize, links: Seq<Seq<char>>, width: nat) -> Seq<Seq<TextV>> {
    if idx < links.len() {
        let link = links[idx as int];
        let anchor = (anchor_text(idx).push(' '), spec_link_style());
        if link.len() + anchor_text(idx).len() + 1 > width {
            seq![seq![anchor]] + chunks(link, width).map_values(|c: Seq<char>| seq![(c, spec_link_style())])
        } else {
            seq![seq![anchor, (link, spec_link_style())]]
        }
    } else {
        seq![]
    }
}

/// The lines of the links with the indices, in order.
pub open spec fn links_lines(idxs: Seq<usize>, links: Seq<Seq<char>>, width: nat) -> Seq<Seq<TextV>>
    decreases idxs.len(),
{
    if idxs.len() == 0 {
        seq![]
    } else {
        link_lines(idxs[0], links, width) + links_lines(idxs.drop_first(), links, width)
    }
}

/// The lines written for a block: its lines wrapped, then (after an empty line) its links,
/// then (after an empty line) its footnotes wrapped, then an empty line.
pub open spec fn block_lines(b: Block, fs: Seq<(String, Block)>, links: Seq<Seq<char>>, width: nat, wraps: Seq<Option<Seq<usize>>>, at: nat) -> Seq<Seq<TextV>> {
    wrapped_lines(b.lines@, wraps, at) + (if b.links@.len() > 0 {
        seq![seq![]] + links_lines(b.links@, links, width)
    } else {
        seq![]
    }) + (if b.footnotes@.len() > 0 {
        seq![seq![]] + wrapped_lines(footnote_lines(fs, b.footnotes@), wraps, at + b.lines@.len())
    } else {
        seq![]
    }) + seq![seq![]]
}

/// The number of lines of a block that go through the wrapping.
pub open spec fn block_wrap_count(b: Block, fs: Seq<(String, Block)>) -> nat {
    b.lines@.len() + if b.footnotes@.len() > 0 {
        footnote_lines(fs, b.footnotes@).len()
    } else {
        0
    }
}

/// The lines written for the blocks, the wrappings taken in order from `at` on.
pub open spec fn doc_lines(blocks: Seq<Block>, fs: Seq<(String, Block)>, links: Seq<Seq<char>>, width: nat, wraps: Seq<Option<Seq<usize>>>, at: nat) -> Seq<Seq<TextV>>
    decreases blocks.len(),
{
    if blocks.len() == 0 {
        seq![]
    } else {
        block_lines(blocks[0], fs, links, width, wraps, at) + doc_lines(
            blocks.drop_first(),
            fs,
            links,
            width,
            wraps,
            at + block_wrap_count(blocks[0], fs),
        )
    }
}

/// The lines that go through the wrapping, in the order `doc_lines` takes their wrappings.
pub open spec fn wrap_order(blocks: Seq<Block>, fs: Seq<(String, Block)>) -> Seq<Line>
    decreases blocks.len(),
{
    if blocks.len() == 0 {
        seq![]
    } else {
        blocks[0].lines@ + (if blocks[0].footnotes@.len() > 0 {
            footnote_lines(fs, blocks[0].footnotes@)
        } else {
            seq![]
        }) + wrap_order(blocks.drop_first(), fs)
    }
}

/// The position, or the end of the wrappings past it.
pub open spec fn clamp(at: nat, len: nat) -> nat {
    if at <= len {
        at
    } else {
        len
    }
}

/// The regions of the heading words of the pieces, written one to a row from `row` on.
pub open spec fn pieces_regions(ps: Seq<Seq<Word>>, row: nat) -> Seq<(usize, SelectedRegion)>
    decreases ps.len(),
{
    if ps.len() == 0 {
        seq![]
    } else {
        heading_regions_of(skip_blank_first(ps[0]), row as usize) + pieces_regions(ps.drop_first(), row + 1)
    }
}

/// The regions of the heading words of the lines wrapped by the wrappings from `at` on,
/// written from `row` on.
pub open spec fn wrapped_regions(lines: Seq<Line>, wraps: Seq<Option<Seq<usize>>>, at: nat, row: nat) -> Seq<(usize, SelectedRegion)>
    decreases lines.len(),
{
    if lines.len() == 0 {
        seq![]
    } else {
        let ps = match wrap_at(wraps, at) {
            Some(lens) => pieces(lines[0].words@, lens),
            None => seq![],
        };
        pieces_regions(ps, row) + wrapped_regions(lines.drop_first(), wraps, at + 1, row + ps.len())
    }
}

/// The regions of the heading words of a block written from `row` on: those of its lines,
/// then those of its footnotes (links hold no heading).
pub open spec fn block_regions(b: Block, fs: Seq<(String, Block)>, links: Seq<Seq<char>>, width: nat, wraps: Seq<Option<Seq<usize>>>, at: nat, row: nat) -> Seq<(usize, SelectedRegion)> {
    let own = wrapped_lines(b.lines@, wraps, at).len();
    let link_rows: nat = if b.links@.len() > 0 {
        1 + links_lines(b.links@, links, width).len()
    } else {
        0
    };
    wrapped_regions(b.lines@, wraps, at, row) + (if b.footnotes@.len() > 0 {
        wrapped_regions(footnote_lines(fs, b.footnotes@), wraps, at + b.lines@.len(), row + own + link_rows + 1)
    } else {
        seq![]
    })
}

/// The regions of the heading words of the blocks, in the order they are written, each on
/// the row it is written to.
pub open spec fn doc_regions(blocks: Seq<Block>, fs: Seq<(String, Block)>, links: Seq<Seq<char>>, width: nat, wraps: Seq<Option<Seq<usize>>>, at: nat, row: nat) -> Seq<(usize, SelectedRegion)>
    decreases blocks.len(),
{
    if blocks.len() == 0 {
        seq![]
    } else {
        block_regions(blocks[0], fs, links, width, wraps, at, row) + doc_regions(
            blocks.drop_first(),
            fs,
            links,
            width,
            wraps,
            at + block_wrap_count(blocks[0], fs),
            row + block_lines(blocks[0], fs, links, width, wraps, at).len(),
        )
    }
}

/// Each heading with the first region it targets, out of the view; a heading that targets
/// none is left out.
pub open spec fn first_targets_v(hv: Seq<(usize, Seq<SelectedRegion>)>) -> Seq<(usize, SelectedRegion)>
    decreases hv.len(),
{
    if hv.len() == 0 {
        seq![]
    } else {
        let rest = first_targets_v(hv.drop_last());
        if hv.last().1.len() > 0 {
            rest.push((hv.last().0, hv.last().1[0]))
        } else {
            rest
        }
    }
}

/// The region of each heading once the document is written: its words' columns on the
/// rows they land on, merged when a heading's words span several pieces; see
/// `doc_regions`.
pub open spec fn written_heading_regions(blocks: Seq<Block>, fs: Seq<(String, Block)>, links: Seq<Seq<char>>, width: nat, wraps: Seq<Option<Seq<usize>>>) -> Seq<(usize, SelectedRegion)> {
    first_targets_v(pushes_view(seq![], doc_regions(blocks, fs, links, width, wraps, 0, 0)))
}

/// The region that heading `h` is given from the regions: that of the last one with its
/// id, or its old one when none has it.
pub open spec fn region_given(regs: Seq<(usize, SelectedRegion)>, h: int, old_region: SelectedRegion) -> SelectedRegion {
    if exists|k: int| 0 <= k < regs.len() && (#[trigger] regs[k]).0 == h {
        regs[last_region_of(regs, h)].1
    } else {
        old_region
    }
}

/// Every line's texts fit within `usize` columns.
pub open spec fn all_fit(target: Seq<Seq<TextV>>) -> bool {
    forall|k: int| 0 <= k < target.len() ==> texts_fit(#[trigger] target[k])
}

proof fn lemma_first_targets_view(t: Seq<(usize, TargetRegion)>)
    ensures
        first_targets(t) == first_targets_v(headings_view(t)),
    decreases t.len(),
{
    if t.len() > 0 {
        lemma_first_targets_view(t.drop_last());
        assert(headings_view(t).drop_last() =~= headings_view(t.drop_last()));
    }
}

/// Words with no heading tag give no heading region.
proof fn lemma_no_heading_regions(ws: Seq<Word>, row: usize)
    requires
        forall|i: int| 0 <= i < ws.len() ==> !((#[trigger] ws[i]).tag is Heading),
    ensures
        heading_regions_of(skip_blank_first(ws), row) == Seq::<(usize, SelectedRegion)>::empty(),
{
    let s = skip_blank_first(ws);
    assert forall|i: int| 0 <= i < s.len() implies !((#[trigger] s[i]).tag is Heading) by {
        if ws.len() > 0 && ws[0].word@.len() == 0 {
            assert(s[i] == ws[i + 1]);
        }
    }
    lemma_no_heading_regions_of(s, row);
}

proof fn lemma_no_heading_regions_of(ws: Seq<Word>, row: usize)
    requires
        forall|i: int| 0 <= i < ws.len() ==> !((#[trigger] ws[i]).tag is Heading),
    ensures
        heading_regions_of(ws, row) == Seq::<(usize, SelectedRegion)>::empty(),
    decreases ws.len(),
{
    if ws.len() > 0 {
        assert(!(ws[ws.len() - 1].tag is Heading));
        lemma_no_heading_regions_of(ws.drop_last(), row);
    }
}

/// Each line is written as its texts, when they fit, and every line is well formed.
pub open spec fn lines_written(out: Seq<StyledLine>, target: Seq<Seq<TextV>>) -> bool {
    &&& out.len() == target.len()
    &&& forall|k: int| 0 <= k < out.len() ==> (#[trigger] out[k]).wf()
    &&& forall|k: int| 0 <= k < out.len() && texts_fit(target[k]) ==> styled_v(#[trigger] out[k]) == target[k]
}

/// The lines written so far, with the regions of the headings, and the texts they are
/// written from.
struct WriteLines {
    lines: Vec<StyledLine>,
    regions: LinkedRegions,
    target: Ghost<Seq<Seq<TextV>>>,
    /// The heading regions added so far, in order.
    pushed: Ghost<Seq<(usize, SelectedRegion)>>,
}

proof fn lemma_written_push(out: Seq<StyledLine>, target: Seq<Seq<TextV>>, l: StyledLine, t: Seq<TextV>)
    requires
        lines_written(out, target),
        l.wf(),
        texts_fit(t) ==> styled_v(l) == t,
    ensures
        lines_written(out.push(l), target.push(t)),
{
    assert forall|k: int| 0 <= k < out.len() + 1 implies (#[trigger] out.push(l)[k]).wf() by {
        if k < out.len() {
            assert(out.push(l)[k] == out[k]);
        }
    }
    assert forall|k: int| 0 <= k < out.len() + 1 && texts_fit(target.push(t)[k]) implies styled_v(
        #[trigger] out.push(l)[k],
    ) == target.push(t)[k] by {
        if k < out.len() {
            assert(out.push(l)[k] == out[k]);
        }
    }
}

impl WriteLines {
    spec fn wf(&self) -> bool {
        &&& heading_ids_distinct(self.regions.heading@)
        &&& lines_written(self.lines@, self.target@)
        &&& all_fit(self.target@) ==> headings_view(self.regions.heading@) == pushes_view(seq![], self.pushed@)
    }

    fn new() -> (r: WriteLines)
        ensures
            r.wf(),
            r.target@.len() == 0,
            r.pushed@.len() == 0,
    {
        let r = WriteLines {
            lines: Vec::new(),
            regions: LinkedRegions::new(),
            target: Ghost(Seq::empty()),
            pushed: Ghost(Seq::empty()),
        };
        assert(headings_view(r.regions.heading@) =~= Seq::<(usize, Seq<SelectedRegion>)>::empty());
        r
    }

    /// Write a line of words.
    fn write_line(&mut self, words: &[Word])
        requires
            old(self).wf(),
        ensures
            final(self).wf(),
            final(self).target@ == old(self).target@.push(word_texts(words@)),
            final(self).pushed@ == old(self).pushed@ + heading_regions_of(
                skip_blank_first(words@),
                old(self).target@.len() as usize,
            ),
    {
        let row = self.lines.len();
        let ghost h0 = self.regions.heading@;
        let line = Word::words_to_line(words, row, &mut self.regions);
        let ghost out = self.lines@;
        self.lines.push(line);
        proof {
            let hr = heading_regions_of(skip_blank_first(words@), row);
            let t0 = self.target@;
            lemma_written_push(out, self.target@, line, word_texts(words@));
            self.target@ = self.target@.push(word_texts(words@));
            if all_fit(self.target@) {
                assert forall|k: int| 0 <= k < t0.len() implies texts_fit(#[trigger] t0[k]) by {
                    assert(self.target@[k] == t0[k]);
                }
                assert(texts_fit(self.target@[t0.len() as int]));
                lemma_headings_pushed_view(h0, hr, self.regions.heading@);
                lemma_pushes_view_concat(seq![], self.pushed@, hr);
            }
            self.pushed@ = self.pushed@ + hr;
        }
    }

    /// Write an empty line.
    fn write_empty_line(&mut self)
        requires
            old(self).wf(),
        ensures
            final(self).wf(),
            final(self).target@ == old(self).target@.push(seq![]),
            final(self).pushed@ == old(self).pushed@,
    {
        let line = StyledLine::new();
        let ghost out = self.lines@;
        self.lines.push(line);
        proof {
            let t0 = self.target@;
            assert(styled_v(line) =~= Seq::<TextV>::empty());
            lemma_written_push(out, self.target@, line, seq![]);
            self.target@ = self.target@.push(seq![]);
            if all_fit(self.target@) {
                assert forall|k: int| 0 <= k < t0.len() implies texts_fit(#[trigger] t0[k]) by {
                    assert(self.target@[k] == t0[k]);
                }
            }
        }
    }

    /// Write the pieces of the words of the lengths.
    fn write_pieces(&mut self, words: &Vec<Word>, lens: &Vec<usize>)
        requires
            old(self).wf(),
        ensures
            final(self).wf(),
            final(self).target@ == old(self).target@ + pieces_texts(pieces(words@, lens@)),
            final(self).pushed@ == old(self).pushed@ + pieces_regions(pieces(words@, lens@), old(self).target@.len()),
    {
        let ghost t0 = self.target@;
        let ghost h0 = self.pushed@;
        let mut pos: usize = 0;
        let mut k: usize = 0;
        assert(words@.skip(0) =~= words@);
        assert(lens@.skip(0) =~= lens@);
        while k < lens.len()
            invariant
                self.wf(),
                k <= lens@.len(),
                pos <= words@.len(),
                t0 + pieces_texts(pieces(words@, lens@)) == self.target@ + pieces_texts(
                    pieces(words@.skip(pos as int), lens@.skip(k as int)),
                ),
                h0 + pieces_regions(pieces(words@, lens@), t0.len()) == self.pushed@ + pieces_regions(
                    pieces(words@.skip(pos as int), lens@.skip(k as int)),
                    self.target@.len(),
                ),
            decreases lens@.len() - k,
        {
            let rest = words.len() - pos;
            let n = if lens[k] <= rest {
                lens[k]
            } else {
                rest
            };
            let mut piece: Vec<Word> = Vec::new();
            let mut q: usize = 0;
            while q < n
                invariant
                    pos + n <= words@.len(),
                    words@.len() == words.len(),
                    q <= n,
                    piece@ == words@.subrange(pos as int, pos + q),
                decreases n - q,
            {
                piece.push(words[pos + q].clone());
                q = q + 1;
                assert(piece@ =~= words@.subrange(pos as int, pos + q));
            }
            let ghost w = words@.skip(pos as int);
            let ghost l = lens@.skip(k as int);
            proof {
                assert(l[0] == lens@[k as int]);
                assert(w.take(n as int) =~= piece@);
                assert(w.skip(n as int) =~= words@.skip(pos + n));
                assert(l.drop_first() =~= lens@.skip(k + 1));
                assert(pieces(w, l) == seq![w.take(n as int)] + pieces(w.skip(n as int), l.drop_first()));
                assert(pieces_texts(seq![piece@] + pieces(words@.skip(pos + n), lens@.skip(k + 1)))
                    =~= seq![word_texts(piece@)] + pieces_texts(pieces(words@.skip(pos + n), lens@.skip(k + 1))));
            }
            let ghost before = self.target@;
            let ghost pbefore = self.pushed@;
            self.write_line(piece.as_slice());
            proof {
                let rest = pieces(words@.skip(pos + n), lens@.skip(k + 1));
                let row = before.len();
                assert((seq![piece@] + rest)[0] == piece@);
                assert((seq![piece@] + rest).drop_first() =~= rest);
                assert(pieces_regions(seq![piece@] + rest, row) == heading_regions_of(skip_blank_first(piece@), row as usize)
                    + pieces_regions(rest, row + 1));
                assert(self.pushed@ + pieces_regions(rest, self.target@.len()) =~= pbefore + pieces_regions(seq![piece@] + rest, row));
                assert(before.push(word_texts(piece@)) + pieces_texts(pieces(words@.skip(pos + n), lens@.skip(k + 1)))
                    =~= before + (seq![word_texts(piece@)] + pieces_texts(pieces(words@.skip(pos + n), lens@.skip(k + 1)))));
            }
            pos = pos + n;
            k = k + 1;
        }
        proof {
            assert(lens@.skip(k as int).len() == 0);
            assert(self.target@ + pieces_texts(Seq::<Seq<Word>>::empty()) =~= self.target@);
            assert(self.pushed@ + pieces_regions(Seq::<Seq<Word>>::empty(), self.target@.len()) =~= self.pushed@);
        }
    }

    /// Write the lines of the links with the indices.
    fn write_links(&mut self, idxs: &Vec<usize>, links: &Links, width: usize)
        requires
            old(self).wf(),
            width > 0,
        ensures
            final(self).wf(),
            final(self).target@ == old(self).target@ + links_lines(idxs@, strings_view(links.links@), width as nat),
            final(self).pushed@ == old(self).pushed@,
    {
        let ghost lv = strings_view(links.links@);
        let ghost t0 = self.target@;
        let mut k: usize = 0;
        assert(idxs@.skip(0) =~= idxs@);
        while k < idxs.len()
            invariant
                self.wf(),
                width > 0,
                k <= idxs@.len(),
                lv == strings_view(links.links@),
                self.target@ + links_lines(idxs@.skip(k as int), lv, width as nat) == t0 + links_lines(idxs@, lv, width as nat),
                self.pushed@ == old(self).pushed@,
            decreases idxs@.len() - k,
        {
            let ghost ks = idxs@.skip(k as int);
            let ghost before = self.target@;
            proof {
                assert(ks[0] == idxs@[k as int]);
                assert(ks.drop_first() =~= idxs@.skip(k + 1));
            }
            self.write_link(links, idxs[k], width);
            proof {
                assert(self.target@ + links_lines(idxs@.skip(k + 1), lv, width as nat) =~= before + links_lines(ks, lv, width as nat));
            }
            k = k + 1;
        }
        proof {
            assert(idxs@.skip(k as int).len() == 0);
            assert(self.target@ + Seq::<Seq<TextV>>::empty() =~= self.target@);
        }
    }

    /// Write the lines of the footnotes with the keys, wrapped by the wrappings from `at` on.
    fn write_footnotes(&mut self, keys: &Vec<String>, links: &Links, wraps: &Vec<Option<Vec<usize>>>, cur: usize, Ghost(at): Ghost<nat>) -> (next: usize)
        requires
            old(self).wf(),
            cur == clamp(at, wraps@.len()),
        ensures
            final(self).wf(),
            final(self).target@ == old(self).target@ + wrapped_lines(footnote_lines(links.footnotes@, keys@), wraps_v(wraps@), at),
            final(self).pushed@ == old(self).pushed@ + wrapped_regions(
                footnote_lines(links.footnotes@, keys@),
                wraps_v(wraps@),
                at,
                old(self).target@.len(),
            ),
            next == clamp(at + footnote_lines(links.footnotes@, keys@).len(), wraps@.len()),
    {
        let ghost fs = links.footnotes@;
        let ghost wv = wraps_v(wraps@);
        let ghost t0 = self.target@;
        let ghost h0 = self.pushed@;
        let ghost mut at2: nat = at;
        let mut cur = cur;
        let mut k: usize = 0;
        assert(keys@.skip(0) =~= keys@);
        while k < keys.len()
            invariant
                self.wf(),
                k <= keys@.len(),
                fs == links.footnotes@,
                wv == wraps_v(wraps@),
                cur == clamp(at2, wraps@.len()),
                at2 + footnote_lines(fs, keys@.skip(k as int)).len() == at + footnote_lines(fs, keys@).len(),
                self.target@ + wrapped_lines(footnote_lines(fs, keys@.skip(k as int)), wv, at2) == t0 + wrapped_lines(footnote_lines(fs, keys@), wv, at),
                self.pushed@ + wrapped_regions(footnote_lines(fs, keys@.skip(k as int)), wv, at2, self.target@.len())
                    == h0 + wrapped_regions(footnote_lines(fs, keys@), wv, at, t0.len()),
            decreases keys@.len() - k,
        {
            let ghost ks = keys@.skip(k as int);
            let ghost before = self.target@;
            let ghost pbefore = self.pushed@;
            proof {
                assert(ks[0] == keys@[k as int]);
                assert(ks.drop_first() =~= keys@.skip(k + 1));
            }
            match links.get_footnote(keys[k].as_str()) {
                Some(fb) => {
                    proof {
                        lemma_wrapped_clamped(fb.lines@, wv, at2, cur as nat);
                        assert(footnote_lines(fs, ks) == fb.lines@ + footnote_lines(fs, ks.drop_first()));
                        lemma_wrapped_concat(fb.lines@, footnote_lines(fs, ks.drop_first()), wv, at2);
                        lemma_regions_clamped(fb.lines@, wv, at2, cur as nat, before.len());
                        lemma_regions_concat(fb.lines@, footnote_lines(fs, ks.drop_first()), wv, at2, before.len());
                    }
                    cur = self.write_lines(fb.lines.as_slice(), wraps, cur);
                    proof {
                        assert(self.target@.len() == before.len() + wrapped_lines(fb.lines@, wv, at2).len());
                        assert(self.pushed@ + wrapped_regions(footnote_lines(fs, keys@.skip(k + 1)), wv, at2 + fb.lines@.len(), self.target@.len())
                            =~= pbefore + wrapped_regions(footnote_lines(fs, ks), wv, at2, before.len()));
                        assert(self.target@ + wrapped_lines(footnote_lines(fs, keys@.skip(k + 1)), wv, at2 + fb.lines@.len()) =~= before
                            + wrapped_lines(footnote_lines(fs, ks), wv, at2));
                        at2 = at2 + fb.lines@.len();
                    }
                },
                None => {
                    proof {
                        assert(footnote_lines(fs, ks) =~= footnote_lines(fs, ks.drop_first()));
                    }
                },
            }
            k = k + 1;
        }
        proof {
            assert(keys@.skip(k as int).len() == 0);
            assert(self.target@ + Seq::<Seq<TextV>>::empty() =~= self.target@);
            assert(self.pushed@ + Seq::<(usize, SelectedRegion)>::empty() =~= self.pushed@);
        }
        cur
    }

    /// Write a block; the position after its lines in the wrappings.
    #[verifier::rlimit(40)]
    fn write_block(&mut self, b: &Block, links: &Links, width: usize, wraps: &Vec<Option<Vec<usize>>>, cur: usize, Ghost(at): Ghost<nat>) -> (next: usize)
        requires
            old(self).wf(),
            width > 0,
            cur == clamp(at, wraps@.len()),
        ensures
            final(self).wf(),
            final(self).target@ == old(self).target@ + block_lines(*b, links.footnotes@, strings_view(links.links@), width as nat, wraps_v(wraps@), at),
            final(self).pushed@ == old(self).pushed@ + block_regions(*b, links.footnotes@, strings_view(links.links@), width as nat, wraps_v(wraps@), at, old(self).target@.len()),
            next == clamp(at + block_wrap_count(*b, links.footnotes@), wraps@.len()),
    {
        let ghost fs = links.footnotes@;
        let ghost lv = strings_view(links.links@);
        let ghost wv = wraps_v(wraps@);
        let ghost t0 = self.target@;
        let ghost h0 = self.pushed@;
        proof {
            lemma_wrapped_clamped(b.lines@, wv, at, cur as nat);
            lemma_regions_clamped(b.lines@, wv, at, cur as nat, t0.len());
        }
        let mut cur = self.write_lines(b.lines.as_slice(), wraps, cur);
        let ghost t1 = self.target@;
        let ghost h1 = self.pushed@;
        assert(h1 == h0 + wrapped_regions(b.lines@, wv, at, t0.len()));
        assert(t1.len() == t0.len() + wrapped_lines(b.lines@, wv, at).len());
        if b.links.len() > 0 {
            self.write_empty_line();
            self.write_links(&b.links, links, width);
        }
        let ghost t2 = self.target@;
        assert(self.pushed@ == h1);
        assert(t2.len() == t1.len() + (if b.links@.len() > 0 {
            1 + links_lines(b.links@, lv, width as nat).len()
        } else {
            0
        }));
        if b.footnotes.len() > 0 {
            self.write_empty_line();
            cur = self.write_footnotes(&b.footnotes, links, wraps, cur, Ghost(at + b.lines@.len()));
        }
        let ghost t3 = self.target@;
        let ghost h3 = self.pushed@;
        assert(h3 == h1 + (if b.footnotes@.len() > 0 {
            wrapped_regions(footnote_lines(fs, b.footnotes@), wv, at + b.lines@.len(), t2.len() + 1)
        } else {
            seq![]
        })) by {
            if b.footnotes@.len() == 0 {
                assert(h1 + Seq::<(usize, SelectedRegion)>::empty() =~= h1);
            }
        }
        self.write_empty_line();
        proof {
            assert(self.pushed@ =~= h0 + block_regions(*b, fs, lv, width as nat, wv, at, t0.len()));
            assert(block_lines(*b, fs, lv, width as nat, wv, at) =~= (t1.subrange(t0.len() as int, t1.len() as int)) + t2.subrange(t1.len() as int, t2.len() as int)
                + t3.subrange(t2.len() as int, t3.len() as int) + seq![seq![]]);
            assert(self.target@ =~= t0 + block_lines(*b, fs, lv, width as nat, wv, at));
        }
        cur
    }

    /// Write the lines wrapped by the wrappings from `at` on; the position after them in the
    /// wrappings, or their end.
    fn write_lines(&mut self, lines: &[Line], wraps: &Vec<Option<Vec<usize>>>, at: usize) -> (next: usize)
        requires
            old(self).wf(),
            at <= wraps@.len(),
        ensures
            final(self).wf(),
            final(self).target@ == old(self).target@ + wrapped_lines(lines@, wraps_v(wraps@), at as nat),
            final(self).pushed@ == old(self).pushed@ + wrapped_regions(lines@, wraps_v(wraps@), at as nat, old(self).target@.len()),
            next == (if at + lines@.len() <= wraps@.len() {
                at + lines@.len()
            } else {
                wraps@.len() as int
            }),
    {
        let ghost wv = wraps_v(wraps@);
        let ghost t0 = self.target@;
        let ghost h0 = self.pushed@;
        let mut k: usize = 0;
        assert(lines@.skip(0) =~= lines@);
        while k < lines.len()
            invariant
                self.wf(),
                k <= lines@.len(),
                at <= wraps@.len(),
                wv == wraps_v(wraps@),
                self.target@ + wrapped_lines(lines@.skip(k as int), wv, (at + k) as nat) == t0
                    + wrapped_lines(lines@, wv, at as nat),
                self.pushed@ + wrapped_regions(lines@.skip(k as int), wv, (at + k) as nat, self.target@.len()) == h0
                    + wrapped_regions(lines@, wv, at as nat, t0.len()),
            decreases lines@.len() - k,
        {
            let ghost rest = lines@.skip(k as int);
            let ghost before = self.target@;
            let ghost pbefore = self.pushed@;
            proof {
                assert(rest[0] == lines@[k as int]);
                assert(rest.drop_first() =~= lines@.skip(k + 1));
            }
            if at < wraps.len() && k < wraps.len() - at {
                match &wraps[at + k] {
                    Some(lens) => {
                        self.write_pieces(&lines[k].words, lens);
                    },
                    None => {},
                }
            }
            proof {
                let first = match wrap_at(wv, (at + k) as nat) {
                    Some(lens) => pieces_texts(pieces(rest[0].words@, lens)),
                    None => seq![],
                };
                assert(self.target@ == before + first);
                let ps = match wrap_at(wv, (at + k) as nat) {
                    Some(lens) => pieces(rest[0].words@, lens),
                    None => seq![],
                };
                assert(first == pieces_texts(ps));
                assert(self.pushed@ == pbefore + pieces_regions(ps, before.len())) by {
                    if wrap_at(wv, (at + k) as nat) is None {
                        assert(pbefore + pieces_regions(ps, before.len()) =~= pbefore);
                    }
                }
                assert(wrapped_regions(rest, wv, (at + k) as nat, before.len()) == pieces_regions(ps, before.len())
                    + wrapped_regions(lines@.skip(k + 1), wv, (at + k + 1) as nat, before.len() + ps.len()));
                assert(self.pushed@ + wrapped_regions(lines@.skip(k + 1), wv, (at + k + 1) as nat, self.target@.len())
                    =~= pbefore + wrapped_regions(rest, wv, (at + k) as nat, before.len()));
                assert(wrapped_lines(rest, wv, (at + k) as nat) == first + wrapped_lines(lines@.skip(k + 1), wv, (at + k + 1) as nat));
                assert(self.target@ + wrapped_lines(lines@.skip(k + 1), wv, (at + k + 1) as nat) =~= before + wrapped_lines(rest, wv, (at + k) as nat));
            }
            k = k + 1;
        }
        proof {
            assert(lines@.skip(k as int).len() == 0);
            assert(self.target@ + Seq::<Seq<TextV>>::empty() =~= self.target@);
            assert(self.pushed@ + Seq::<(usize, SelectedRegion)>::empty() =~= self.pushed@);
        }
        if at < wraps.len() && lines.len() <= wraps.len() - at {
            at + lines.len()
        } else {
            wraps.len()
        }
    }

    /// Write the lines of the link with the index: `[idx]: link`, or when that is wider than
    /// the width, `[idx]: ` and the link cut into lines of the width.
    fn write_link(&mut self, links: &Links, idx: usize, width: usize)
        requires
            old(self).wf(),
            width > 0,
        ensures
            final(self).wf(),
            final(self).target@ == old(self).target@ + link_lines(idx, strings_view(links.links@), width as nat),
            final(self).pushed@ == old(self).pushed@,
    {
        let ghost lv = strings_view(links.links@);
        match links.get_link(idx) {
            Some(word) => {
                let tag = MetaTag::Link(LinkTag::ReferenceLink(idx));
                let mut a = String::new();
                string_push(&mut a, '[');
                string_push_str(&mut a, decimal(idx as u64).as_str());
                string_push(&mut a, ']');
                string_push(&mut a, ':');
                proof {
                    assert(a@ =~= anchor_text(idx));
                    assert(word.word@ == lv[idx as int]);
                }
                let anchor = Word { word: a, style: link_style(), tag: tag.clone(), trailling_whitespace: true };
                let link_len = word.word.as_str().unicode_len();
                let anchor_len = anchor.word.as_str().unicode_len();
                let ghost link = word.word@;
                if link_len >= width || anchor_len >= width - link_len {
                    let mut first: Vec<Word> = Vec::new();
                    first.push(anchor);
                    proof {
                        assert(word_texts(first@) =~= seq![(anchor_text(idx).push(' '), spec_link_style())]);
                        lemma_no_heading_regions(first@, self.target@.len() as usize);
                    }
                    self.write_line(first.as_slice());
                    assert(self.pushed@ =~= old(self).pushed@);
                    let ghost t1 = self.target@;
                    let text = word.word.as_str();
                    let mut pos: usize = 0;
                    proof {
                        assert(link.skip(0) =~= link);
                    }
                    while pos < link_len
                        invariant
                            self.wf(),
                            width > 0,
                            link_len == link.len(),
                            text@ == link,
                            pos <= link_len,
                            self.pushed@ == old(self).pushed@,
                            tag == MetaTag::Link(LinkTag::ReferenceLink(idx)),
                            self.target@ + chunks(link.skip(pos as int), width as nat).map_values(|c: Seq<char>| seq![(c, spec_link_style())])
                                == t1 + chunks(link, width as nat).map_values(|c: Seq<char>| seq![(c, spec_link_style())]),
                        decreases link_len - pos,
                    {
                        let end = if width <= link_len - pos {
                            width
                        } else {
                            link_len - pos
                        };
                        let mut piece = String::new();
                        let mut q: usize = 0;
                        while q < end
                            invariant
                                pos + end <= link_len,
                                text@ == link,
                                link_len == link.len(),
                                q <= end,
                                piece@ == link.subrange(pos as int, pos + q),
                            decreases end - q,
                        {
                            string_push(&mut piece, text.get_char(pos + q));
                            q = q + 1;
                            assert(piece@ =~= link.subrange(pos as int, pos + q));
                        }
                        let ghost rest = link.skip(pos as int);
                        let ghost before = self.target@;
                        proof {
                            assert(rest.take(end as int) =~= piece@);
                            assert(rest.skip(end as int) =~= link.skip(pos + end));
                            assert(chunks(rest, width as nat) == seq![rest.take(end as int)] + chunks(rest.skip(end as int), width as nat));
                        }
                        let mut line: Vec<Word> = Vec::new();
                        line.push(Word { word: piece, style: link_style(), tag: tag.clone(), trailling_whitespace: false });
                        proof {
                            assert(word_texts(line@) =~= seq![(link.subrange(pos as int, pos + end), spec_link_style())]);
                            lemma_no_heading_regions(line@, self.target@.len() as usize);
                        }
                        self.write_line(line.as_slice());
                        assert(self.pushed@ =~= old(self).pushed@);
                        proof {
                            let m = |c: Seq<char>| seq![(c, spec_link_style())];
                            assert((seq![rest.take(end as int)] + chunks(rest.skip(end as int), width as nat)).map_values(m)
                                =~= seq![m(rest.take(end as int))] + chunks(rest.skip(end as int), width as nat).map_values(m));
                            assert(self.target@ + chunks(link.skip(pos + end), width as nat).map_values(m)
                                =~= before + chunks(rest, width as nat).map_values(m));
                        }
                        pos = pos + end;
                    }
                    proof {
                        assert(link.skip(pos as int).len() == 0);
                        assert(self.target@ + Seq::<Seq<TextV>>::empty() =~= self.target@);
                        let m = |c: Seq<char>| seq![(c, spec_link_style())];
                        assert(link.len() + anchor_text(idx).len() + 1 > width);
                        assert(seq![seq![(anchor_text(idx).push(' '), spec_link_style())]] + chunks(link, width as nat).map_values(m)
                            == link_lines(idx, lv, width as nat));
                        assert(t1 == old(self).target@.push(seq![(anchor_text(idx).push(' '), spec_link_style())]));
                        assert(self.target@ =~= old(self).target@ + (seq![seq![(anchor_text(idx).push(' '), spec_link_style())]] + chunks(link, width as nat).map_values(m)));
                    }
                } else {
                    let mut both: Vec<Word> = Vec::new();
                    both.push(anchor);
                    both.push(word);
                    proof {
                        assert(word_texts(both@) =~= seq![(anchor_text(idx).push(' '), spec_link_style()), (link, spec_link_style())]);
                        lemma_no_heading_regions(both@, self.target@.len() as usize);
                    }
                    self.write_line(both.as_slice());
                    assert(self.pushed@ =~= old(self).pushed@);
                    proof {
                        assert(!(link.len() + anchor_text(idx).len() + 1 > width));
                        assert(self.target@ =~= old(self).target@ + link_lines(idx, lv, width as nat));
                    }
                }
            },
            None => {
                assert(link_lines(idx, lv, width as nat) =~= Seq::<Seq<TextV>>::empty());
                assert(self.target@ + Seq::<Seq<TextV>>::empty() =~= self.target@);
            },
        }
    }
}

/// No wrapping is left from `at` on: nothing is written.
proof fn lemma_wrapped_beyond(lines: Seq<Line>, wraps: Seq<Option<Seq<usize>>>, at: nat)
    requires
        at >= wraps.len(),
    ensures
        wrapped_lines(lines, wraps, at) == Seq::<Seq<TextV>>::empty(),
    decreases lines.len(),
{
    if lines.len() > 0 {
        lemma_wrapped_beyond(lines.drop_first(), wraps, at + 1);
    }
}

/// Positions past the wrappings all write the same: nothing.
proof fn lemma_wrapped_clamped(lines: Seq<Line>, wraps: Seq<Option<Seq<usize>>>, at: nat, cur: nat)
    requires
        cur == (if at <= wraps.len() {
            at
        } else {
            wraps.len()
        }),
    ensures
        wrapped_lines(lines, wraps, at) == wrapped_lines(lines, wraps, cur),
{
    if at > wraps.len() {
        lemma_wrapped_beyond(lines, wraps, at);
        lemma_wrapped_beyond(lines, wraps, cur);
    }
}

/// Wrapping two runs of lines one after the other.
proof fn lemma_wrapped_concat(a: Seq<Line>, b: Seq<Line>, wraps: Seq<Option<Seq<usize>>>, at: nat)
    ensures
        wrapped_lines(a + b, wraps, at) == wrapped_lines(a, wraps, at) + wrapped_lines(b, wraps, at + a.len()),
    decreases a.len(),
{
    if a.len() == 0 {
        assert(a + b =~= b);
        assert(wrapped_lines(a, wraps, at) + wrapped_lines(b, wraps, at) =~= wrapped_lines(b, wraps, at));
    } else {
        lemma_wrapped_concat(a.drop_first(), b, wraps, at + 1);
        assert((a + b).drop_first() =~= a.drop_first() + b);
        assert((a + b)[0] == a[0]);
    }
}

/// No wrapping is left from `at` on: no heading region is written.
proof fn lemma_regions_beyond(lines: Seq<Line>, wraps: Seq<Option<Seq<usize>>>, at: nat, row: nat)
    requires
        at >= wraps.len(),
    ensures
        wrapped_regions(lines, wraps, at, row) == Seq::<(usize, SelectedRegion)>::empty(),
    decreases lines.len(),
{
    if lines.len() > 0 {
        lemma_regions_beyond(lines.drop_first(), wraps, at + 1, row);
        assert(pieces_regions(Seq::<Seq<Word>>::empty(), row) == Seq::<(usize, SelectedRegion)>::empty());
    }
}

/// Positions past the wrappings all write the same regions: none.
proof fn lemma_regions_clamped(lines: Seq<Line>, wraps: Seq<Option<Seq<usize>>>, at: nat, cur: nat, row: nat)
    requires
        cur == (if at <= wraps.len() {
            at
        } else {
            wraps.len()
        }),
    ensures
        wrapped_regions(lines, wraps, at, row) == wrapped_regions(lines, wraps, cur, row),
{
    if at > wraps.len() {
        lemma_regions_beyond(lines, wraps, at, row);
        lemma_regions_beyond(lines, wraps, cur, row);
    }
}

/// The regions of two runs of lines wrapped one after the other.
proof fn lemma_regions_concat(a: Seq<Line>, b: Seq<Line>, wraps: Seq<Option<Seq<usize>>>, at: nat, row: nat)
    ensures
        wrapped_regions(a + b, wraps, at, row) == wrapped_regions(a, wraps, at, row) + wrapped_regions(
            b,
            wraps,
            at + a.len(),
            row + wrapped_lines(a, wraps, at).len(),
        ),
    decreases a.len(),
{
    if a.len() == 0 {
        assert(a + b =~= b);
        assert(wrapped_regions(a, wraps, at, row) + wrapped_regions(b, wraps, at, row) =~= wrapped_regions(b, wraps, at, row));
    } else {
        let ps = match wrap_at(wraps, at) {
            Some(lens) => pieces(a[0].words@, lens),
            None => seq![],
        };
        lemma_regions_concat(a.drop_first(), b, wraps, at + 1, row + ps.len());
        assert((a + b).drop_first() =~= a.drop_first() + b);
        assert((a + b)[0] == a[0]);
        assert(pieces_texts(ps).len() == ps.len());
        assert(wrapped_lines(a, wraps, at).len() == ps.len() + wrapped_lines(a.drop_first(), wraps, at + 1).len()) by {
            let first = match wrap_at(wraps, at) {
                Some(lens) => pieces_texts(pieces(a[0].words@, lens)),
                None => seq![],
            };
            assert(first.len() == ps.len());
        }
        assert(wrapped_regions(a + b, wraps, at, row) =~= wrapped_regions(a, wraps, at, row) + wrapped_regions(
            b,
            wraps,
            at + a.len(),
            row + wrapped_lines(a, wraps, at).len(),
        ));
    }
}

/// A copy of the words.
fn clone_words(ws: &Vec<Word>) -> (r: Vec<Word>)
    ensures
        r@ == ws@,
{
    let mut out: Vec<Word> = Vec::new();
    let mut i: usize = 0;
    while i < ws.len()
        invariant
            i <= ws@.len(),
            out@ == ws@.subrange(0, i as int),
        decreases ws@.len() - i,
    {
        out.push(ws[i].clone());
        i = i + 1;
        assert(out@ =~= ws@.subrange(0, i as int));
    }
    assert(ws@.subrange(0, i as int) =~= ws@);
    out
}

/// Each heading's index with the first region it targets; a heading that targets none is
/// left out.
pub open spec fn first_targets(taken: Seq<(usize, crate::ui::markdown::region::TargetRegion)>) -> Seq<(usize, SelectedRegion)>
    decreases taken.len(),
{
    if taken.len() == 0 {
        seq![]
    } else {
        let rest = first_targets(taken.drop_last());
        let last = taken.last();
        if last.1.view_targets().len() > 0 {
            rest.push((last.0, last.1.view_targets()[0]))
        } else {
            rest
        }
    }
}

/// The headings' regions out of the targets: the first target of each.
fn heading_regions(taken: Vec<(usize, crate::ui::markdown::region::TargetRegion)>) -> (r: Vec<(usize, SelectedRegion)>)
    ensures
        r@ == first_targets(taken@),
{
    let mut out: Vec<(usize, SelectedRegion)> = Vec::new();
    let mut i: usize = 0;
    while i < taken.len()
        invariant
            i <= taken@.len(),
            out@ == first_targets(taken@.subrange(0, i as int)),
        decreases taken@.len() - i,
    {
        proof {
            let p = taken@.subrange(0, i + 1);
            assert(p.drop_last() =~= taken@.subrange(0, i as int));
            assert(p.last() == taken@[i as int]);
        }
        let t = taken[i].1.targets();
        if t.len() > 0 {
            out.push((taken[i].0, t[0]));
        }
        i = i + 1;
    }
    assert(taken@.subrange(0, i as int) =~= taken@);
    out
}

impl Blocks {
    /// The lines that go through the wrapping, in the order `write_styled_lines` takes
    /// their wrappings: each block's lines, then those of the footnotes it refers to.
    pub fn lines_to_wrap(&self) -> (r: Vec<Vec<Word>>)
        ensures
            r@.len() == wrap_order(self.blocks@, self.links.footnotes@).len(),
            forall|k: int| 0 <= k < r@.len() ==> (#[trigger] r@[k])@ == wrap_order(self.blocks@, self.links.footnotes@)[k].words@,
    {
        let ghost fs = self.links.footnotes@;
        let mut out: Vec<Vec<Word>> = Vec::new();
        let mut i: usize = 0;
        assert(self.blocks@.skip(0) =~= self.blocks@);
        while i < self.blocks.len()
            invariant
                i <= self.blocks@.len(),
                fs == self.links.footnotes@,
                out@.map_values(|v: Vec<Word>| v@) + wrap_order(self.blocks@.skip(i as int), fs).map_values(|l: Line| l.words@)
                    == wrap_order(self.blocks@, fs).map_values(|l: Line| l.words@),
            decreases self.blocks@.len() - i,
        {
            let b = &self.blocks[i];
            let ghost before = out@.map_values(|v: Vec<Word>| v@);
            let ghost mine = b.lines@ + (if b.footnotes@.len() > 0 {
                footnote_lines(fs, b.footnotes@)
            } else {
                seq![]
            });
            let ghost t0 = out@.map_values(|v: Vec<Word>| v@);
            let mut j: usize = 0;
            while j < b.lines.len()
                invariant
                    j <= b.lines@.len(),
                    out@.map_values(|v: Vec<Word>| v@) == t0 + b.lines@.subrange(0, j as int).map_values(|l: Line| l.words@),
                decreases b.lines@.len() - j,
            {
                let ghost prev = out@;
                out.push(clone_words(&b.lines[j].words));
                proof {
                    assert(out@.map_values(|v: Vec<Word>| v@) =~= prev.map_values(|v: Vec<Word>| v@).push(b.lines@[j as int].words@));
                    assert(b.lines@.subrange(0, j + 1).map_values(|l: Line| l.words@) =~= b.lines@.subrange(0, j as int).map_values(|l: Line| l.words@).push(b.lines@[j as int].words@));
                }
                j = j + 1;
            }
            assert(b.lines@.subrange(0, j as int) =~= b.lines@);
            if b.footnotes.len() > 0 {
                let ghost t1 = out@.map_values(|v: Vec<Word>| v@);
                let mut k: usize = 0;
                assert(b.footnotes@.skip(0) =~= b.footnotes@);
                while k < b.footnotes.len()
                    invariant
                        k <= b.footnotes@.len(),
                        fs == self.links.footnotes@,
                        out@.map_values(|v: Vec<Word>| v@) + footnote_lines(fs, b.footnotes@.skip(k as int)).map_values(|l: Line| l.words@)
                            == t1 + footnote_lines(fs, b.footnotes@).map_values(|l: Line| l.words@),
                    decreases b.footnotes@.len() - k,
                {
                    let ghost keys = b.footnotes@.skip(k as int);
                    let ghost o0 = out@.map_values(|v: Vec<Word>| v@);
                    proof {
                        assert(keys[0] == b.footnotes@[k as int]);
                        assert(keys.drop_first() =~= b.footnotes@.skip(k + 1));
                    }
                    match self.links.get_footnote(b.footnotes[k].as_str()) {
                        Some(fb) => {
                            let mut q: usize = 0;
                            while q < fb.lines.len()
                                invariant
                                    q <= fb.lines@.len(),
                                    out@.map_values(|v: Vec<Word>| v@) == o0 + fb.lines@.subrange(0, q as int).map_values(|l: Line| l.words@),
                                decreases fb.lines@.len() - q,
                            {
                                let ghost prev = out@;
                                out.push(clone_words(&fb.lines[q].words));
                                proof {
                                    assert(out@.map_values(|v: Vec<Word>| v@) =~= prev.map_values(|v: Vec<Word>| v@).push(fb.lines@[q as int].words@));
                                    assert(fb.lines@.subrange(0, q + 1).map_values(|l: Line| l.words@) =~= fb.lines@.subrange(0, q as int).map_values(|l: Line| l.words@).push(fb.lines@[q as int].words@));
                                }
                                q = q + 1;
                            }
                            proof {
                                assert(fb.lines@.subrange(0, q as int) =~= fb.lines@);
                                assert(footnote_lines(fs, keys) == fb.lines@ + footnote_lines(fs, keys.drop_first()));
                                assert((fb.lines@ + footnote_lines(fs, keys.drop_first())).map_values(|l: Line| l.words@)
                                    =~= fb.lines@.map_values(|l: Line| l.words@) + footnote_lines(fs, keys.drop_first()).map_values(|l: Line| l.words@));
                                assert(out@.map_values(|v: Vec<Word>| v@) + footnote_lines(fs, b.footnotes@.skip(k + 1)).map_values(|l: Line| l.words@)
                                    =~= o0 + footnote_lines(fs, keys).map_values(|l: Line| l.words@));
                            }
                        },
                        None => {
                            proof {
                                assert(footnote_lines(fs, keys) =~= footnote_lines(fs, keys.drop_first()));
                            }
                        },
                    }
                    k = k + 1;
                }
                proof {
                    assert(b.footnotes@.skip(k as int).len() == 0);
                }
            }
            proof {
                let rest = self.blocks@.skip(i as int);
                assert(rest[0] == *b);
                assert(rest.drop_first() =~= self.blocks@.skip(i + 1));
                assert(wrap_order(rest, fs) == mine + wrap_order(self.blocks@.skip(i + 1), fs));
                assert((mine + wrap_order(self.blocks@.skip(i + 1), fs)).map_values(|l: Line| l.words@)
                    =~= mine.map_values(|l: Line| l.words@) + wrap_order(self.blocks@.skip(i + 1), fs).map_values(|l: Line| l.words@));
                assert(mine.map_values(|l: Line| l.words@) =~= b.lines@.map_values(|l: Line| l.words@) + (if b.footnotes@.len() > 0 {
                    footnote_lines(fs, b.footnotes@)
                } else {
                    seq![]
                }).map_values(|l: Line| l.words@));
                assert(out@.map_values(|v: Vec<Word>| v@) + wrap_order(self.blocks@.skip(i + 1), fs).map_values(|l: Line| l.words@)
                    =~= before + wrap_order(rest, fs).map_values(|l: Line| l.words@));
            }
            i = i + 1;
        }
        proof {
            assert(self.blocks@.skip(i as int).len() == 0);
            assert(out@.map_values(|v: Vec<Word>| v@) =~= wrap_order(self.blocks@, fs).map_values(|l: Line| l.words@));
            assert forall|k: int| 0 <= k < out@.len() implies (#[trigger] out@[k])@ == wrap_order(self.blocks@, fs)[k].words@ by {
                assert(out@.map_values(|v: Vec<Word>| v@)[k] == out@[k]@);
            }
        }
        out
    }

    /// Write the blocks as styled lines: each block's lines wrapped by the given wrappings
    /// (taken in the order of `lines_to_wrap`; a line without one is not written), its
    /// links, its footnotes, and an empty line; see `doc_lines`. The headings' regions are
    /// set from where their words were written (see `written_heading_regions`), when every
    /// line's width fits in `usize`.
    #[verifier::rlimit(40)]
    pub fn write_styled_lines(&mut self, width: usize, wraps: &Vec<Option<Vec<usize>>>) -> (r: Vec<StyledLine>)
        requires
            width > 0,
        ensures
            lines_written(
                r@,
                doc_lines(old(self).blocks@, old(self).links.footnotes@, strings_view(old(self).links.links@), width as nat, wraps_v(wraps@), 0),
            ),
            final(self).blocks == old(self).blocks,
            final(self).links.links == old(self).links.links,
            final(self).links.footnotes == old(self).links.footnotes,
            final(self).links.heading@.len() == old(self).links.heading@.len(),
            forall|h: int|
                0 <= h < old(self).links.heading@.len() ==> (#[trigger] final(self).links.heading@[h]).0 == old(self).links.heading@[h].0
                    && final(self).links.heading@[h].1 == old(self).links.heading@[h].1,
            all_fit(doc_lines(old(self).blocks@, old(self).links.footnotes@, strings_view(old(self).links.links@), width as nat, wraps_v(wraps@), 0))
                ==> forall|h: int|
                0 <= h < old(self).links.heading@.len() ==> (#[trigger] final(self).links.heading@[h]).2 == region_given(
                    written_heading_regions(old(self).blocks@, old(self).links.footnotes@, strings_view(old(self).links.links@), width as nat, wraps_v(wraps@)),
                    h,
                    old(self).links.heading@[h].2,
                ),
    {
        let ghost fs = self.links.footnotes@;
        let ghost lv = strings_view(self.links.links@);
        let ghost wv = wraps_v(wraps@);
        let ghost total = doc_lines(self.blocks@, fs, lv, width as nat, wv, 0);
        let ghost all_regions = doc_regions(self.blocks@, fs, lv, width as nat, wv, 0, 0);
        let mut wl = WriteLines::new();
        let ghost mut at: nat = 0;
        let mut cur: usize = 0;
        let mut i: usize = 0;
        assert(self.blocks@.skip(0) =~= self.blocks@);
        assert(wl.target@ + total =~= total);
        assert(wl.pushed@ + all_regions =~= all_regions);
        while i < self.blocks.len()
            invariant
                wl.wf(),
                width > 0,
                i <= self.blocks@.len(),
                fs == self.links.footnotes@,
                lv == strings_view(self.links.links@),
                wv == wraps_v(wraps@),
                cur == clamp(at, wraps@.len()),
                wl.target@ + doc_lines(self.blocks@.skip(i as int), fs, lv, width as nat, wv, at) == total,
                wl.pushed@ + doc_regions(self.blocks@.skip(i as int), fs, lv, width as nat, wv, at, wl.target@.len()) == all_regions,
                all_regions == doc_regions(self.blocks@, fs, lv, width as nat, wv, 0, 0),
            decreases self.blocks@.len() - i,
        {
            let ghost t0 = wl.target@;
            let ghost p0 = wl.pushed@;
            let ghost rest = self.blocks@.skip(i as int);
            proof {
                assert(rest[0] == self.blocks@[i as int]);
                assert(rest.drop_first() =~= self.blocks@.skip(i + 1));
            }
            cur = wl.write_block(&self.blocks[i], &self.links, width, wraps, cur, Ghost(at));
            proof {
                let b = self.blocks@[i as int];
                assert(doc_lines(rest, fs, lv, width as nat, wv, at) == block_lines(b, fs, lv, width as nat, wv, at)
                    + doc_lines(self.blocks@.skip(i + 1), fs, lv, width as nat, wv, at + block_wrap_count(b, fs)));
                assert(wl.target@ + doc_lines(self.blocks@.skip(i + 1), fs, lv, width as nat, wv, at + block_wrap_count(b, fs))
                    =~= t0 + doc_lines(rest, fs, lv, width as nat, wv, at));
                assert(doc_regions(rest, fs, lv, width as nat, wv, at, t0.len()) == block_regions(b, fs, lv, width as nat, wv, at, t0.len())
                    + doc_regions(self.blocks@.skip(i + 1), fs, lv, width as nat, wv, at + block_wrap_count(b, fs), t0.len() + block_lines(b, fs, lv, width as nat, wv, at).len()));
                assert(wl.pushed@ + doc_regions(self.blocks@.skip(i + 1), fs, lv, width as nat, wv, at + block_wrap_count(b, fs), wl.target@.len())
                    =~= p0 + doc_regions(rest, fs, lv, width as nat, wv, at, t0.len()));
                at = at + block_wrap_count(b, fs);
            }
            i = i + 1;
        }
        proof {
            assert(self.blocks@.skip(i as int).len() == 0);
            assert(wl.target@ =~= total);
            assert(wl.pushed@ =~= all_regions);
        }
        let WriteLines { lines, mut regions, target, pushed } = wl;
        let taken = regions.take_headings();
        let regs = heading_regions(taken);
        proof {
            lemma_first_targets_view(taken@);
            if all_fit(total) {
                assert(regs@ == written_heading_regions(self.blocks@, fs, lv, width as nat, wv));
            }
        }
        self.links.set_heading_regions(regs);
        lines
    }

}

/// The lengths added up.
pub open spec fn lens_sum(lens: Seq<usize>) -> nat
    decreases lens.len(),
{
    if lens.len() == 0 {
        0
    } else {
        lens[0] as nat + lens_sum(lens.drop_first())
    }
}

/// Cutting a line's words into pieces keeps the words in order: when the lengths cover the
/// words, the pieces put together are the words.
pub proof fn law_pieces_keep_words(words: Seq<Word>, lens: Seq<usize>)
    requires
        lens_sum(lens) >= words.len(),
    ensures
        pieces(words, lens).flatten() == words,
    decreases lens.len(),
{
    if lens.len() == 0 {
        assert(words.len() == 0);
        assert(pieces(words, lens).flatten() =~= words);
    } else {
        let n = if lens[0] <= words.len() {
            lens[0] as int
        } else {
            words.len() as int
        };
        law_pieces_keep_words(words.skip(n), lens.drop_first());
        let ps = pieces(words, lens);
        assert(ps == seq![words.take(n)] + pieces(words.skip(n), lens.drop_first()));
        vstd::seq_lib::lemma_flatten_concat(seq![words.take(n)], pieces(words.skip(n), lens.drop_first()));
        seq![words.take(n)].lemma_flatten_singleton();
        assert(words.take(n) + words.skip(n) =~= words);
    }
}

} // verus!
