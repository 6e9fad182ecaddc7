use vstd::prelude::*;
use crate::style::{Color, Modifier, Style};
use crate::ui::markdown::parse::code_block::{self, fenced_block, rust_block, table_block};
use crate::ui::markdown::parse::events::{
    byte_range_text, element_end, find_element_end, lemma_element_end, markdown_events,
    markdown_events_of, next_after,
    str_range, EventRange, MdEvent, MdTag, MdTagEnd,
};
use crate::ui::markdown::parse::links::{footnote_keys_distinct, footnote_pos, Links};
use crate::ui::markdown::parse::list::{
    add_words_lines, closing, deeper, list_parse, lines_v, parse_paragraph, pstate, words_v,
    PState, WordV,
};
use crate::ui::markdown::parse::meta_tag::MetaTag;
use crate::ui::markdown::parse::word::{all_retagged, retag, Block, Word};
use crate::ui::markdown::region::SelectedRegion;
use crate::util::{str_to_string, string_push_str, strings_view};

verus! {

/// The whole documentation of an item: its blocks, and the links, footnotes and headings
/// they refer to.
pub struct Blocks {
    pub blocks: Vec<Block>,
    pub links: Links,
}

/// A block as its words, link indices and footnote keys.
pub type BlockV = (Seq<Seq<WordV>>, Seq<usize>, Seq<Seq<char>>);

pub open spec fn block_v(b: Block) -> BlockV {
    (lines_v(b.lines@), b.links@, strings_view(b.footnotes@))
}

/// What a top-level element of the doc becomes: words, or a code block or table given by
/// its source (its highlighting is syntect's).
pub enum Planned {
    Words(BlockV),
    Rust(Seq<char>),
    Fenced(Seq<char>, Seq<char>),
    Table(Seq<char>),
}

/// The doc so far: the planned blocks, the links, the footnotes with their blocks, and the
/// headings with their level and raw text.
pub type DocState = (Seq<Planned>, Seq<Seq<char>>, Seq<(Seq<char>, BlockV)>, Seq<(u8, Seq<char>)>);

/// The lines without a last empty one.
pub open spec fn shrink_v(lines: Seq<Seq<WordV>>) -> Seq<Seq<WordV>> {
    if lines.len() > 0 && lines.last().len() == 0 {
        lines.drop_last()
    } else {
        lines
    }
}

/// The lines of blocks without a last empty one.
pub open spec fn shrink_lines(lines: Seq<crate::ui::markdown::parse::word::Line>) -> Seq<crate::ui::markdown::parse::word::Line> {
    if lines.len() > 0 && lines.last().words@.len() == 0 {
        lines.drop_last()
    } else {
        lines
    }
}

/// A word retagged, as `retag` does to a word.
pub open spec fn retag_v(w: WordV, tag: MetaTag, fg: Color, bold: bool) -> WordV {
    (
        w.0,
        if bold {
            Style { fg: Some(fg), add_modifier: Modifier { bits: 1 }, ..w.1 }
        } else {
            Style { fg: Some(fg), ..w.1 }
        },
        tag,
        w.3,
    )
}

pub open spec fn retag_lines(lines: Seq<Seq<WordV>>, tag: MetaTag, fg: Color, bold: bool) -> Seq<Seq<WordV>> {
    lines.map_values(|l: Seq<WordV>| l.map_values(|w: WordV| retag_v(w, tag, fg, bold)))
}

/// `#` repeated.
pub open spec fn hashes(n: nat) -> Seq<char>
    decreases n,
{
    if n == 0 {
        seq![]
    } else {
        hashes((n - 1) as nat).push('#')
    }
}

/// The state a paragraph's parsing starts from: the first words, no link or footnote of the
/// block, and the doc's links.
pub open spec fn fresh(first: Seq<Seq<WordV>>, links: Seq<Seq<char>>) -> PState {
    (first, seq![], seq![], links)
}

/// The position of the footnote with the key.
pub open spec fn footnote_at(fs: Seq<(Seq<char>, BlockV)>, key: Seq<char>) -> Option<int> {
    if exists|i: int| 0 <= i < fs.len() && (#[trigger] fs[i]).0 == key {
        Some(choose|i: int| 0 <= i < fs.len() && (#[trigger] fs[i]).0 == key)
    } else {
        None
    }
}

/// The footnote defined: a definition with the same key is replaced.
pub open spec fn define_footnote(fs: Seq<(Seq<char>, BlockV)>, key: Seq<char>, b: BlockV) -> Seq<(Seq<char>, BlockV)> {
    match footnote_at(fs, key) {
        Some(k) => fs.update(k, (key, b)),
        None => fs.push((key, b)),
    }
}

/// A planned block added.
pub open spec fn push_plan(st: DocState, p: Planned) -> DocState {
    (st.0.push(p), st.1, st.2, st.3)
}

/// A paragraph's or list's parsed state made a block of words, without a last empty line.
pub open spec fn words_plan(p: PState) -> Planned {
    Planned::Words((shrink_v(p.0), p.1, p.2))
}

/// A paragraph parsed into a new block.
pub open spec fn para_step(st: DocState, events: Seq<EventRange>, j: int, e: int) -> DocState {
    let p = list_parse(events, j, e, 0, None, fresh(seq![], st.1)).0;
    (st.0.push(words_plan(p)), p.3, st.2, st.3)
}

/// A list parsed into a new block.
pub open spec fn list_step(st: DocState, events: Seq<EventRange>, j: int, e: int, kind: Option<u64>) -> DocState {
    let p = list_parse(events, j, e, 0, kind, fresh(seq![], st.1)).0;
    (st.0.push(words_plan(p)), p.3, st.2, st.3)
}

/// A heading: `#`s and a space, then its paragraph, all retagged as the heading whose id is
/// its position, light cyan and bold; the heading is recorded with its raw text.
pub open spec fn heading_step(st: DocState, events: Seq<EventRange>, j: int, e: int, level: u8, raw: Seq<char>) -> DocState {
    let first = seq![seq![(hashes(level as nat).push(' '), Style::spec_new(), MetaTag::Normal, false)]];
    let p = list_parse(events, j, e, 0, None, fresh(first, st.1)).0;
    let id = st.3.len() as usize;
    let lines = retag_lines(p.0, MetaTag::Heading(id), Color::LightCyan, true);
    (st.0.push(words_plan((lines, p.1, p.2, p.3))), p.3, st.2, st.3.push((level, raw)))
}

/// A quote: its paragraph retagged as a quote block in orchid.
pub open spec fn quote_step(st: DocState, events: Seq<EventRange>, j: int, e: int) -> DocState {
    let p = list_parse(events, j, e, 0, None, fresh(seq![], st.1)).0;
    let lines = retag_lines(p.0, MetaTag::QuoteBlock, Color::Rgb(186, 85, 211), false);
    (st.0.push(words_plan((lines, p.1, p.2, p.3))), p.3, st.2, st.3)
}

pub open spec fn spec_footnote_style() -> Style {
    Style { fg: Some(Color::LightMagenta), ..Style::spec_new() }
}

/// A footnote definition: `[^key]: ` then its paragraph, retagged as a footnote source in
/// light magenta, defined under the key; it makes no block of the doc.
pub open spec fn footnote_step(st: DocState, events: Seq<EventRange>, j: int, e: int, key: Seq<char>) -> DocState {
    let head = seq!['[', '^'] + key + seq![']', ':', ' '];
    let first = seq![seq![(head, spec_footnote_style(), MetaTag::FootnoteSource, false)]];
    let p = list_parse(events, j, e, 0, None, fresh(first, st.1)).0;
    let lines = retag_lines(p.0, MetaTag::FootnoteSource, Color::LightMagenta, false);
    (st.0, p.3, define_footnote(st.2, key, (lines, p.1, p.2)), st.3)
}

/// The rule block: one empty word tagged as a rule.
pub open spec fn rule_plan() -> Planned {
    Planned::Words((seq![seq![(seq![], Style::spec_new(), MetaTag::Rule, false)]], seq![], seq![]))
}

/// Where the events go on after one more is taken.
pub open spec fn one_after(j: int, hi: int) -> int {
    if j < hi {
        j + 1
    } else {
        hi
    }
}

/// The doc parsed from event `i` on, `None` when a heading's or a table's byte range does not
/// lie on the doc's character boundaries.
///
/// Paragraphs, lists, headings and quotes become blocks of words (see `list_parse`); indented
/// and fenced code blocks take the text event that follows their start; tables take their
/// source; a rule is a block of its own; a footnote definition with a paragraph is recorded
/// under its key. A quote or a footnote definition that does not start with a paragraph is
/// skipped with the event after it; other events are skipped.
pub open spec fn doc_parse(doc: Seq<char>, events: Seq<EventRange>, i: int, st: DocState) -> Option<DocState>
    decreases events.len() - i,
{
    let hi = events.len() as int;
    if i >= hi || i < 0 {
        Some(st)
    } else {
        let ev = events[i];
        let j = i + 1;
        match ev.event {
            MdEvent::Rule => doc_parse(doc, events, j, push_plan(st, rule_plan())),
            MdEvent::Start(t) => {
                let e = element_end(events, j, hi, closing(t), ev.start, ev.end);
                proof {
                    lemma_element_end(events, j, hi, closing(t), ev.start, ev.end);
                }
                let n = next_after(e, hi);
                match t {
                    MdTag::Paragraph => doc_parse(doc, events, n, para_step(st, events, j, e)),
                    MdTag::List(k) => doc_parse(doc, events, n, list_step(st, events, j, e, k)),
                    MdTag::Heading(level) => match byte_range_text(doc, ev.start as nat, ev.end as nat) {
                        Some(raw) => doc_parse(doc, events, n, heading_step(st, events, j, e, level, raw)),
                        None => None,
                    },
                    MdTag::Table => match byte_range_text(doc, ev.start as nat, ev.end as nat) {
                        Some(text) => doc_parse(doc, events, n, push_plan(st, Planned::Table(text))),
                        None => None,
                    },
                    MdTag::CodeBlockIndented => {
                        let next = if j < hi && events[j].event is Text {
                            push_plan(st, Planned::Rust(events[j].event->Text_0@))
                        } else {
                            st
                        };
                        doc_parse(doc, events, one_after(j, hi), next)
                    },
                    MdTag::CodeBlockFenced(fence) => {
                        let next = if j < hi && events[j].event is Text {
                            push_plan(st, Planned::Fenced(fence@, events[j].event->Text_0@))
                        } else {
                            st
                        };
                        doc_parse(doc, events, one_after(j, hi), next)
                    },
                    MdTag::BlockQuote | MdTag::FootnoteDefinition(_) => {
                        if j < hi && events[j].event == MdEvent::Start(MdTag::Paragraph) {
                            let e2 = element_end(events, j + 1, hi, MdTagEnd::Paragraph, events[j].start, events[j].end);
                            proof {
                                lemma_element_end(events, j + 1, hi, MdTagEnd::Paragraph, events[j].start, events[j].end);
                            }
                            let next = match t {
                                MdTag::FootnoteDefinition(key) => footnote_step(st, events, j + 1, e2, key@),
                                _ => quote_step(st, events, j + 1, e2),
                            };
                            doc_parse(doc, events, next_after(e2, hi), next)
                        } else {
                            doc_parse(doc, events, one_after(j, hi), st)
                        }
                    },
                    _ => doc_parse(doc, events, j, st),
                }
            },
            _ => doc_parse(doc, events, j, st),
        }
    }
}

/// The block is one that a code block of the plan gives, without a last empty line.
pub open spec fn shrunk_from(b: Block, c: Block) -> bool {
    &&& b.lines@ == shrink_lines(c.lines@)
    &&& b.links == c.links
    &&& b.footnotes == c.footnotes
}

/// The block is what the plan says.
pub open spec fn planned_block(p: Planned, b: Block) -> bool {
    match p {
        Planned::Words(v) => block_v(b) == v,
        Planned::Rust(code) => exists|c: Block| #[trigger] rust_block(code, c) && shrunk_from(b, c),
        Planned::Fenced(fence, code) => exists|c: Block| #[trigger] fenced_block(fence, code, c) && shrunk_from(b, c),
        Planned::Table(text) => exists|c: Block| #[trigger] table_block(text, c) && shrunk_from(b, c),
    }
}

pub open spec fn footnotes_v(fs: Seq<(String, Block)>) -> Seq<(Seq<char>, BlockV)> {
    fs.map_values(|f: (String, Block)| (f.0@, block_v(f.1)))
}

pub open spec fn headings_v(hs: Seq<(u8, String, SelectedRegion)>) -> Seq<(u8, Seq<char>)> {
    hs.map_values(|h: (u8, String, SelectedRegion)| (h.0, h.1@))
}

/// The doc's links are the state's: links, footnotes (each key once) and headings (with no
/// region yet).
pub open spec fn links_match(l: Links, st: DocState) -> bool {
    &&& strings_view(l.links@) == st.1
    &&& footnotes_v(l.footnotes@) == st.2
    &&& footnote_keys_distinct(l.footnotes@)
    &&& headings_v(l.heading@) == st.3
    &&& forall|h: int| 0 <= h < l.heading@.len() ==> (#[trigger] l.heading@[h]).2 == SelectedRegion::default_spec()
}

/// The blocks are those of the state.
pub open spec fn doc_match(b: Blocks, st: DocState) -> bool {
    &&& b.blocks@.len() == st.0.len()
    &&& forall|k: int| 0 <= k < st.0.len() ==> planned_block(st.0[k], #[trigger] b.blocks@[k])
    &&& links_match(b.links, st)
}

pub open spec fn empty_doc() -> DocState {
    (seq![], seq![], seq![], seq![])
}

impl Blocks {
    pub fn new() -> (r: Blocks)
        ensures
            r.blocks@.len() == 0,
            r.links.heading@.len() == 0,
            r.links.links@.len() == 0,
            r.links.footnotes@.len() == 0,
    {
        Blocks { blocks: Vec::new(), links: Links::new() }
    }

    /// Append a block.
    pub fn push(&mut self, block: Block)
        ensures
            final(self).blocks@ == old(self).blocks@.push(block),
            final(self).links == old(self).links,
    {
        self.blocks.push(block);
    }

    /// The doc's links, footnotes and headings, to change.
    pub fn links(&mut self) -> (r: &mut Links)
        ensures
            *r == old(self).links,
            final(self).links == *final(r),
            final(self).blocks == old(self).blocks,
    {
        &mut self.links
    }

    /// Drop the last empty line of each block.
    pub fn shrink_to_fit(&mut self)
        ensures
            final(self).blocks@.len() == old(self).blocks@.len(),
            forall|k: int|
                0 <= k < old(self).blocks@.len() ==> shrunk_from(#[trigger] final(self).blocks@[k], old(self).blocks@[k]),
            final(self).links == old(self).links,
    {
        let n = self.blocks.len();
        let mut i: usize = 0;
        while i < n
            invariant
                n == self.blocks@.len(),
                n == old(self).blocks@.len(),
                i <= n,
                forall|k: int| 0 <= k < i ==> shrunk_from(#[trigger] self.blocks@[k], old(self).blocks@[k]),
                forall|k: int| i <= k < n ==> #[trigger] self.blocks@[k] == old(self).blocks@[k],
                self.links == old(self).links,
            decreases n - i,
        {
            let mut b = self.blocks.remove(i);
            b.shrink_to_fit();
            self.blocks.insert(i, b);
            i = i + 1;
        }
    }
}

/// A shrunk block of words is the shrunk view.
proof fn lemma_shrink_v(before: Block, after: Block)
    requires
        after.lines@ == shrink_lines(before.lines@),
        after.links == before.links,
        after.footnotes == before.footnotes,
    ensures
        block_v(after) == (shrink_v(lines_v(before.lines@)), before.links@, strings_view(before.footnotes@)),
{
    if before.lines@.len() > 0 && before.lines@.last().words@.len() == 0 {
        assert(lines_v(after.lines@) =~= lines_v(before.lines@).drop_last());
    }
}

/// Retagging every word is retagging the view.
proof fn lemma_retag_v(before: Block, after: Block, tag: MetaTag, fg: Color, bold: bool)
    requires
        all_retagged(before, after, tag, fg, bold),
    ensures
        lines_v(after.lines@) == retag_lines(lines_v(before.lines@), tag, fg, bold),
        after.links == before.links,
        after.footnotes == before.footnotes,
{
    let a = lines_v(after.lines@);
    let r = retag_lines(lines_v(before.lines@), tag, fg, bold);
    assert forall|i: int| 0 <= i < a.len() implies a[i] == r[i] by {
        let aw = after.lines@[i].words@;
        let bw = before.lines@[i].words@;
        assert(aw == bw.map_values(|w: Word| retag(w, tag, fg, bold)));
        assert(a[i] =~= r[i]);
    }
    assert(a =~= r);
}

/// Finds the first event after the start of an element that is its end.
fn end_of(events: &Vec<EventRange>, i: usize, t: &MdTag) -> (e: usize)
    requires
        i < events@.len(),
    ensures
        e == element_end(events@, i + 1, events@.len() as int, closing(*t), events@[i as int].start, events@[i as int].end),
        i + 1 <= e <= events@.len(),
{
    let end_tag = match t {
        MdTag::Paragraph => MdTagEnd::Paragraph,
        MdTag::Heading(l) => MdTagEnd::Heading(*l),
        MdTag::Table => MdTagEnd::Table,
        MdTag::List(k) => MdTagEnd::List(k.is_some()),
        MdTag::Item => MdTagEnd::Item,
        MdTag::Emphasis => MdTagEnd::Emphasis,
        MdTag::Strong => MdTagEnd::Strong,
        MdTag::Strikethrough => MdTagEnd::Strikethrough,
        MdTag::Link(_) => MdTagEnd::Link,
        MdTag::Image(_) => MdTagEnd::Image,
        _ => MdTagEnd::Other,
    };
    let n = events.len();
    find_element_end(events, i + 1, n, end_tag, events[i].start, events[i].end)
}

/// A code block or table, shrunk, is as planned.
proof fn lemma_code_planned(p: Planned, b: Block, c: Block)
    requires
        shrunk_from(b, c),
        match p {
            Planned::Rust(code) => rust_block(code, c),
            Planned::Fenced(fence, code) => fenced_block(fence, code, c),
            Planned::Table(text) => table_block(text, c),
            Planned::Words(_) => false,
        },
    ensures
        planned_block(p, b),
{
    match p {
        Planned::Rust(code) => {
            assert(rust_block(code, c) && shrunk_from(b, c));
        },
        Planned::Fenced(fence, code) => {
            assert(fenced_block(fence, code, c) && shrunk_from(b, c));
        },
        Planned::Table(text) => {
            assert(table_block(text, c) && shrunk_from(b, c));
        },
        Planned::Words(_) => {},
    }
}

/// A block pushed as planned keeps the blocks before as planned.
proof fn lemma_push_planned(before: Seq<Block>, after: Seq<Block>, plan: Seq<Planned>, p: Planned)
    requires
        before.len() == plan.len(),
        forall|k: int| 0 <= k < plan.len() ==> planned_block(plan[k], #[trigger] before[k]),
        after == before.push(after.last()),
        planned_block(p, after.last()),
    ensures
        after.len() == plan.push(p).len(),
        forall|k: int| 0 <= k < plan.push(p).len() ==> planned_block(plan.push(p)[k], #[trigger] after[k]),
{
    assert forall|k: int| 0 <= k < plan.push(p).len() implies planned_block(plan.push(p)[k], #[trigger] after[k]) by {
        if k < plan.len() {
            assert(after[k] == before[k]);
            assert(planned_block(plan[k], before[k]));
        }
    }
}

/// Defining a footnote through `Links::push_footnote` defines it in the view.
proof fn lemma_define_footnote(before: Seq<(String, Block)>, after: Seq<(String, Block)>, key: Seq<char>, value: Block)
    requires
        footnote_keys_distinct(before),
        footnote_pos(before, key) matches Some(k) ==> after == before.update(k, (after[k].0, value))
            && after[k].0@ == key,
        footnote_pos(before, key) is None ==> after.len() == before.len() + 1 && after.drop_last()
            == before && after.last().0@ == key && after.last().1 == value,
    ensures
        footnotes_v(after) == define_footnote(footnotes_v(before), key, block_v(value)),
{
    let fv = footnotes_v(before);
    match footnote_pos(before, key) {
        Some(k) => {
            let k1 = choose|i: int| 0 <= i < before.len() && (#[trigger] before[i]).0@ == key;
            assert(0 <= k < before.len() && before[k].0@ == key);
            assert(fv[k].0 == key);
            let k2 = choose|i: int| 0 <= i < fv.len() && (#[trigger] fv[i]).0 == key;
            assert(fv[k2].0 == before[k2].0@);
            assert(k2 == k) by {
                if k2 < k {
                    assert(before[k2].0@ != before[k].0@);
                } else if k < k2 {
                    assert(before[k].0@ != before[k2].0@);
                }
            }
            assert(footnotes_v(after) =~= fv.update(k, (key, block_v(value))));
        },
        None => {
            assert(!exists|i: int| 0 <= i < fv.len() && (#[trigger] fv[i]).0 == key) by {
                if exists|i: int| 0 <= i < fv.len() && (#[trigger] fv[i]).0 == key {
                    let i = choose|i: int| 0 <= i < fv.len() && (#[trigger] fv[i]).0 == key;
                    assert(before[i].0@ == key);
                }
            }
            assert(after =~= before.push(after.last()));
            assert(footnotes_v(after) =~= fv.push((key, block_v(value))));
        },
    }
}

/// A heading recorded at the end keeps the views of the others.
proof fn lemma_push_heading(before: Seq<(u8, String, SelectedRegion)>, after: Seq<(u8, String, SelectedRegion)>, level: u8, raw: Seq<char>)
    requires
        after.len() == before.len() + 1,
        after.drop_last() == before,
        after.last().0 == level,
        after.last().1@ == raw,
        after.last().2 == SelectedRegion::default_spec(),
        forall|h: int| 0 <= h < before.len() ==> (#[trigger] before[h]).2 == SelectedRegion::default_spec(),
    ensures
        headings_v(after) == headings_v(before).push((level, raw)),
        forall|h: int| 0 <= h < after.len() ==> (#[trigger] after[h]).2 == SelectedRegion::default_spec(),
{
    assert(after =~= before.push(after.last()));
    assert(headings_v(after) =~= headings_v(before).push((level, raw)));
    assert forall|h: int| 0 <= h < after.len() implies (#[trigger] after[h]).2 == SelectedRegion::default_spec() by {
        if h < before.len() {
            assert(after[h] == before[h]);
        }
    }
}

/// `#` repeated.
fn sharps(level: u8) -> (r: String)
    ensures
        r@ == hashes(level as nat).push(' '),
{
    let mut s = String::new();
    let mut n: u8 = 0;
    while n < level
        invariant
            n <= level,
            s@ == hashes(n as nat),
        decreases level - n,
    {
        string_push_str(&mut s, "#");
        proof {
            reveal_strlit("#");
            assert(s@ =~= hashes((n + 1) as nat));
        }
        n = n + 1;
    }
    string_push_str(&mut s, " ");
    proof {
        reveal_strlit(" ");
        assert(s@ =~= hashes(level as nat).push(' '));
    }
    s
}

/// A paragraph's (or a list's) events parsed into a new block that starts with the given
/// lines.
fn para_block(events: &Vec<EventRange>, j: usize, e: usize, first: Vec<crate::ui::markdown::parse::word::Line>, kind: Option<u64>, links: &mut Links) -> (r: Block)
    requires
        j <= e <= events@.len(),
    ensures
        pstate(r, *final(links)) == list_parse(events@, j as int, e as int, 0, kind, fresh(lines_v(first@), strings_view(old(links).links@))).0,
        final(links).heading == old(links).heading,
        final(links).footnotes == old(links).footnotes,
{
    let mut block = Block::from_lines(first);
    let mut level: u8 = 0;
    assert(pstate(block, *links) =~= fresh(lines_v(first@), strings_view(links.links@)));
    crate::ui::markdown::parse::list::parse(&mut level, kind, events, j, e, &mut block, links);
    block
}

/// The doc's blocks, links, footnotes and headings from its events; `None` when a heading's
/// or a table's byte range does not lie on the doc's character boundaries.
pub fn parse_events(doc: &str, events: &Vec<EventRange>) -> (r: Option<Blocks>)
    ensures
        match doc_parse(doc@, events@, 0, empty_doc()) {
            Some(st) => r matches Some(b) && doc_match(b, st),
            None => r is None,
        },
{
    let hi = events.len();
    let mut blocks = Blocks::new();
    let ghost mut st = empty_doc();
    proof {
        assert(footnotes_v(blocks.links.footnotes@) =~= st.2);
        assert(headings_v(blocks.links.heading@) =~= st.3);
        assert(strings_view(blocks.links.links@) =~= st.1);
    }
    let mut i: usize = 0;
    while i < hi
        invariant
            i <= hi == events@.len(),
            doc_parse(doc@, events@, i as int, st) == doc_parse(doc@, events@, 0, empty_doc()),
            doc_match(blocks, st),
        decreases hi - i,
    {
        let j = i + 1;
        let ev = &events[i];
        match &ev.event {
            MdEvent::Rule => {
                let w = Word { word: String::new(), style: Style::new(), tag: MetaTag::Rule, trailling_whitespace: false };
                let mut ws: Vec<Word> = Vec::new();
                ws.push(w);
                let b = Block::from_words(ws);
                proof {
                    assert(b.lines@[0].words@ == seq![w]);
                    assert(words_v(b.lines@[0].words@) =~= seq![(seq![], Style::spec_new(), MetaTag::Rule, false)]);
                    assert(lines_v(b.lines@) =~= seq![seq![(seq![], Style::spec_new(), MetaTag::Rule, false)]]);
                    assert(b.links@ =~= Seq::<usize>::empty());
                    assert(strings_view(b.footnotes@) =~= Seq::<Seq<char>>::empty());
                }
                let ghost before = blocks;
                blocks.push(b);
                proof {
                    lemma_push_planned(before.blocks@, blocks.blocks@, st.0, rule_plan());
                    st = push_plan(st, rule_plan());
                }
                i = j;
            },
            MdEvent::Start(t) => {
                let e = end_of(events, i, t);
                let n = if e < hi { e + 1 } else { hi };
                match t {
                    MdTag::Paragraph | MdTag::List(_) => {
                        let kind = match t {
                            MdTag::List(k) => *k,
                            _ => None,
                        };
                        let ghost l0 = strings_view(blocks.links.links@);
                        let mut b = para_block(events, j, e, Vec::new(), kind, &mut blocks.links);
                        let ghost p = pstate(b, blocks.links);
                        proof {
                            assert(lines_v(Seq::<crate::ui::markdown::parse::word::Line>::empty()) =~= seq![]);
                        }
                        let ghost b0 = b;
                        b.shrink_to_fit();
                        proof {
                            lemma_shrink_v(b0, b);
                        }
                        let ghost before = blocks;
                        blocks.push(b);
                        proof {
                            lemma_push_planned(before.blocks@, blocks.blocks@, st.0, words_plan(p));
                            st = (st.0.push(words_plan(p)), p.3, st.2, st.3);
                        }
                        i = n;
                    },
                    MdTag::Heading(level) => {
                        let raw = match str_range(doc, ev.start, ev.end) {
                            Some(raw) => raw,
                            None => {
                                return None;
                            },
                        };
                        let mut first: Vec<crate::ui::markdown::parse::word::Line> = Vec::new();
                        let mut ws: Vec<Word> = Vec::new();
                        ws.push(Word::plain(sharps(*level)));
                        first.push(crate::ui::markdown::parse::word::Line { words: ws });
                        let ghost first_v = lines_v(first@);
                        proof {
                            assert(first_v =~= seq![seq![(hashes(*level as nat).push(' '), Style::spec_new(), MetaTag::Normal, false)]]) by {
                                assert(words_v(first@[0].words@) =~= seq![(hashes(*level as nat).push(' '), Style::spec_new(), MetaTag::Normal, false)]);
                            }
                        }
                        let mut b = para_block(events, j, e, first, None, &mut blocks.links);
                        let ghost p = pstate(b, blocks.links);
                        let ghost h0 = blocks.links.heading@;
                        let id = blocks.links.push_heading(*level, raw);
                        proof {
                            lemma_push_heading(h0, blocks.links.heading@, *level, raw@);
                            assert(id == st.3.len());
                        }
                        let ghost b1 = b;
                        b.set_heading(id);
                        proof {
                            lemma_retag_v(b1, b, MetaTag::Heading(id), Color::LightCyan, true);
                        }
                        let ghost b0 = b;
                        b.shrink_to_fit();
                        proof {
                            lemma_shrink_v(b0, b);
                        }
                        let ghost before = blocks;
                        blocks.push(b);
                        let ghost lines = retag_lines(p.0, MetaTag::Heading(id), Color::LightCyan, true);
                        proof {
                            lemma_push_planned(before.blocks@, blocks.blocks@, st.0, words_plan((lines, p.1, p.2, p.3)));
                            st = heading_step(st, events@, j as int, e as int, *level, raw@);
                        }
                        i = n;
                    },
                    MdTag::Table => {
                        let text = match str_range(doc, ev.start, ev.end) {
                            Some(text) => text,
                            None => {
                                return None;
                            },
                        };
                        let c = code_block::md_table(text);
                        let mut b = c;
                        b.shrink_to_fit();
                        let ghost before = blocks;
                        blocks.push(b);
                        proof {
                            assert(table_block(text@, c) && shrunk_from(b, c));
                            assert(blocks.blocks@.last() == b);
                            lemma_code_planned(Planned::Table(text@), b, c);
                            lemma_push_planned(before.blocks@, blocks.blocks@, st.0, Planned::Table(text@));
                            st = push_plan(st, Planned::Table(text@));
                        }
                        i = n;
                    },
                    MdTag::CodeBlockIndented | MdTag::CodeBlockFenced(_) => {
                        if j < hi {
                            match &events[j].event {
                                MdEvent::Text(code) => {
                                    let ghost plan = match t {
                                        MdTag::CodeBlockFenced(fence) => Planned::Fenced(fence@, code@),
                                        _ => Planned::Rust(code@),
                                    };
                                    let c = match t {
                                        MdTag::CodeBlockFenced(fence) => {
                                            let mut lang = str_to_string(fence.as_str());
                                            code_block::parse(&mut lang, code.as_str())
                                        },
                                        _ => code_block::rust(code.as_str()),
                                    };
                                    let mut b = c;
                                    b.shrink_to_fit();
                                    let ghost before = blocks;
                                    blocks.push(b);
                                    proof {
                                        match t {
                                            MdTag::CodeBlockFenced(fence) => {
                                                assert(fenced_block(fence@, code@, c) && shrunk_from(b, c));
                                            },
                                            _ => {
                                                assert(rust_block(code@, c) && shrunk_from(b, c));
                                            },
                                        }
                                        assert(blocks.blocks@.last() == b);
                                        lemma_code_planned(plan, b, c);
                                        lemma_push_planned(before.blocks@, blocks.blocks@, st.0, plan);
                                        st = push_plan(st, plan);
                                    }
                                },
                                _ => {},
                            }
                            i = j + 1;
                        } else {
                            i = hi;
                        }
                    },
                    MdTag::BlockQuote | MdTag::FootnoteDefinition(_) => {
                        let starts_para = j < hi && match &events[j].event {
                            MdEvent::Start(MdTag::Paragraph) => true,
                            _ => false,
                        };
                        if starts_para {
                            let e2 = end_of(events, j, &MdTag::Paragraph);
                            match t {
                                MdTag::FootnoteDefinition(key) => {
                                    let mut head = String::new();
                                    string_push_str(&mut head, "[^");
                                    string_push_str(&mut head, key.as_str());
                                    string_push_str(&mut head, "]: ");
                                    proof {
                                        reveal_strlit("[^");
                                        reveal_strlit("]: ");
                                    }
                                    let ghost head_v = head@;
                                    let mut first: Vec<crate::ui::markdown::parse::word::Line> = Vec::new();
                                    let mut ws: Vec<Word> = Vec::new();
                                    ws.push(Word { word: head, style: Style::new().fg(Color::LightMagenta), tag: MetaTag::FootnoteSource, trailling_whitespace: false });
                                    first.push(crate::ui::markdown::parse::word::Line { words: ws });
                                    proof {
                                        assert(lines_v(first@) =~= seq![seq![(seq!['[', '^'] + key@ + seq![']', ':', ' '], spec_footnote_style(), MetaTag::FootnoteSource, false)]]) by {
                                            assert(head_v =~= seq!['[', '^'] + key@ + seq![']', ':', ' ']);
                                            assert(words_v(first@[0].words@) =~= seq![(seq!['[', '^'] + key@ + seq![']', ':', ' '], spec_footnote_style(), MetaTag::FootnoteSource, false)]);
                                        }
                                    }
                                    let mut b = para_block(events, j + 1, e2, first, None, &mut blocks.links);
                                    let ghost p = pstate(b, blocks.links);
                                    let ghost b1 = b;
                                    b.set_foot_note();
                                    proof {
                                        lemma_retag_v(b1, b, MetaTag::FootnoteSource, Color::LightMagenta, false);
                                    }
                                    let ghost f0 = blocks.links.footnotes@;
                                    blocks.links.push_footnote(key.as_str(), b);
                                    proof {
                                        lemma_define_footnote(f0, blocks.links.footnotes@, key@, b);
                                        st = footnote_step(st, events@, j + 1, e2 as int, key@);
                                    }
                                },
                                _ => {
                                    let mut b = para_block(events, j + 1, e2, Vec::new(), None, &mut blocks.links);
                                    proof {
                                        assert(lines_v(Seq::<crate::ui::markdown::parse::word::Line>::empty()) =~= seq![]);
                                    }
                                    let ghost p = pstate(b, blocks.links);
                                    let ghost b1 = b;
                                    b.set_quote_block();
                                    proof {
                                        lemma_retag_v(b1, b, MetaTag::QuoteBlock, Color::Rgb(186, 85, 211), false);
                                    }
                                    let ghost b0 = b;
                                    b.shrink_to_fit();
                                    proof {
                                        lemma_shrink_v(b0, b);
                                    }
                                    let ghost before = blocks;
                                    blocks.push(b);
                                    let ghost lines = retag_lines(p.0, MetaTag::QuoteBlock, Color::Rgb(186, 85, 211), false);
                                    proof {
                                        lemma_push_planned(before.blocks@, blocks.blocks@, st.0, words_plan((lines, p.1, p.2, p.3)));
                                        st = quote_step(st, events@, j + 1, e2 as int);
                                    }
                                },
                            }
                            i = if e2 < hi { e2 + 1 } else { hi };
                        } else {
                            i = if j < hi { j + 1 } else { hi };
                        }
                    },
                    _ => {
                        i = j;
                    },
                }
            },
            _ => {
                i = j;
            },
        }
    }
    Some(blocks)
}

/// Parse a markdown doc into blocks: see `doc_parse`, on the events that `pulldown_cmark`
/// gives. An empty doc has no blocks. `None` when a heading's or a table's byte range from
/// `pulldown_cmark` does not lie on the doc's character boundaries.
pub fn parse(doc: &str) -> (r: Option<Blocks>)
    ensures
        doc@.len() == 0 ==> (r matches Some(b) && doc_match(b, empty_doc())),
        doc@.len() > 0 ==> match doc_parse(doc@, markdown_events_of(doc@), 0, empty_doc()) {
            Some(st) => r matches Some(b) && doc_match(b, st),
            None => r is None,
        },
{
    if doc.unicode_len() == 0 {
        let b = Blocks::new();
        proof {
            assert(footnotes_v(b.links.footnotes@) =~= empty_doc().2);
            assert(headings_v(b.links.heading@) =~= empty_doc().3);
            assert(strings_view(b.links.links@) =~= empty_doc().1);
        }
        return Some(b);
    }
    let events = markdown_events(doc);
    parse_events(doc, &events)
}

/// The keys of the footnotes are distinct.
pub open spec fn keys_distinct(fs: Seq<(Seq<char>, BlockV)>) -> bool {
    forall|i: int, j: int| 0 <= i < j < fs.len() ==> (#[trigger] fs[i]).0 != (#[trigger] fs[j]).0
}

/// A footnote defined again replaces the earlier definition: the last one wins, and the keys
/// stay distinct.
pub proof fn law_define_footnote_twice(fs: Seq<(Seq<char>, BlockV)>, key: Seq<char>, a: BlockV, b: BlockV)
    requires
        keys_distinct(fs),
    ensures
        define_footnote(define_footnote(fs, key, a), key, b) == define_footnote(fs, key, b),
        keys_distinct(define_footnote(fs, key, b)),
{
    let f1 = define_footnote(fs, key, a);
    match footnote_at(fs, key) {
        Some(k) => {
            assert(f1[k].0 == key);
            let k2 = choose|i: int| 0 <= i < f1.len() && (#[trigger] f1[i]).0 == key;
            assert(k2 == k) by {
                if k2 != k {
                    assert(fs[k2].0 == key);
                    if k2 < k {
                        assert(fs[k2].0 != fs[k].0);
                    } else {
                        assert(fs[k].0 != fs[k2].0);
                    }
                }
            }
            assert(f1.update(k, (key, b)) =~= fs.update(k, (key, b)));
            let r = fs.update(k, (key, b));
            assert forall|i: int, j: int| 0 <= i < j < r.len() implies (#[trigger] r[i]).0 != (#[trigger] r[j]).0 by {
                assert(r[i].0 == fs[i].0);
                assert(r[j].0 == fs[j].0);
            }
        },
        None => {
            let n = fs.len() as int;
            assert(f1[n].0 == key);
            let k2 = choose|i: int| 0 <= i < f1.len() && (#[trigger] f1[i]).0 == key;
            assert(k2 == n) by {
                if k2 < n {
                    assert(fs[k2].0 == key);
                }
            }
            assert(f1.update(n, (key, b)) =~= fs.push((key, b)));
            let r = fs.push((key, b));
            assert forall|i: int, j: int| 0 <= i < j < r.len() implies (#[trigger] r[i]).0 != (#[trigger] r[j]).0 by {
                if j == n {
                    assert(r[i] == fs[i]);
                    assert(fs[i].0 != key);
                } else {
                    assert(r[i] == fs[i]);
                    assert(r[j] == fs[j]);
                }
            }
        },
    }
}

/// The text of blocks: each block's lines, then an empty line.
pub open spec fn blocks_text(bs: Seq<Block>) -> Seq<char>
    decreases bs.len(),
{
    if bs.len() == 0 {
        seq![]
    } else {
        blocks_text(bs.drop_last()) + crate::ui::markdown::parse::word::lines_text(bs.last().lines@).push('\n')
    }
}

impl Blocks {
    /// Each block's lines, then an empty line.
    pub fn to_string(&self) -> (r: String)
        ensures
            r@ == blocks_text(self.blocks@),
    {
        let mut s = String::new();
        let mut i: usize = 0;
        while i < self.blocks.len()
            invariant
                i <= self.blocks@.len(),
                s@ == blocks_text(self.blocks@.subrange(0, i as int)),
            decreases self.blocks@.len() - i,
        {
            let b = self.blocks[i].to_string();
            string_push_str(&mut s, b.as_str());
            crate::util::string_push(&mut s, '\n');
            proof {
                let p = self.blocks@.subrange(0, i + 1);
                assert(p.drop_last() =~= self.blocks@.subrange(0, i as int));
                assert(p.last() == self.blocks@[i as int]);
            }
            i = i + 1;
        }
        assert(self.blocks@.subrange(0, i as int) =~= self.blocks@);
        s
    }
}

} // verus!
