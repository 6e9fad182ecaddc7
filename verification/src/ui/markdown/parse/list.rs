use vstd::prelude::*;
use crate::style::{Color, Modifier, Style};
use crate::ui::markdown::parse::events::{
    element_end, find_element_end, lemma_element_end, next_after, EventRange, MdEvent, MdTag,
    MdTagEnd,
};
use crate::ui::markdown::parse::links::{link_pos, spec_link_style, link_style, Links};
use crate::ui::markdown::parse::meta_tag::{LinkTag, MetaTag};
use crate::ui::markdown::parse::segment::{
    line_segments, segment_str, spec_segment_words,
};
use crate::ui::markdown::parse::word::{
    last_words, prefix_lines, segmented_added, words_added, Block, Line, Word,
};
use crate::util::{decimal, spec_decimal, str_to_string, string_push_str, strings_view};

verus! {

/// A word as the parsing sees it: text, style, tag, and whether a whitespace follows.
pub type WordV = (Seq<char>, Style, MetaTag, bool);

pub open spec fn word_v(w: Word) -> WordV {
    (w.word@, w.style, w.tag, w.trailling_whitespace)
}

pub open spec fn words_v(ws: Seq<Word>) -> Seq<WordV> {
    ws.map_values(|w: Word| word_v(w))
}

pub open spec fn lines_v(ls: Seq<Line>) -> Seq<Seq<WordV>> {
    ls.map_values(|l: Line| words_v(l.words@))
}

/// What the parsing of a block changes: the block's lines of words, its link indices and
/// footnote keys, and the doc's links.
pub type PState = (Seq<Seq<WordV>>, Seq<usize>, Seq<Seq<char>>, Seq<Seq<char>>);

pub open spec fn pstate(b: Block, l: Links) -> PState {
    (lines_v(b.lines@), b.links@, strings_view(b.footnotes@), strings_view(l.links@))
}

/// The words appended to the last line, made if there is none.
pub open spec fn add_words_lines(lines: Seq<Seq<WordV>>, ws: Seq<WordV>) -> Seq<Seq<WordV>> {
    if lines.len() == 0 {
        seq![ws]
    } else {
        lines.drop_last().push(lines.last() + ws)
    }
}

/// The words appended to the last line of the state.
pub open spec fn add_words(st: PState, ws: Seq<WordV>) -> PState {
    (add_words_lines(st.0, ws), st.1, st.2, st.3)
}

/// A new line of words.
pub open spec fn add_line(st: PState, ws: Seq<WordV>) -> PState {
    (st.0.push(ws), st.1, st.2, st.3)
}

/// `i` is where the text first occurs.
pub open spec fn first_index(links: Seq<Seq<char>>, link: Seq<char>, i: int) -> bool {
    &&& 0 <= i < links.len()
    &&& links[i] == link
    &&& forall|j: int| 0 <= j < i ==> links[j] != link
}

/// The position of the first link with the text, or the number of links if none has it.
pub open spec fn link_index(links: Seq<Seq<char>>, link: Seq<char>) -> int {
    if exists|i: int| 0 <= i < links.len() && links[i] == link {
        choose|i: int| first_index(links, link, i)
    } else {
        links.len() as int
    }
}

/// The link recorded in the doc and in the block.
pub open spec fn add_link(st: PState, link: Seq<char>) -> PState {
    let idx = link_index(st.3, link);
    let links = if idx < st.3.len() {
        st.3
    } else {
        st.3.push(link)
    };
    let blinks = if st.1.contains(idx as usize) {
        st.1
    } else {
        st.1.push(idx as usize)
    };
    (st.0, blinks, st.2, links)
}

/// The key recorded once.
pub open spec fn with_key(keys: Seq<Seq<char>>, key: Seq<char>) -> Seq<Seq<char>> {
    if keys.contains(key) {
        keys
    } else {
        keys.push(key)
    }
}

/// The footnote key recorded in the block.
pub open spec fn add_footnote(st: PState, key: Seq<char>) -> PState {
    (st.0, st.1, with_key(st.2, key), st.3)
}

pub open spec fn spec_intra_code_style() -> Style {
    Style { fg: Some(Color::Rgb(255, 184, 162)), ..Style::spec_new() }
}

pub open spec fn spec_footnote_style() -> Style {
    Style { fg: Some(Color::LightMagenta), ..Style::spec_new() }
}

pub open spec fn spec_image_style() -> Style {
    Style { fg: Some(Color::Rgb(192, 192, 192)), ..Style::spec_new() }
}

/// The style with the modifier added; the bases it is used on have no modifiers.
pub open spec fn emphasized(s: Style, m: u16) -> Style {
    Style { add_modifier: Modifier { bits: m }, ..s }
}

/// The words of a text segmented for wrapping, with the style and the tag.
pub open spec fn seg_words(text: Seq<char>, style: Style, tag: MetaTag) -> Seq<WordV> {
    spec_segment_words(text).map_values(|p: (Seq<char>, bool)| (p.0, style, tag, p.1))
}

/// The words of the texts of the events, in order.
pub open spec fn group_texts(events: Seq<EventRange>, lo: int, hi: int, style: Style, tag: MetaTag) -> Seq<WordV>
    decreases hi - lo,
{
    if lo >= hi || lo < 0 {
        seq![]
    } else {
        (match events[lo].event {
            MdEvent::Text(t) => seg_words(t@, style, tag),
            _ => seq![],
        }) + group_texts(events, lo + 1, hi, style, tag)
    }
}

/// The lines after the words of the texts of the events are appended one text after
/// another; a text may make a line, other events add nothing.
pub open spec fn group_lines(lines: Seq<Seq<WordV>>, events: Seq<EventRange>, lo: int, hi: int, style: Style, tag: MetaTag) -> Seq<Seq<WordV>>
    decreases hi - lo,
{
    if lo >= hi || lo < 0 {
        lines
    } else {
        let next = match events[lo].event {
            MdEvent::Text(t) => add_words_lines(lines, seg_words(t@, style, tag)),
            _ => lines,
        };
        group_lines(next, events, lo + 1, hi, style, tag)
    }
}

/// The texts of the events put together.
pub open spec fn joined_texts(events: Seq<EventRange>, lo: int, hi: int) -> Seq<char>
    decreases hi - lo,
{
    if lo >= hi || lo < 0 {
        seq![]
    } else {
        (match events[lo].event {
            MdEvent::Text(t) => t@,
            _ => seq![],
        }) + joined_texts(events, lo + 1, hi)
    }
}

pub open spec fn tick() -> Seq<char> {
    seq!['`']
}

/// An inline code: its segments between backticks.
pub open spec fn intra_code_words(code: Seq<char>, inner: Style) -> Seq<WordV> {
    seq![(tick(), spec_intra_code_style(), MetaTag::InlineCode, false)] + line_segments(code).map_values(
        |s: Seq<char>| (s, inner, MetaTag::InlineCode, false),
    ) + seq![(tick(), spec_intra_code_style(), MetaTag::InlineCode, false)]
}

/// The words inside a link.
pub open spec fn link_body(events: Seq<EventRange>, i: int, hi: int, tag: MetaTag) -> Seq<WordV>
    decreases hi - i,
{
    if i >= hi || i < 0 {
        seq![]
    } else {
        let ev = events[i];
        let j = i + 1;
        match ev.event {
            MdEvent::Text(w) => seg_words(w@, spec_link_style(), tag) + link_body(events, j, hi, tag),
            MdEvent::Code(c) => intra_code_words(c@, spec_link_style()) + link_body(events, j, hi, tag),
            MdEvent::Start(MdTag::Emphasis) => {
                let e = element_end(events, j, hi, MdTagEnd::Emphasis, ev.start, ev.end);
                proof {
                    lemma_element_end(events, j, hi, MdTagEnd::Emphasis, ev.start, ev.end);
                }
                group_texts(events, j, e, emphasized(spec_link_style(), 4), tag) + link_body(
                    events,
                    next_after(e, hi),
                    hi,
                    tag,
                )
            },
            MdEvent::Start(MdTag::Strong) => {
                let e = element_end(events, j, hi, MdTagEnd::Strong, ev.start, ev.end);
                proof {
                    lemma_element_end(events, j, hi, MdTagEnd::Strong, ev.start, ev.end);
                }
                group_texts(events, j, e, emphasized(spec_link_style(), 1), tag) + link_body(
                    events,
                    next_after(e, hi),
                    hi,
                    tag,
                )
            },
            MdEvent::Start(MdTag::Strikethrough) => {
                let e = element_end(events, j, hi, MdTagEnd::Strikethrough, ev.start, ev.end);
                proof {
                    lemma_element_end(events, j, hi, MdTagEnd::Strikethrough, ev.start, ev.end);
                }
                group_texts(events, j, e, emphasized(spec_link_style(), 256), tag) + link_body(
                    events,
                    next_after(e, hi),
                    hi,
                    tag,
                )
            },
            _ => link_body(events, j, hi, tag),
        }
    }
}

/// A word of a link's decoration.
pub open spec fn link_mark(text: Seq<char>, tag: MetaTag) -> WordV {
    (text, spec_link_style(), tag, false)
}

/// The words of a link: `[`, the body, `]`, and the reference `[idx]`.
pub open spec fn link_words(events: Seq<EventRange>, lo: int, hi: int, idx: usize) -> Seq<WordV> {
    let tag = MetaTag::Link(LinkTag::ReferenceLink(idx));
    seq![link_mark(seq!['['], tag)] + link_body(events, lo, hi, tag) + seq![
        link_mark(seq![']'], tag),
        link_mark(seq!['['], tag),
        link_mark(spec_decimal(idx as nat), tag),
        link_mark(seq![']'], tag),
    ]
}

/// The word of an image: `![texts](link)` in gray.
pub open spec fn image_word(events: Seq<EventRange>, lo: int, hi: int, link: Seq<char>) -> WordV {
    (seq!['!', '['] + joined_texts(events, lo, hi) + seq![']', '('] + link + seq![')'], spec_image_style(), MetaTag::Image, false)
}

/// The words of a footnote reference `[^key]`.
pub open spec fn footnote_ref_words(key: String) -> Seq<WordV> {
    let tag = MetaTag::Link(LinkTag::Footnote(key));
    seq![
        (seq!['['], spec_footnote_style(), tag, false),
        (seq!['^'], spec_footnote_style(), tag, false),
        (key@, spec_footnote_style(), tag, false),
        (seq![']'], spec_footnote_style(), tag, false),
    ]
}

/// The words of a task marker.
pub open spec fn task_words(done: bool) -> Seq<WordV> {
    seq![
        if done {
            (seq!['[', 'x', ']'], Style { fg: Some(Color::LightYellow), ..Style::spec_new() }, MetaTag::Normal, false)
        } else {
            (seq!['[', ' ', ']'], Style::spec_new(), MetaTag::Normal, false)
        },
        (seq![], Style::spec_new(), MetaTag::Normal, true),
    ]
}

/// Two spaces per level.
pub open spec fn spaces(n: nat) -> Seq<char>
    decreases n,
{
    if n == 0 {
        seq![]
    } else {
        spaces((n - 1) as nat) + seq![' ', ' ']
    }
}

/// The words before a list item: the indent, then the number or a star in green.
pub open spec fn item_prefix_words(level: u8, kind: Option<u64>) -> Seq<WordV> {
    let green = Style { fg: Some(Color::Green), ..Style::spec_new() };
    seq![
        (spaces(level as nat), Style::spec_new(), MetaTag::Normal, false),
        match kind {
            Some(num) => (spec_decimal(num as nat) + seq!['.', ' '], green, MetaTag::ListItemN(num as u8), false),
            None => (seq!['*', ' '], green, MetaTag::ListItem, false),
        },
    ]
}

/// The kind of a list after one more item: an ordered list counts on, wrapping around
/// as `u64` arithmetic does.
pub open spec fn next_kind(kind: Option<u64>) -> Option<u64> {
    match kind {
        Some(num) => Some(if num == u64::MAX {
            0
        } else {
            (num + 1) as u64
        }),
        None => None,
    }
}

/// The level of a list inside another, wrapping around as `u8` arithmetic does.
pub open spec fn deeper(level: u8) -> u8 {
    if level == u8::MAX {
        0
    } else {
        (level + 1) as u8
    }
}

/// The end tag that closes a start tag.
pub open spec fn closing(t: MdTag) -> MdTagEnd {
    match t {
        MdTag::Paragraph => MdTagEnd::Paragraph,
        MdTag::Heading(l) => MdTagEnd::Heading(l),
        MdTag::Table => MdTagEnd::Table,
        MdTag::List(k) => MdTagEnd::List(k is Some),
        MdTag::Item => MdTagEnd::Item,
        MdTag::Emphasis => MdTagEnd::Emphasis,
        MdTag::Strong => MdTagEnd::Strong,
        MdTag::Strikethrough => MdTagEnd::Strikethrough,
        MdTag::Link(_) => MdTagEnd::Link,
        MdTag::Image(_) => MdTagEnd::Image,
        _ => MdTagEnd::Other,
    }
}

/// The texts of the events appended in the style, with the normal tag.
pub open spec fn add_group(st: PState, events: Seq<EventRange>, lo: int, hi: int, style: Style) -> PState {
    (group_lines(st.0, events, lo, hi, style, MetaTag::Normal), st.1, st.2, st.3)
}

/// The parsing of the events `i..hi` of a paragraph or list, with the indent level and the
/// list kind, from the given state: the state and the level after.
///
/// Texts, codes, breaks, footnote references and task markers add words; links, emphases,
/// images add the words of their elements; an item starts a new line with its prefix and
/// its events are parsed on the same level; a list raises the level by one (for the rest of
/// the events too) and its events are parsed with its kind; a paragraph's events are parsed from
/// level 0 as an unordered text. Other events are skipped.
pub open spec fn list_parse(events: Seq<EventRange>, i: int, hi: int, level: u8, kind: Option<u64>, st: PState) -> (PState, u8)
    decreases hi - i,
{
    if i >= hi || i < 0 {
        (st, level)
    } else {
        let ev = events[i];
        let j = i + 1;
        match ev.event {
            MdEvent::Text(t) => list_parse(events, j, hi, level, kind, add_words(st, seg_words(t@, Style::spec_new(), MetaTag::Normal))),
            MdEvent::Code(c) => list_parse(events, j, hi, level, kind, add_words(st, intra_code_words(c@, spec_intra_code_style()))),
            MdEvent::SoftBreak | MdEvent::HardBreak => list_parse(events, j, hi, level, kind, add_words(st, seq![(seq![], Style::spec_new(), MetaTag::Normal, true)])),
            MdEvent::FootnoteReference(key) => list_parse(events, j, hi, level, kind, add_footnote(add_words(st, footnote_ref_words(key)), key@)),
            MdEvent::TaskListMarker(done) => list_parse(events, j, hi, level, kind, add_words(st, task_words(done))),
            MdEvent::Start(t) => {
                let e = element_end(events, j, hi, closing(t), ev.start, ev.end);
                proof {
                    lemma_element_end(events, j, hi, closing(t), ev.start, ev.end);
                }
                let n = next_after(e, hi);
                match t {
                    MdTag::Link(dest) => {
                        let idx = link_index(st.3, dest@) as usize;
                        list_parse(events, n, hi, level, kind, add_words(add_link(st, dest@), link_words(events, j, e, idx)))
                    },
                    MdTag::Emphasis => list_parse(events, n, hi, level, kind, add_group(st, events, j, e, emphasized(Style::spec_new(), 4))),
                    MdTag::Strong => list_parse(events, n, hi, level, kind, add_group(st, events, j, e, emphasized(Style::spec_new(), 1))),
                    MdTag::Strikethrough => list_parse(events, n, hi, level, kind, add_group(st, events, j, e, emphasized(Style::spec_new(), 256))),
                    MdTag::Image(dest) => list_parse(events, n, hi, level, kind, add_words(st, seq![image_word(events, j, e, dest@)])),
                    MdTag::Item => {
                        let kind1 = next_kind(kind);
                        let inner = list_parse(events, j, e, level, kind1, add_line(st, item_prefix_words(level, kind)));
                        list_parse(events, n, hi, level, kind1, inner.0)
                    },
                    MdTag::List(k2) => {
                        let inner = list_parse(events, j, e, deeper(level), k2, st);
                        list_parse(events, n, hi, inner.1, kind, inner.0)
                    },
                    MdTag::Paragraph => {
                        let inner = list_parse(events, j, e, 0, None, st);
                        list_parse(events, n, hi, level, kind, inner.0)
                    },
                    _ => list_parse(events, j, hi, level, kind, st),
                }
            },
            _ => list_parse(events, j, hi, level, kind, st),
        }
    }
}

/// The words that the texts of a group add all carry the group's style and tag, and the
/// words that were there stay as they were.
pub proof fn law_group_words_carry_style(lines: Seq<Seq<WordV>>, events: Seq<EventRange>, lo: int, hi: int, style: Style, tag: MetaTag)
    ensures
        ({
            let r = group_lines(lines, events, lo, hi, style, tag);
            &&& r.len() >= lines.len()
            &&& forall|k: int, w: int| 0 <= k < lines.len() && 0 <= w < lines[k].len() ==> (#[trigger] r[k][w]) == lines[k][w]
                && r[k].len() >= lines[k].len()
            &&& forall|k: int, w: int|
                0 <= k < r.len() && 0 <= w < r[k].len() && !(k < lines.len() && w < lines[k].len()) ==> (#[trigger] r[k][w]).1
                    == style && r[k][w].2 == tag
        }),
    decreases hi - lo,
{
    if lo < hi && lo >= 0 {
        let next = match events[lo].event {
            MdEvent::Text(t) => add_words_lines(lines, seg_words(t@, style, tag)),
            _ => lines,
        };
        law_group_words_carry_style(next, events, lo + 1, hi, style, tag);
        match events[lo].event {
            MdEvent::Text(t) => {
                let ws = seg_words(t@, style, tag);
                assert forall|w: int| 0 <= w < ws.len() implies (#[trigger] ws[w]).1 == style && ws[w].2 == tag by {}
                if lines.len() == 0 {
                    assert(next == seq![ws]);
                } else {
                    let last = lines.len() - 1;
                    assert(next[last] == lines[last] + ws);
                    assert forall|k: int, w: int| 0 <= k < lines.len() && 0 <= w < lines[k].len() implies (#[trigger] next[k][w])
                        == lines[k][w] && next[k].len() >= lines[k].len() by {
                        if k < last {
                            assert(next[k] == lines[k]);
                        }
                    }
                }
            },
            _ => {},
        }
        let r = group_lines(lines, events, lo, hi, style, tag);
        assert(r == group_lines(next, events, lo + 1, hi, style, tag));
        assert forall|k: int, w: int|
            0 <= k < r.len() && 0 <= w < r[k].len() && !(k < lines.len() && w < lines[k].len()) implies (#[trigger] r[k][w]).1
                == style && r[k][w].2 == tag by {
            if k < next.len() && w < next[k].len() {
                if lines.len() == 0 {
                } else if k < lines.len() - 1 {
                    assert(next[k] == lines[k]);
                } else {
                    assert(next[k] == lines[k] + seg_words(events[lo].event->Text_0@, style, tag));
                }
            }
        }
    }
}

/// The words of emphasized, strong and struck-through text: at an element's start, the
/// parsing goes on after its end with the texts inside it added as words in italics
/// (emphasis), in bold (strong) or crossed out (strikethrough), tagged as normal text.
pub proof fn law_emphasis_styles(events: Seq<EventRange>, i: int, hi: int, level: u8, kind: Option<u64>, st: PState)
    requires
        0 <= i < hi <= events.len(),
        events[i].event is Start,
    ensures
        ({
            let t = events[i].event->Start_0;
            let end = match t {
                MdTag::Emphasis => MdTagEnd::Emphasis,
                MdTag::Strong => MdTagEnd::Strong,
                _ => MdTagEnd::Strikethrough,
            };
            let e = element_end(events, i + 1, hi, end, events[i].start, events[i].end);
            let bits = match t {
                MdTag::Emphasis => Modifier::ITALIC,
                MdTag::Strong => Modifier::BOLD,
                _ => Modifier::CROSSED_OUT,
            };
            let words = group_lines(
                st.0,
                events,
                i + 1,
                e,
                Style { fg: None, bg: None, underline_color: None, add_modifier: Modifier { bits }, sub_modifier: Modifier { bits: 0 } },
                MetaTag::Normal,
            );
            (t is Emphasis || t is Strong || t is Strikethrough) ==> list_parse(events, i, hi, level, kind, st)
                == list_parse(events, next_after(e, hi), hi, level, kind, (words, st.1, st.2, st.3))
        }),
{
}

/// Plain text adds its segments to the current line as words of the default style, tagged
/// as normal text, and the parsing goes on with the next event.
pub proof fn law_plain_text_words(events: Seq<EventRange>, i: int, hi: int, level: u8, kind: Option<u64>, st: PState)
    requires
        0 <= i < hi <= events.len(),
        events[i].event is Text,
    ensures
        list_parse(events, i, hi, level, kind, st) == list_parse(
            events,
            i + 1,
            hi,
            level,
            kind,
            (
                add_words_lines(
                    st.0,
                    spec_segment_words(events[i].event->Text_0@).map_values(
                        |p: (Seq<char>, bool)| (p.0, Style { fg: None, bg: None, underline_color: None, add_modifier: Modifier { bits: 0 }, sub_modifier: Modifier { bits: 0 } }, MetaTag::Normal, p.1),
                    ),
                ),
                st.1,
                st.2,
                st.3,
            ),
        ),
{
    let t = events[i].event->Text_0;
    assert(spec_segment_words(t@).map_values(|p: (Seq<char>, bool)| (p.0, Style { fg: None, bg: None, underline_color: None, add_modifier: Modifier { bits: 0 }, sub_modifier: Modifier { bits: 0 } }, MetaTag::Normal, p.1))
        =~= seg_words(t@, Style::spec_new(), MetaTag::Normal));
}

/// Every word that the texts of a group give carries the group's style and tag.
pub proof fn law_group_texts_carry_style(events: Seq<EventRange>, lo: int, hi: int, style: Style, tag: MetaTag)
    ensures
        forall|w: int| 0 <= w < group_texts(events, lo, hi, style, tag).len() ==> (#[trigger] group_texts(events, lo, hi, style, tag)[w]).1
            == style && group_texts(events, lo, hi, style, tag)[w].2 == tag,
    decreases hi - lo,
{
    if lo < hi && lo >= 0 {
        law_group_texts_carry_style(events, lo + 1, hi, style, tag);
        let first = match events[lo].event {
            MdEvent::Text(t) => seg_words(t@, style, tag),
            _ => seq![],
        };
        let rest = group_texts(events, lo + 1, hi, style, tag);
        assert forall|w: int| 0 <= w < (first + rest).len() implies (#[trigger] (first + rest)[w]).1 == style && (first + rest)[w].2 == tag by {
            if w >= first.len() {
                assert((first + rest)[w] == rest[w - first.len()]);
            }
        }
    }
}

/// Inside a link, emphasized, strong and struck-through text keeps the link's colour and is
/// also in italics, in bold or crossed out: at such an element's start, the link's words are
/// its texts in that style, then the words after its end.
pub proof fn law_link_emphasis_styles(events: Seq<EventRange>, i: int, hi: int, tag: MetaTag)
    requires
        0 <= i < hi <= events.len(),
        events[i].event is Start,
    ensures
        ({
            let t = events[i].event->Start_0;
            let end = match t {
                MdTag::Emphasis => MdTagEnd::Emphasis,
                MdTag::Strong => MdTagEnd::Strong,
                _ => MdTagEnd::Strikethrough,
            };
            let e = element_end(events, i + 1, hi, end, events[i].start, events[i].end);
            let bits = match t {
                MdTag::Emphasis => Modifier::ITALIC,
                MdTag::Strong => Modifier::BOLD,
                _ => Modifier::CROSSED_OUT,
            };
            let style = Style {
                fg: Some(Color::Rgb(30, 144, 255)),
                bg: None,
                underline_color: None,
                add_modifier: Modifier { bits },
                sub_modifier: Modifier { bits: 0 },
            };
            (t is Emphasis || t is Strong || t is Strikethrough) ==> link_body(events, i, hi, tag) == group_texts(
                events,
                i + 1,
                e,
                style,
                tag,
            ) + link_body(events, next_after(e, hi), hi, tag)
        }),
{
}

proof fn lemma_added(before: Seq<Line>, after: Seq<Line>, added: Seq<WordV>)
    requires
        after.len() == (if before.len() == 0 {
            1
        } else {
            before.len()
        }),
        prefix_lines(after) == prefix_lines(before),
        words_v(last_words(after)) == words_v(last_words(before)) + added,
    ensures
        lines_v(after) == add_words_lines(lines_v(before), added),
{
    if before.len() == 0 {
        assert(lines_v(after) =~= seq![added]);
    } else {
        assert(prefix_lines(after) == after.drop_last());
        assert(prefix_lines(before) == before.drop_last());
        assert forall|i: int| 0 <= i < after.len() - 1 implies after[i] == before[i] by {
            assert(after.drop_last()[i] == after[i]);
            assert(before.drop_last()[i] == before[i]);
        }
        assert(lines_v(after) =~= lines_v(before).drop_last().push(lines_v(before).last() + added));
    }
}

/// Append a word.
fn add_word(block: &mut Block, w: Word)
    ensures
        lines_v(final(block).lines@) == add_words_lines(lines_v(old(block).lines@), seq![word_v(w)]),
        final(block).links == old(block).links,
        final(block).footnotes == old(block).footnotes,
{
    let ghost wv = word_v(w);
    block.push_a_word(w);
    proof {
        let o = last_words(old(block).lines@);
        let n = last_words(block.lines@);
        assert(n == o.push(n.last()));
        assert(words_v(n) =~= words_v(o) + seq![wv]);
        lemma_added(old(block).lines@, block.lines@, seq![wv]);
    }
}

/// Append words.
fn add_words_exec(block: &mut Block, ws: Vec<Word>)
    ensures
        lines_v(final(block).lines@) == add_words_lines(lines_v(old(block).lines@), words_v(ws@)),
        final(block).links == old(block).links,
        final(block).footnotes == old(block).footnotes,
{
    let ghost wv = words_v(ws@);
    block.extend_words(ws);
    proof {
        let o = last_words(old(block).lines@);
        let n = last_words(block.lines@);
        assert(words_v(n) =~= words_v(o) + wv);
        lemma_added(old(block).lines@, block.lines@, wv);
    }
}

/// Append the segmented words of a text, with the style and the tag.
fn add_seg_words(block: &mut Block, text: &str, style: Style, tag: MetaTag)
    ensures
        lines_v(final(block).lines@) == add_words_lines(lines_v(old(block).lines@), seg_words(text@, style, tag)),
        final(block).links == old(block).links,
        final(block).footnotes == old(block).footnotes,
{
    block.push_words(text, style, tag);
    proof {
        let o = last_words(old(block).lines@);
        let n = last_words(block.lines@);
        let sw = seg_words(text@, style, tag);
        assert(segmented_added(*old(block), *block, text@, style, tag));
        assert(words_v(n) =~= words_v(o) + sw) by {
            assert forall|k: int| 0 <= k < n.len() implies words_v(n)[k] == (words_v(o) + sw)[k] by {
                if k < o.len() {
                    assert(n.subrange(0, o.len() as int)[k] == o[k]);
                } else {
                    let i = k - o.len();
                    assert(n[o.len() + i] == n[k]);
                }
            }
        }
        lemma_added(old(block).lines@, block.lines@, sw);
    }
}

pub fn intra_code_style() -> (r: Style)
    ensures
        r == spec_intra_code_style(),
{
    Style::new().fg(Color::Rgb(255, 184, 162))
}

/// Appending twice is appending both.
proof fn lemma_add_twice(l: Seq<Seq<WordV>>, a: Seq<WordV>, b: Seq<WordV>)
    ensures
        add_words_lines(add_words_lines(l, a), b) == add_words_lines(l, a + b),
{
    if l.len() == 0 {
        assert(add_words_lines(l, a) == seq![a]);
        assert(add_words_lines(seq![a], b) =~= seq![a + b]);
    } else {
        let l1 = add_words_lines(l, a);
        assert(l1.drop_last() =~= l.drop_last());
        assert(l1.last() == l.last() + a);
        assert(l.last() + a + b =~= l.last() + (a + b));
    }
}

/// Appending nothing to some lines keeps them.
proof fn lemma_add_nothing(l: Seq<Seq<WordV>>)
    requires
        l.len() > 0,
    ensures
        add_words_lines(l, seq![]) == l,
{
    assert(l.last() + Seq::<WordV>::empty() =~= l.last());
    assert(l.drop_last().push(l.last()) =~= l);
}

/// Once there is a line, the texts' words go to it one after another.
proof fn lemma_group_concat(l: Seq<Seq<WordV>>, events: Seq<EventRange>, lo: int, hi: int, style: Style, tag: MetaTag)
    requires
        l.len() > 0,
    ensures
        group_lines(l, events, lo, hi, style, tag) == add_words_lines(l, group_texts(events, lo, hi, style, tag)),
    decreases hi - lo,
{
    if lo >= hi || lo < 0 {
        lemma_add_nothing(l);
    } else {
        match events[lo].event {
            MdEvent::Text(t) => {
                let sw = seg_words(t@, style, tag);
                lemma_group_concat(add_words_lines(l, sw), events, lo + 1, hi, style, tag);
                lemma_add_twice(l, sw, group_texts(events, lo + 1, hi, style, tag));
            },
            _ => {
                lemma_group_concat(l, events, lo + 1, hi, style, tag);
                assert(group_texts(events, lo, hi, style, tag) =~= group_texts(events, lo + 1, hi, style, tag));
            },
        }
    }
}

/// Append an inline code: its segments between backticks, the segments in the given style.
fn push_intra_code(code: &str, block: &mut Block, inner: Style)
    ensures
        lines_v(final(block).lines@) == add_words_lines(lines_v(old(block).lines@), intra_code_words(code@, inner)),
        final(block).links == old(block).links,
        final(block).footnotes == old(block).footnotes,
{
    let ghost l0 = lines_v(block.lines@);
    let t = "`";
    proof {
        reveal_strlit("`");
        assert(t@ =~= tick());
    }
    add_word(block, Word { word: str_to_string(t), style: intra_code_style(), tag: MetaTag::InlineCode, trailling_whitespace: false });
    let segs = segment_str(code);
    let ghost sv = line_segments(code@);
    let ghost first = seq![(tick(), spec_intra_code_style(), MetaTag::InlineCode, false)];
    assert(first + sv.subrange(0, 0).map_values(|s: Seq<char>| (s, inner, MetaTag::InlineCode, false)) =~= first);
    let mut i: usize = 0;
    while i < segs.len()
        invariant
            i <= segs@.len(),
            strings_view(segs@) == sv,
            lines_v(block.lines@) == add_words_lines(l0, first + sv.subrange(0, i as int).map_values(
                |s: Seq<char>| (s, inner, MetaTag::InlineCode, false),
            )),
            block.links == old(block).links,
            block.footnotes == old(block).footnotes,
        decreases segs@.len() - i,
    {
        add_word(block, Word { word: segs[i].clone(), style: inner, tag: MetaTag::InlineCode, trailling_whitespace: false });
        proof {
            assert(strings_view(segs@)[i as int] == segs@[i as int]@);
            let a = first + sv.subrange(0, i as int).map_values(|s: Seq<char>| (s, inner, MetaTag::InlineCode, false));
            let b = first + sv.subrange(0, i + 1).map_values(|s: Seq<char>| (s, inner, MetaTag::InlineCode, false));
            assert(b =~= a + seq![(sv[i as int], inner, MetaTag::InlineCode, false)]);
            lemma_add_twice(l0, a, seq![(sv[i as int], inner, MetaTag::InlineCode, false)]);
        }
        i = i + 1;
    }
    assert(sv.subrange(0, i as int) == sv);
    let ghost mid = first + sv.map_values(|s: Seq<char>| (s, inner, MetaTag::InlineCode, false));
    add_word(block, Word { word: str_to_string(t), style: intra_code_style(), tag: MetaTag::InlineCode, trailling_whitespace: false });
    proof {
        lemma_add_twice(l0, mid, seq![(tick(), spec_intra_code_style(), MetaTag::InlineCode, false)]);
        assert(mid + seq![(tick(), spec_intra_code_style(), MetaTag::InlineCode, false)] =~= intra_code_words(code@, inner));
    }
}

/// Append an inline code: its segments in the inline code style, between backticks.
pub fn parse_intra_code(code: &str, block: &mut Block)
    ensures
        lines_v(final(block).lines@) == add_words_lines(
            lines_v(old(block).lines@),
            intra_code_words(code@, spec_intra_code_style()),
        ),
        final(block).links == old(block).links,
        final(block).footnotes == old(block).footnotes,
{
    push_intra_code(code, block, intra_code_style())
}

/// Append an inline code inside a link: its segments in the link style, between backticks
/// in the inline code style.
pub fn parse_intra_code_in_link(code: &str, block: &mut Block)
    ensures
        lines_v(final(block).lines@) == add_words_lines(
            lines_v(old(block).lines@),
            intra_code_words(code@, spec_link_style()),
        ),
        final(block).links == old(block).links,
        final(block).footnotes == old(block).footnotes,
{
    push_intra_code(code, block, link_style())
}

/// Append the words of the texts of the events, in the style and with the tag.
fn parse_group(events: &Vec<EventRange>, lo: usize, hi: usize, block: &mut Block, style: Style, tag: &MetaTag)
    requires
        lo <= hi <= events@.len(),
    ensures
        lines_v(final(block).lines@) == group_lines(lines_v(old(block).lines@), events@, lo as int, hi as int, style, *tag),
        final(block).links == old(block).links,
        final(block).footnotes == old(block).footnotes,
{
    let ghost total = group_lines(lines_v(block.lines@), events@, lo as int, hi as int, style, *tag);
    let mut i = lo;
    while i < hi
        invariant
            lo <= i <= hi <= events@.len(),
            group_lines(lines_v(block.lines@), events@, i as int, hi as int, style, *tag) == total,
            block.links == old(block).links,
            block.footnotes == old(block).footnotes,
        decreases hi - i,
    {
        match &events[i].event {
            MdEvent::Text(t) => {
                add_seg_words(block, t.as_str(), style, tag.clone());
            },
            _ => {},
        }
        i = i + 1;
    }
}

/// The texts of the events put together.
fn collect_texts(events: &Vec<EventRange>, lo: usize, hi: usize) -> (r: String)
    requires
        lo <= hi <= events@.len(),
    ensures
        r@ == joined_texts(events@, lo as int, hi as int),
{
    let mut out = String::new();
    let mut i = lo;
    while i < hi
        invariant
            lo <= i <= hi <= events@.len(),
            out@ + joined_texts(events@, i as int, hi as int) == joined_texts(events@, lo as int, hi as int),
        decreases hi - i,
    {
        match &events[i].event {
            MdEvent::Text(t) => {
                let ghost before = out@;
                string_push_str(&mut out, t.as_str());
                assert(out@ + joined_texts(events@, i + 1, hi as int) =~= before + joined_texts(events@, i as int, hi as int));
            },
            _ => {
                assert(joined_texts(events@, i as int, hi as int) =~= joined_texts(events@, i + 1, hi as int));
            },
        }
        i = i + 1;
    }
    assert(out@ + Seq::<char>::empty() =~= out@);
    out
}

/// Images are like links, but only their texts show, in one word `![texts](link)` in gray.
pub fn parse_image(events: &Vec<EventRange>, lo: usize, hi: usize, block: &mut Block, link: &str)
    requires
        lo <= hi <= events@.len(),
    ensures
        lines_v(final(block).lines@) == add_words_lines(lines_v(old(block).lines@), seq![image_word(events@, lo as int, hi as int, link@)]),
        final(block).links == old(block).links,
        final(block).footnotes == old(block).footnotes,
{
    let mut img = String::new();
    string_push_str(&mut img, "![");
    string_push_str(&mut img, collect_texts(events, lo, hi).as_str());
    string_push_str(&mut img, "](");
    string_push_str(&mut img, link);
    string_push_str(&mut img, ")");
    proof {
        reveal_strlit("![");
        reveal_strlit("](");
        reveal_strlit(")");
    }
    let w = Word { word: img, style: Style::new().fg(Color::Rgb(192, 192, 192)), tag: MetaTag::Image, trailling_whitespace: false };
    assert(word_v(w) == image_word(events@, lo as int, hi as int, link@));
    add_word(block, w);
}

/// A word of a link's decoration.
fn link_mark_word(text: &str, tag: &MetaTag) -> (w: Word)
    ensures
        word_v(w) == link_mark(text@, *tag),
{
    Word { word: str_to_string(text), style: link_style(), tag: tag.clone(), trailling_whitespace: false }
}

/// Append the words inside a link: its texts and codes in the link's style, its emphases'
/// texts with the modifier added; the block has a line already.
fn parse_link_body(events: &Vec<EventRange>, lo: usize, hi: usize, block: &mut Block, tag: &MetaTag)
    requires
        lo <= hi <= events@.len(),
        old(block).lines@.len() > 0,
    ensures
        lines_v(final(block).lines@) == add_words_lines(lines_v(old(block).lines@), link_body(events@, lo as int, hi as int, *tag)),
        final(block).links == old(block).links,
        final(block).footnotes == old(block).footnotes,
{
    let ghost l0 = lines_v(block.lines@);
    let ghost total = link_body(events@, lo as int, hi as int, *tag);
    let ghost mut done: Seq<WordV> = seq![];
    proof {
        lemma_add_nothing(l0);
    }
    let mut i = lo;
    while i < hi
        invariant
            lo <= i <= hi <= events@.len(),
            l0.len() > 0,
            done + link_body(events@, i as int, hi as int, *tag) == total,
            lines_v(block.lines@) == add_words_lines(l0, done),
            block.links == old(block).links,
            block.footnotes == old(block).footnotes,
        decreases hi - i,
    {
        let ev = &events[i];
        let j = i + 1;
        let ghost before = done;
        let ghost rest = link_body(events@, i as int, hi as int, *tag);
        match &ev.event {
            MdEvent::Text(w) => {
                add_seg_words(block, w.as_str(), link_style(), tag.clone());
                proof {
                    let sw = seg_words(w@, spec_link_style(), *tag);
                    lemma_add_twice(l0, done, sw);
                    done = done + sw;
                    assert(done + link_body(events@, j as int, hi as int, *tag) =~= before + rest);
                }
                i = j;
            },
            MdEvent::Code(c) => {
                parse_intra_code_in_link(c.as_str(), block);
                proof {
                    let cw = intra_code_words(c@, spec_link_style());
                    lemma_add_twice(l0, done, cw);
                    done = done + cw;
                    assert(done + link_body(events@, j as int, hi as int, *tag) =~= before + rest);
                }
                i = j;
            },
            MdEvent::Start(MdTag::Emphasis) | MdEvent::Start(MdTag::Strong) | MdEvent::Start(MdTag::Strikethrough) => {
                let (end_tag, m) = match &ev.event {
                    MdEvent::Start(MdTag::Emphasis) => (MdTagEnd::Emphasis, Modifier::ITALIC),
                    MdEvent::Start(MdTag::Strong) => (MdTagEnd::Strong, Modifier::BOLD),
                    _ => (MdTagEnd::Strikethrough, Modifier::CROSSED_OUT),
                };
                let e = find_element_end(events, j, hi, end_tag, ev.start, ev.end);
                let ghost lines_before = lines_v(block.lines@);
                // nested styles further down are dropped
                parse_group(events, j, e, block, Style { add_modifier: Modifier { bits: m }, ..link_style() }, tag);
                proof {
                    let st = emphasized(spec_link_style(), m);
                    let gw = group_texts(events@, j as int, e as int, st, *tag);
                    lemma_add_twice(l0, done, seq![]);
                    lemma_group_concat(lines_before, events@, j as int, e as int, st, *tag);
                    lemma_add_twice(l0, done, gw);
                    done = done + gw;
                    assert(done + link_body(events@, next_after(e as int, hi as int), hi as int, *tag) =~= before + rest);
                }
                i = if e < hi { e + 1 } else { hi };
            },
            _ => {
                i = j;
            },
        }
    }
    proof {
        assert(link_body(events@, i as int, hi as int, *tag) == Seq::<WordV>::empty());
        assert(done =~= total);
    }
}

/// Append a link: `[`, its texts, codes and styled texts in the link's style, `]`, and the
/// reference `[idx]` of the link recorded in the doc and in the block.
pub fn parse_link(events: &Vec<EventRange>, lo: usize, hi: usize, block: &mut Block, links: &mut Links, link: &str)
    requires
        lo <= hi <= events@.len(),
    ensures
        pstate(*final(block), *final(links)) == add_words(
            add_link(pstate(*old(block), *old(links)), link@),
            link_words(events@, lo as int, hi as int, link_index(strings_view(old(links).links@), link@) as usize),
        ),
        final(links).heading == old(links).heading,
        final(links).footnotes == old(links).footnotes,
{
    let idx = links.push_link(str_to_string(link));
    proof {
        lemma_link_index(old(links).links@, link@);
        if link_pos(old(links).links@, link@) is None {
            assert(strings_view(links.links@) =~= strings_view(old(links).links@).push(link@));
        }
    }
    block.push_link(idx);
    let tag = MetaTag::Link(LinkTag::ReferenceLink(idx));
    let open_b = "[";
    let close_b = "]";
    proof {
        reveal_strlit("[");
        reveal_strlit("]");
        assert(open_b@ =~= seq!['[']);
        assert(close_b@ =~= seq![']']);
    }
    let ghost l0 = lines_v(block.lines@);
    let ghost m0 = seq![link_mark(seq!['['], tag)];
    add_word(block, link_mark_word(open_b, &tag));
    assert(block.lines@.len() == lines_v(block.lines@).len());
    parse_link_body(events, lo, hi, block, &tag);
    let ghost body = link_body(events@, lo as int, hi as int, tag);
    proof {
        lemma_add_twice(l0, m0, body);
    }
    let ghost d0 = m0 + body;
    add_word(block, link_mark_word(close_b, &tag));
    proof {
        lemma_add_twice(l0, d0, seq![link_mark(seq![']'], tag)]);
    }
    let ghost d1 = d0 + seq![link_mark(seq![']'], tag)];
    add_word(block, link_mark_word(open_b, &tag));
    proof {
        lemma_add_twice(l0, d1, seq![link_mark(seq!['['], tag)]);
    }
    let ghost d2 = d1 + seq![link_mark(seq!['['], tag)];
    let num = decimal(idx as u64);
    add_word(block, link_mark_word(num.as_str(), &tag));
    proof {
        lemma_add_twice(l0, d2, seq![link_mark(spec_decimal(idx as nat), tag)]);
    }
    let ghost d3 = d2 + seq![link_mark(spec_decimal(idx as nat), tag)];
    add_word(block, link_mark_word(close_b, &tag));
    proof {
        lemma_add_twice(l0, d3, seq![link_mark(seq![']'], tag)]);
        assert(d3 + seq![link_mark(seq![']'], tag)] =~= link_words(events@, lo as int, hi as int, idx));
        let st0 = pstate(*old(block), *old(links));
        let st1 = add_link(st0, link@);
        assert(idx == link_index(st0.3, link@));
        assert(block.links@ == st1.1);
        assert(strings_view(links.links@) == st1.3);
        assert(strings_view(block.footnotes@) == st1.2);
    }
}

/// Some first index exists where the text occurs at all.
proof fn lemma_first_exists(links: Seq<Seq<char>>, link: Seq<char>, i: int)
    requires
        0 <= i < links.len(),
        links[i] == link,
    ensures
        exists|k: int| first_index(links, link, k),
    decreases i,
{
    if exists|j: int| 0 <= j < i && links[j] == link {
        let j = choose|j: int| 0 <= j < i && links[j] == link;
        lemma_first_exists(links, link, j);
    } else {
        assert(first_index(links, link, i));
    }
}

/// The first link equal in text is found at the same place both ways.
proof fn lemma_link_index(v: Seq<String>, link: Seq<char>)
    ensures
        link_pos(v, link) matches Some(k) ==> link_index(strings_view(v), link) == k && 0 <= k < v.len(),
        link_pos(v, link) is None ==> link_index(strings_view(v), link) == v.len(),
{
    let sv = strings_view(v);
    assert forall|i: int| 0 <= i < v.len() implies #[trigger] sv[i] == v[i]@ by {}
    if exists|i: int| 0 <= i < v.len() && (#[trigger] v[i])@ == link {
        let i0 = choose|i: int| 0 <= i < v.len() && (#[trigger] v[i])@ == link;
        assert(sv[i0] == link);
        lemma_first_exists(sv, link, i0);
        let kf = choose|k: int| first_index(sv, link, k);
        assert(0 <= kf < v.len() && v[kf]@ == link && forall|j: int| 0 <= j < kf ==> (#[trigger] v[j])@ != link) by {
            assert forall|j: int| 0 <= j < kf implies (#[trigger] v[j])@ != link by {
                assert(sv[j] != link);
            }
        }
        let k = choose|i: int|
            0 <= i < v.len() && (#[trigger] v[i])@ == link && forall|j: int|
                0 <= j < i ==> (#[trigger] v[j])@ != link;
        let k2 = choose|i: int| first_index(sv, link, i);
        assert(k2 == k) by {
            if k2 < k {
                assert(v[k2]@ != link);
            }
            if k2 > k {
                assert(sv[k] != link);
            }
        }
    } else {
        assert(!exists|i: int| 0 <= i < sv.len() && sv[i] == link) by {
            if exists|i: int| 0 <= i < sv.len() && sv[i] == link {
                let i = choose|i: int| 0 <= i < sv.len() && sv[i] == link;
                assert(v[i]@ == link);
            }
        }
    }
}

/// Append the footnote reference `[^key]`, each piece a word of its own, and record the key
/// in the block.
fn footnote_ref(key: &String, block: &mut Block)
    ensures
        lines_v(final(block).lines@) == add_words_lines(lines_v(old(block).lines@), footnote_ref_words(*key)),
        strings_view(final(block).footnotes@) == with_key(strings_view(old(block).footnotes@), key@),
        final(block).links == old(block).links,
{
    let style = Style::new().fg(Color::LightMagenta);
    let tag = MetaTag::Link(LinkTag::Footnote(key.clone()));
    let open_b = "[";
    let caret = "^";
    let close_b = "]";
    proof {
        reveal_strlit("[");
        reveal_strlit("^");
        reveal_strlit("]");
        assert(open_b@ =~= seq!['[']);
        assert(caret@ =~= seq!['^']);
        assert(close_b@ =~= seq![']']);
    }
    let mut ws: Vec<Word> = Vec::new();
    ws.push(Word { word: str_to_string(open_b), style, tag: tag.clone(), trailling_whitespace: false });
    ws.push(Word { word: str_to_string(caret), style, tag: tag.clone(), trailling_whitespace: false });
    ws.push(Word { word: key.clone(), style, tag: tag.clone(), trailling_whitespace: false });
    ws.push(Word { word: str_to_string(close_b), style, tag, trailling_whitespace: false });
    assert(words_v(ws@) =~= footnote_ref_words(*key));
    add_words_exec(block, ws);
    let ghost mid = block.footnotes@;
    block.push_footnote(key.clone());
    assert(block.footnotes@.map_values(|s: String| s@) =~= strings_view(block.footnotes@));
    assert(mid.map_values(|s: String| s@) =~= strings_view(old(block).footnotes@));
}

/// Append a task marker, `[x]` in yellow when done, `[ ]` otherwise, then a whitespace.
fn task_maker(done: bool, block: &mut Block)
    ensures
        lines_v(final(block).lines@) == add_words_lines(lines_v(old(block).lines@), task_words(done)),
        final(block).links == old(block).links,
        final(block).footnotes == old(block).footnotes,
{
    let x = "[x]";
    let o = "[ ]";
    proof {
        reveal_strlit("[x]");
        reveal_strlit("[ ]");
        assert(x@ =~= seq!['[', 'x', ']']);
        assert(o@ =~= seq!['[', ' ', ']']);
    }
    let task = if done {
        Word { word: str_to_string(x), style: Style::new().fg(Color::LightYellow), tag: MetaTag::Normal, trailling_whitespace: false }
    } else {
        Word::plain(str_to_string(o))
    };
    let space = Word::whitespace();
    assert(space.word@ =~= Seq::<char>::empty());
    let mut ws: Vec<Word> = Vec::new();
    ws.push(task);
    ws.push(space);
    assert(words_v(ws@) =~= task_words(done));
    add_words_exec(block, ws);
}

/// Two spaces per level.
fn indent_of(level: u8) -> (r: String)
    ensures
        r@ == spaces(level as nat),
{
    let two = "  ";
    proof {
        reveal_strlit("  ");
    }
    let mut s = String::new();
    let mut n: u8 = 0;
    while n < level
        invariant
            n <= level,
            s@ == spaces(n as nat),
            two@ == seq![' ', ' '],
        decreases level - n,
    {
        string_push_str(&mut s, two);
        n = n + 1;
    }
    s
}

/// The words before a list item: the indent, then `n. ` for an ordered list (which then
/// counts on) or `* ` in green.
fn item_prefix(level: u8, kind: &mut Option<u64>) -> (r: Vec<Word>)
    ensures
        words_v(r@) == item_prefix_words(level, *old(kind)),
        *final(kind) == next_kind(*old(kind)),
{
    let green = Style::new().fg(Color::Green);
    let (word, tag, next) = match *kind {
        Some(num) => {
            let mut w = decimal(num);
            string_push_str(&mut w, ". ");
            proof {
                reveal_strlit(". ");
                assert(w@ =~= spec_decimal(num as nat) + seq!['.', ' ']);
            }
            (w, MetaTag::ListItemN(num as u8), Some(num.wrapping_add(1)))
        },
        None => {
            let w = str_to_string("* ");
            proof {
                reveal_strlit("* ");
                assert(w@ =~= seq!['*', ' ']);
            }
            (w, MetaTag::ListItem, None)
        },
    };
    *kind = next;
    let first = Word::plain(indent_of(level));
    let second = Word { word, style: green, tag, trailling_whitespace: false };
    let ghost expect = item_prefix_words(level, *old(kind));
    assert(word_v(first) == expect[0]);
    assert(word_v(second) == expect[1]);
    let mut ws: Vec<Word> = Vec::new();
    ws.push(first);
    ws.push(second);
    assert(words_v(ws@) =~= expect);
    ws
}

/// Parse the events `lo..hi` of a paragraph, a list or an item into the block: see
/// [`list_parse`]. The level is that of the list being parsed: each list inside raises it.
pub fn parse(level: &mut u8, kind: Option<u64>, events: &Vec<EventRange>, lo: usize, hi: usize, block: &mut Block, links: &mut Links)
    requires
        lo <= hi <= events@.len(),
    ensures
        (pstate(*final(block), *final(links)), *final(level)) == list_parse(events@, lo as int, hi as int, *old(level), kind, pstate(*old(block), *old(links))),
        final(links).heading == old(links).heading,
        final(links).footnotes == old(links).footnotes,
    decreases hi - lo, 0nat,
{
    let ghost target = list_parse(events@, lo as int, hi as int, *level, kind, pstate(*block, *links));
    let mut k = kind;
    let mut i = lo;
    while i < hi
        invariant
            lo <= i <= hi <= events@.len(),
            list_parse(events@, i as int, hi as int, *level, k, pstate(*block, *links)) == target,
            links.heading == old(links).heading,
            links.footnotes == old(links).footnotes,
        decreases hi - i,
    {
        let ev = &events[i];
        let j = i + 1;
        let ghost st = pstate(*block, *links);
        let ghost lv = *level;
        let ghost kd = k;
        match &ev.event {
            MdEvent::Text(t) => {
                add_seg_words(block, t.as_str(), Style::new(), MetaTag::Normal);
                i = j;
            },
            MdEvent::Code(c) => {
                parse_intra_code(c.as_str(), block);
                i = j;
            },
            MdEvent::SoftBreak | MdEvent::HardBreak => {
                // a whitespace in case the last word of this line and the first of the next
                // end up on the same line after wrapping
                let w = Word::whitespace();
                assert(w.word@ =~= Seq::<char>::empty());
                add_word(block, w);
                i = j;
            },
            MdEvent::FootnoteReference(key) => {
                footnote_ref(key, block);
                i = j;
            },
            MdEvent::TaskListMarker(done) => {
                task_maker(*done, block);
                i = j;
            },
            MdEvent::Start(t) => {
                let end_tag = match t {
                    MdTag::Paragraph => MdTagEnd::Paragraph,
                    MdTag::Heading(l) => MdTagEnd::Heading(*l),
                    MdTag::Table => MdTagEnd::Table,
                    MdTag::List(k2) => MdTagEnd::List(k2.is_some()),
                    MdTag::Item => MdTagEnd::Item,
                    MdTag::Emphasis => MdTagEnd::Emphasis,
                    MdTag::Strong => MdTagEnd::Strong,
                    MdTag::Strikethrough => MdTagEnd::Strikethrough,
                    MdTag::Link(_) => MdTagEnd::Link,
                    MdTag::Image(_) => MdTagEnd::Image,
                    _ => MdTagEnd::Other,
                };
                assert(end_tag == closing(*t));
                let e = find_element_end(events, j, hi, end_tag, ev.start, ev.end);
                let n = if e < hi { e + 1 } else { hi };
                match t {
                    MdTag::Link(dest) => {
                        parse_link(events, j, e, block, links, dest.as_str());
                        i = n;
                    },
                    MdTag::Emphasis => {
                        parse_group(events, j, e, block, Style { add_modifier: Modifier { bits: Modifier::ITALIC }, ..Style::new() }, &MetaTag::Normal);
                        i = n;
                    },
                    MdTag::Strong => {
                        parse_group(events, j, e, block, Style { add_modifier: Modifier { bits: Modifier::BOLD }, ..Style::new() }, &MetaTag::Normal);
                        i = n;
                    },
                    MdTag::Strikethrough => {
                        parse_group(events, j, e, block, Style { add_modifier: Modifier { bits: Modifier::CROSSED_OUT }, ..Style::new() }, &MetaTag::Normal);
                        i = n;
                    },
                    MdTag::Image(dest) => {
                        parse_image(events, j, e, block, dest.as_str());
                        i = n;
                    },
                    MdTag::Item => {
                        let words = item_prefix(*level, &mut k);
                        let mut item_line: Vec<Line> = Vec::new();
                        item_line.push(Line { words });
                        block.extend_lines(item_line);
                        assert(lines_v(block.lines@) =~= st.0.push(item_prefix_words(lv, kd)));
                        // each item is parsed on the level of its list
                        let mut item_level = *level;
                        parse(&mut item_level, k, events, j, e, block, links);
                        i = n;
                    },
                    MdTag::List(k2) => {
                        *level = level.wrapping_add(1);
                        parse(level, *k2, events, j, e, block, links);
                        i = n;
                    },
                    MdTag::Paragraph => {
                        parse_paragraph(events, j, e, block, links);
                        i = n;
                    },
                    _ => {
                        i = j;
                    },
                }
            },
            _ => {
                i = j;
            },
        }
    }
}

/// Parse the events `lo..hi` of a paragraph into the block: see [`list_parse`], from level
/// 0 and outside any ordered list.
pub fn parse_paragraph(events: &Vec<EventRange>, lo: usize, hi: usize, block: &mut Block, links: &mut Links)
    requires
        lo <= hi <= events@.len(),
    ensures
        pstate(*final(block), *final(links)) == list_parse(events@, lo as int, hi as int, 0, None, pstate(*old(block), *old(links))).0,
        final(links).heading == old(links).heading,
        final(links).footnotes == old(links).footnotes,
    decreases hi - lo, 1nat,
{
    let mut level: u8 = 0;
    parse(&mut level, None, events, lo, hi, block, links);
}

/// A link referenced again is recorded once: recording it twice is recording it once, in
/// the doc's links and in the block's.
pub proof fn law_add_link_twice(st: PState, link: Seq<char>)
    ensures
        add_link(add_link(st, link), link) == add_link(st, link),
{
    let idx = link_index(st.3, link);
    let st1 = add_link(st, link);
    if exists|i: int| 0 <= i < st.3.len() && st.3[i] == link {
        let i = choose|i: int| 0 <= i < st.3.len() && st.3[i] == link;
        lemma_first_exists(st.3, link, i);
        assert(first_index(st.3, link, idx));
        assert(st1.3 == st.3);
    } else {
        let l1 = st.3.push(link);
        assert(first_index(l1, link, st.3.len() as int));
        assert(l1[st.3.len() as int] == link);
        let k = choose|k: int| first_index(l1, link, k);
        assert(k == st.3.len()) by {
            if k < st.3.len() {
                assert(l1[k] == st.3[k]);
            }
        }
        assert(link_index(l1, link) == st.3.len());
    }
    assert(st1.1.contains(idx as usize)) by {
        if !st.1.contains(idx as usize) {
            assert(st1.1[st.1.len() as int] == idx as usize);
        }
    }
}

} // verus!
