use vstd::prelude::*;
use pulldown_cmark::{CodeBlockKind, Event, Options, Parser, TagEnd};
use pulldown_cmark::Tag as CmarkTag;

verus! {

/// The start of an element of the markdown, as far as the rendering reads it.
#[derive(Clone, Debug, PartialEq, Eq)]
pub enum MdTag {
    Paragraph,
    Heading(u8),
    BlockQuote,
    CodeBlockIndented,
    /// A fenced code block with its fence text, which may be empty.
    CodeBlockFenced(String),
    /// A list, with the number of its first item when it is ordered.
    List(Option<u64>),
    Item,
    FootnoteDefinition(String),
    Table,
    Emphasis,
    Strong,
    Strikethrough,
    Link(String),
    Image(String),
    Other,
}

/// The end of an element of the markdown.
#[derive(Clone, Copy, Debug, PartialEq, Eq, Structural)]
pub enum MdTagEnd {
    Paragraph,
    Heading(u8),
    /// A list, `true` for ordered lists.
    List(bool),
    Item,
    Table,
    Emphasis,
    Strong,
    Strikethrough,
    Link,
    Image,
    Other,
}

/// A markdown event, as far as the rendering reads it.
#[derive(Clone, Debug, PartialEq, Eq)]
pub enum MdEvent {
    Start(MdTag),
    End(MdTagEnd),
    Text(String),
    Code(String),
    FootnoteReference(String),
    SoftBreak,
    HardBreak,
    Rule,
    TaskListMarker(bool),
    Other,
}

/// An event with the byte range of the source it comes from.
#[derive(Clone, Debug, PartialEq, Eq)]
pub struct EventRange {
    pub event: MdEvent,
    pub start: usize,
    pub end: usize,
}

/// The events of a markdown text as `pulldown_cmark` parses it with footnotes,
/// strikethrough, tables and task lists enabled.
pub uninterp spec fn markdown_events_of(doc: Seq<char>) -> Seq<EventRange>;

/// The event type of `pulldown_cmark`.
#[verifier::external_type_specification]
#[verifier::external_body]
pub struct ExEvent<'a>(Event<'a>);

/// The start tag type of `pulldown_cmark`.
#[verifier::external_type_specification]
#[verifier::external_body]
pub struct ExTag<'a>(CmarkTag<'a>);

/// The end tag type of `pulldown_cmark`.
#[verifier::external_type_specification]
#[verifier::external_body]
pub struct ExTagEnd(TagEnd);

/// Converts a `pulldown_cmark` start tag into the rendering's, one variant for one.
#[verifier::external_body]
fn tag_of(t: CmarkTag) -> MdTag {
    match t {
        CmarkTag::Paragraph => MdTag::Paragraph,
        CmarkTag::Heading { level, .. } => MdTag::Heading(level as u8),
        CmarkTag::BlockQuote(_) => MdTag::BlockQuote,
        CmarkTag::CodeBlock(CodeBlockKind::Indented) => MdTag::CodeBlockIndented,
        CmarkTag::CodeBlock(CodeBlockKind::Fenced(f)) => MdTag::CodeBlockFenced(f.into_string()),
        CmarkTag::List(n) => MdTag::List(n),
        CmarkTag::Item => MdTag::Item,
        CmarkTag::FootnoteDefinition(k) => MdTag::FootnoteDefinition(k.into_string()),
        CmarkTag::Table(_) => MdTag::Table,
        other => inline_tag_of(other),
    }
}

/// Converts a `pulldown_cmark` inline start tag into the rendering's, one variant for one.
#[verifier::external_body]
fn inline_tag_of(t: CmarkTag) -> MdTag {
    match t {
        CmarkTag::Emphasis => MdTag::Emphasis,
        CmarkTag::Strong => MdTag::Strong,
        CmarkTag::Strikethrough => MdTag::Strikethrough,
        CmarkTag::Link { dest_url, .. } => MdTag::Link(dest_url.into_string()),
        CmarkTag::Image { dest_url, .. } => MdTag::Image(dest_url.into_string()),
        _ => MdTag::Other,
    }
}

/// Converts a `pulldown_cmark` end tag into the rendering's, one variant for one.
#[verifier::external_body]
fn tag_end_of(t: TagEnd) -> MdTagEnd {
    match t {
        TagEnd::Paragraph => MdTagEnd::Paragraph,
        TagEnd::Heading(level) => MdTagEnd::Heading(level as u8),
        TagEnd::List(ordered) => MdTagEnd::List(ordered),
        TagEnd::Item => MdTagEnd::Item,
        TagEnd::Table => MdTagEnd::Table,
        TagEnd::Emphasis => MdTagEnd::Emphasis,
        TagEnd::Strong => MdTagEnd::Strong,
        TagEnd::Strikethrough => MdTagEnd::Strikethrough,
        TagEnd::Link => MdTagEnd::Link,
        TagEnd::Image => MdTagEnd::Image,
        _ => MdTagEnd::Other,
    }
}

/// Converts a `pulldown_cmark` event into the rendering's, one variant for one.
#[verifier::external_body]
fn event_of(e: Event) -> MdEvent {
    match e {
        Event::Start(t) => MdEvent::Start(tag_of(t)),
        Event::End(t) => MdEvent::End(tag_end_of(t)),
        Event::Text(s) => MdEvent::Text(s.into_string()),
        Event::Code(s) => MdEvent::Code(s.into_string()),
        Event::FootnoteReference(s) => MdEvent::FootnoteReference(s.into_string()),
        Event::SoftBreak => MdEvent::SoftBreak,
        Event::HardBreak => MdEvent::HardBreak,
        Event::Rule => MdEvent::Rule,
        Event::TaskListMarker(done) => MdEvent::TaskListMarker(done),
        _ => MdEvent::Other,
    }
}

/// Calls `pulldown_cmark::Parser::new_ext` with footnotes, strikethrough, tables and task
/// lists enabled, and walks `into_offset_iter`, converting each event with its byte range.
/// Claims: the result is the name `markdown_events_of` applied to the text; nothing more.
#[verifier::external_body]
pub(crate) fn markdown_events(doc: &str) -> (r: Vec<EventRange>)
    ensures
        r@ == markdown_events_of(doc@),
{
    let options = Options::ENABLE_FOOTNOTES | Options::ENABLE_STRIKETHROUGH
        | Options::ENABLE_TABLES | Options::ENABLE_TASKLISTS;
    Parser::new_ext(doc, options).into_offset_iter().map(
        |(e, range)| EventRange { event: event_of(e), start: range.start, end: range.end },
    ).collect()
}

/// The number of bytes that UTF-8 takes for the character.
pub open spec fn utf8_len(c: char) -> nat {
    if (c as u32) < 0x80 {
        1
    } else if (c as u32) < 0x800 {
        2
    } else if (c as u32) < 0x10000 {
        3
    } else {
        4
    }
}

/// The number of bytes of the text in UTF-8.
pub open spec fn utf8_bytes(s: Seq<char>) -> nat
    decreases s.len(),
{
    if s.len() == 0 {
        0
    } else {
        utf8_bytes(s.drop_last()) + utf8_len(s.last())
    }
}

/// The byte offsets `start` and `end` fall after the first `i` and `j` characters.
pub open spec fn char_bounds(s: Seq<char>, start: nat, end: nat, i: int, j: int) -> bool {
    &&& 0 <= i <= j <= s.len()
    &&& utf8_bytes(s.take(i)) == start
    &&& utf8_bytes(s.take(j)) == end
}

/// The text of a byte range of a string, when the range lies on character boundaries in
/// order; `None` otherwise.
pub open spec fn byte_range_text(s: Seq<char>, start: nat, end: nat) -> Option<Seq<char>> {
    if exists|i: int, j: int| char_bounds(s, start, end, i, j) {
        let (i, j) = choose|i: int, j: int| char_bounds(s, start, end, i, j);
        Some(s.subrange(i, j))
    } else {
        None
    }
}

/// Calls `str::get` with the byte range: the text of the range, or `None` when the range
/// does not lie within the string on character boundaries.
/// Claims: the result is `byte_range_text` of the string and the range.
#[verifier::external_body]
pub(crate) fn str_range(s: &str, start: usize, end: usize) -> (r: Option<&str>)
    ensures
        match r {
            Some(t) => byte_range_text(s@, start as nat, end as nat) == Some(t@),
            None => byte_range_text(s@, start as nat, end as nat) is None,
        },
{
    s.get(start..end)
}

/// The index of the end event that closes the element whose start has the byte range
/// `start..stop`, searched in `from..hi`; `hi` when none does.
pub open spec fn element_end(events: Seq<EventRange>, from: int, hi: int, end: MdTagEnd, start: usize, stop: usize) -> int
    decreases hi - from,
{
    if from >= hi || from < 0 {
        hi
    } else if events[from].event == MdEvent::End(end) && events[from].start == start
        && events[from].end == stop {
        from
    } else {
        element_end(events, from + 1, hi, end, start, stop)
    }
}

pub proof fn lemma_element_end(events: Seq<EventRange>, from: int, hi: int, end: MdTagEnd, start: usize, stop: usize)
    requires
        0 <= from <= hi,
    ensures
        from <= element_end(events, from, hi, end, start, stop) <= hi,
    decreases hi - from,
{
    if from < hi && !(events[from].event == MdEvent::End(end) && events[from].start == start
        && events[from].end == stop) {
        lemma_element_end(events, from + 1, hi, end, start, stop);
    }
}

/// Where the events go on after an element that ends at `e`: past its end event, if any.
pub open spec fn next_after(e: int, hi: int) -> int {
    if e < hi {
        e + 1
    } else {
        hi
    }
}

/// Find the end event that closes an element: the element's events lie between `from` and
/// the returned index.
pub fn find_element_end(events: &Vec<EventRange>, from: usize, hi: usize, end: MdTagEnd, start: usize, stop: usize) -> (r: usize)
    requires
        from <= hi <= events@.len(),
    ensures
        r == element_end(events@, from as int, hi as int, end, start, stop),
        from <= r <= hi,
{
    proof {
        lemma_element_end(events@, from as int, hi as int, end, start, stop);
    }
    let mut i = from;
    while i < hi
        invariant_except_break
            from <= i <= hi,
            element_end(events@, i as int, hi as int, end, start, stop) == element_end(events@, from as int, hi as int, end, start, stop),
        invariant
            hi <= events@.len(),
        ensures
            i == element_end(events@, from as int, hi as int, end, start, stop),
        decreases hi - i,
    {
        let e = &events[i];
        let is_end = match &e.event {
            MdEvent::End(t) => *t == end,
            _ => false,
        };
        if is_end && e.start == start && e.end == stop {
            break;
        }
        i = i + 1;
    }
    i
}

} // verus!
