use vstd::prelude::*;
use crate::style::Style;
use crate::tree::textline::Text;
use crate::ui::markdown::region::SelectedRegion;
use crate::ui::scroll::{LineState, Lines, Scroll};

verus! {

/// A heading in the navigation panel, with the region of the content it jumps to.
pub struct Heading {
    pub line: Text,
    pub jump: SelectedRegion,
}

impl Heading {
    pub fn new(text: String, jump: SelectedRegion) -> (r: Heading)
        ensures
            r.line.text == text,
            r.line.style == Style::spec_new(),
            r.jump == jump,
    {
        Heading { line: Text { text, style: Style::new() }, jump }
    }

    pub fn as_str(&self) -> (r: &str)
        ensures
            r@ == self.line.text@,
    {
        self.line.text.as_str()
    }

    pub fn jump_row_start(&self) -> (r: usize)
        ensures
            r == self.jump.row_start,
    {
        self.jump.row_start()
    }
}

impl LineState for Heading {
    type State = String;

    type StateView = Seq<char>;

    open spec fn state_view(state: String) -> Seq<char> {
        state@
    }

    open spec fn spec_state(&self) -> Seq<char> {
        self.line.text@
    }

    open spec fn spec_identical(&self, state: Seq<char>) -> bool {
        self.line.text@ == state
    }

    fn state(&self) -> (r: String) {
        self.line.text.clone()
    }

    fn is_identical(&self, state: &String) -> (r: bool) {
        self.line.text == *state
    }
}

/// The headings of a documentation.
pub struct Headings {
    pub lines: Vec<Heading>,
}

impl Lines for Headings {
    type Line = Heading;

    open spec fn spec_lines(&self) -> Seq<Heading> {
        self.lines@
    }

    fn lines(&self) -> (r: &[Heading]) {
        self.lines.as_slice()
    }

    proof fn lemma_lines_len(&self) {
        assert(self.lines@.len() == self.lines.len());
    }
}

impl Headings {
    /// No headings yet; the capacity is a hint for the allocation only.
    pub fn with_capacity(cap: usize) -> (r: Headings)
        ensures
            r.lines@.len() == 0,
    {
        Headings { lines: Vec::with_capacity(cap) }
    }

    pub fn new() -> (r: Headings)
        ensures
            r.lines@.len() == 0,
    {
        Headings { lines: Vec::new() }
    }

    /// Append a heading.
    pub fn push(&mut self, text: String, region: SelectedRegion)
        ensures
            final(self).lines@.len() == old(self).lines@.len() + 1,
            final(self).lines@.drop_last() == old(self).lines@,
            final(self).lines@.last().line.text == text,
            final(self).lines@.last().line.style == Style::spec_new(),
            final(self).lines@.last().jump == region,
    {
        self.lines.push(Heading::new(text, region));
        assert(self.lines@.drop_last() =~= old(self).lines@);
    }

    /// Whether the heading at `idx` stands out: its row is on screen, or the rows on screen
    /// lie after it and before the next heading.
    pub open spec fn spec_highlighted(&self, idx: int, content_start: int, content_end: int) -> bool {
        let row_start = self.lines@[idx].jump.row_start as int;
        (content_start <= row_start && content_end > row_start) || (content_start > row_start && (
        if idx + 1 < self.lines@.len() {
            content_end < self.lines@[idx + 1].jump.row_start
        } else {
            true
        }))
    }

    pub fn highlighted(&self, idx: usize, content_start: usize, content_end: usize) -> (r: bool)
        requires
            idx < self.lines@.len(),
        ensures
            r == self.spec_highlighted(idx as int, content_start as int, content_end as int),
    {
        let row_start = self.lines[idx].jump_row_start();
        if content_start <= row_start && content_end > row_start {
            return true;
        }
        if content_start > row_start {
            if idx < self.lines.len() - 1 {
                content_end < self.lines[idx + 1].jump_row_start()
            } else {
                true
            }
        } else {
            false
        }
    }
}

impl Scroll<Headings> {
    /// Show these headings.
    pub fn update_headings(&mut self, headings: Headings)
        ensures
            final(self).lines == headings,
            final(self).start == old(self).start,
            final(self).cursor == old(self).cursor,
            final(self).area == old(self).area,
    {
        self.lines = headings;
    }
}

} // verus!
