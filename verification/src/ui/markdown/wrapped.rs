use vstd::prelude::*;
use crate::style::Style;
use crate::tree::textline::Text;
use crate::util::{str_width, string_pop, unicode_width_of};

verus! {

/// The columns a text occupies in a line: from `start` up to `end`, exclusive.
#[derive(Clone, Copy, Debug, Default, PartialEq, Eq)]
pub struct ColumnSpan {
    pub start: usize,
    pub end: usize,
}

impl ColumnSpan {
    pub fn span(self) -> (r: [usize; 2])
        ensures
            r@ == seq![self.start, self.end],
    {
        [self.start, self.end]
    }
}

/// A styled text with the columns it occupies in its line.
pub struct StyledText {
    pub text: Text,
    pub span: ColumnSpan,
}

impl StyledText {
    /// The text starts at column `start` and spans its display width.
    pub fn new(text: String, style: Style, start: usize) -> (r: StyledText)
        requires
            start + unicode_width_of(text@) <= usize::MAX,
        ensures
            r.text.text@ == text@,
            r.text.style == style,
            r.span == (ColumnSpan { start, end: (start + unicode_width_of(text@)) as usize }),
    {
        let end = start + str_width(text.as_str());
        StyledText { text: Text { text, style }, span: ColumnSpan { start, end } }
    }

    pub fn text(&self) -> (r: String)
        ensures
            r@ == self.text.text@,
    {
        self.text.text.clone()
    }

    pub fn as_str(&self) -> (r: &str)
        ensures
            r@ == self.text.text@,
    {
        self.text.text.as_str()
    }

    pub fn style(&self) -> (r: Style)
        ensures
            r == self.text.style,
    {
        self.text.style
    }

    pub fn span_end(&self) -> (r: usize)
        ensures
            r == self.span.end,
    {
        self.span.end
    }

    pub fn span(&self) -> (r: ColumnSpan)
        ensures
            r == self.span,
    {
        self.span
    }

    /// Drop one trailing space from the text, and the column it takes; tells whether one was
    /// there.
    pub fn remove_trailing_whitespace(&mut self) -> (r: bool)
        requires
            old(self).text.text@.len() > 0 && old(self).text.text@.last() == ' '
                ==> old(self).span.end > 0,
        ensures
            r == (old(self).text.text@.len() > 0 && old(self).text.text@.last() == ' '),
            r ==> final(self).text.text@ == old(self).text.text@.drop_last() && final(self).span
                == (ColumnSpan { start: old(self).span.start, end: (old(self).span.end - 1) as usize }),
            !r ==> *final(self) == *old(self),
            final(self).text.style == old(self).text.style,
    {
        let n = self.text.text.as_str().unicode_len();
        if n > 0 && self.text.text.as_str().get_char(n - 1) == ' ' {
            string_pop(&mut self.text.text);
            self.span.end = self.span.end - 1;
            true
        } else {
            false
        }
    }
}

} // verus!
