use vstd::prelude::*;
use crate::style::Style;
use crate::ui::markdown::wrapped::{ColumnSpan, StyledText};
use crate::ui::scroll::{LineState, Lines};
use crate::util::{str_width, unicode_width_of};

verus! {

/// A line of styled texts, each with the columns it occupies.
pub struct StyledLine {
    pub line: Vec<StyledText>,
    /// the total width of a line
    pub width: usize,
}

/// The texts occupy adjacent columns from column 0 on, and the width is where the last one
/// ends.
pub open spec fn spans_contiguous(line: Seq<StyledText>, width: usize) -> bool {
    &&& forall|i: int|
        0 < i < line.len() ==> (#[trigger] line[i]).span.start == line[i - 1].span.end
    &&& line.len() > 0 ==> line[0].span.start == 0
    &&& width == (if line.len() == 0 {
        0
    } else {
        line.last().span.end
    })
}

pub open spec fn texts_view(line: Seq<StyledText>) -> Seq<Seq<char>> {
    line.map_values(|t: StyledText| t.text.text@)
}

impl StyledLine {
    pub open spec fn wf(&self) -> bool {
        spans_contiguous(self.line@, self.width)
    }

    pub fn new() -> (r: StyledLine)
        ensures
            r.line@.len() == 0,
            r.width == 0,
            r.wf(),
    {
        StyledLine { line: Vec::new(), width: 0 }
    }

    /// Append a text after the others, starting where the line ends.
    pub fn push(&mut self, text: String, style: Style)
        requires
            old(self).wf(),
            old(self).width + unicode_width_of(text@) <= usize::MAX,
        ensures
            final(self).wf(),
            final(self).width == old(self).width + unicode_width_of(text@),
            final(self).line@.len() == old(self).line@.len() + 1,
            final(self).line@.subrange(0, old(self).line@.len() as int) == old(self).line@,
            final(self).line@.last().text.text@ == text@,
            final(self).line@.last().text.style == style,
            final(self).line@.last().span == (ColumnSpan {
                start: old(self).width,
                end: final(self).width,
            }),
    {
        let start = self.width;
        let w = str_width(text.as_str());
        let ghost t = text@;
        self.width = self.width + w;
        let st = StyledText::new(text, style, start);
        self.line.push(st);
        assert(self.line@.subrange(0, old(self).line@.len() as int) =~= old(self).line@);
    }

    /// Lines built from texts: the width is where the last text ends, or 0.
    pub fn from_texts(line: Vec<StyledText>) -> (r: StyledLine)
        ensures
            r.line == line,
            r.width == (if line@.len() == 0 {
                0
            } else {
                line@.last().span.end
            }),
    {
        let width = if line.len() == 0 {
            0
        } else {
            line[line.len() - 1].span_end()
        };
        StyledLine { line, width }
    }

    /// The texts with their styles.
    pub fn iter_text_style(&self) -> (r: Vec<(&str, Style)>)
        ensures
            r@.len() == self.line@.len(),
            forall|i: int|
                0 <= i < r@.len() ==> (#[trigger] r@[i]).0@ == self.line@[i].text.text@ && r@[i].1
                    == self.line@[i].text.style,
    {
        let mut out: Vec<(&str, Style)> = Vec::new();
        let mut i: usize = 0;
        while i < self.line.len()
            invariant
                i <= self.line@.len(),
                out@.len() == i,
                forall|k: int|
                    0 <= k < i ==> (#[trigger] out@[k]).0@ == self.line@[k].text.text@ && out@[k].1
                        == self.line@[k].text.style,
            decreases self.line@.len() - i,
        {
            out.push((self.line[i].as_str(), self.line[i].style()));
            i = i + 1;
        }
        out
    }

    /// Drop one trailing space of the last text, and the column it takes.
    pub fn remove_trailing_whitespace(&mut self)
        requires
            old(self).wf(),
            ends_with_space(old(self).line@) ==> old(self).width > 0,
        ensures
            final(self).wf(),
            ends_with_space(old(self).line@) ==> {
                &&& final(self).line@.len() == old(self).line@.len()
                &&& final(self).line@.drop_last() == old(self).line@.drop_last()
                &&& final(self).line@.last().text.text@ == old(self).line@.last().text.text@.drop_last()
                &&& final(self).line@.last().text.style == old(self).line@.last().text.style
                &&& final(self).width == old(self).width - 1
            },
            !ends_with_space(old(self).line@) ==> final(self).line@ == old(self).line@,
            !ends_with_space(old(self).line@) ==> final(self).width == old(self).width,
    {
        let n = self.line.len();
        if n == 0 {
            return;
        }
        let ghost l = self.line@;
        let mut last = self.line.pop().unwrap();
        assert(last == l.last());
        let removed = last.remove_trailing_whitespace();
        if removed {
            self.width = self.width - 1;
        }
        self.line.push(last);
        proof {
            assert(self.line@.drop_last() =~= l.drop_last());
            assert(self.line@.last() == last);
            if !removed {
                assert(self.line@ =~= l);
            }
            let f = self.line@;
            assert forall|i: int| 0 < i < f.len() implies (#[trigger] f[i]).span.start == f[i
                - 1].span.end by {
                if i < f.len() - 1 {
                    assert(f[i] == l[i]);
                    assert(f[i - 1] == l[i - 1]);
                } else {
                    assert(f[i - 1] == l[i - 1]);
                }
            }
        }
    }
}

/// The last text of the line ends with a space.
pub open spec fn ends_with_space(line: Seq<StyledText>) -> bool {
    line.len() > 0 && line.last().text.text@.len() > 0 && line.last().text.text@.last() == ' '
}

impl LineState for StyledLine {
    type State = Vec<String>;

    type StateView = Seq<Seq<char>>;

    open spec fn state_view(state: Vec<String>) -> Seq<Seq<char>> {
        state@.map_values(|s: String| s@)
    }

    open spec fn spec_state(&self) -> Seq<Seq<char>> {
        texts_view(self.line@)
    }

    /// The texts agree as far as both go.
    open spec fn spec_identical(&self, state: Seq<Seq<char>>) -> bool {
        forall|i: int|
            0 <= i < self.line@.len() && 0 <= i < state.len() ==> (#[trigger] self.line@[i]).text.text@
                == state[i]
    }

    fn state(&self) -> (r: Vec<String>) {
        let mut out: Vec<String> = Vec::new();
        let mut i: usize = 0;
        while i < self.line.len()
            invariant
                i <= self.line@.len(),
                out@.map_values(|s: String| s@) == texts_view(self.line@.subrange(0, i as int)),
            decreases self.line@.len() - i,
        {
            let t = self.line[i].text();
            let ghost before = out@;
            out.push(t);
            proof {
                assert(out@ == before.push(t));
                assert(out@.map_values(|s: String| s@) =~= before.map_values(|s: String| s@).push(t@));
                assert(self.line@.subrange(0, i + 1) == self.line@.subrange(0, i as int).push(
                    self.line@[i as int],
                ));
                assert(out@.map_values(|s: String| s@) =~= texts_view(self.line@.subrange(0, i + 1)));
            }
            i = i + 1;
        }
        assert(self.line@.subrange(0, i as int) == self.line@);
        out
    }

    fn is_identical(&self, state: &Vec<String>) -> (r: bool) {
        let mut i: usize = 0;
        while i < self.line.len() && i < state.len()
            invariant
                i <= self.line@.len(),
                i <= state@.len(),
                forall|k: int| 0 <= k < i ==> (#[trigger] self.line@[k]).text.text@ == state@[k]@,
            decreases self.line@.len() - i,
        {
            if self.line[i].text.text != state[i] {
                assert(Self::state_view(*state)[i as int] == state@[i as int]@);
                return false;
            }
            i = i + 1;
        }
        assert forall|k: int| 0 <= k < self.line@.len() && 0 <= k < Self::state_view(*state).len()
            implies (#[trigger] self.line@[k]).text.text@ == Self::state_view(*state)[k] by {
            assert(Self::state_view(*state)[k] == state@[k]@);
        }
        true
    }
}

/// The lines of the documentation shown in the content panel.
pub struct StyledLines {
    /// Use syntect's highlighting with no text wrapped.
    pub syntect: bool,
    pub lines: Vec<StyledLine>,
}

impl Lines for StyledLines {
    type Line = StyledLine;

    open spec fn spec_lines(&self) -> Seq<StyledLine> {
        self.lines@
    }

    fn lines(&self) -> (r: &[StyledLine]) {
        self.lines.as_slice()
    }

    proof fn lemma_lines_len(&self) {
        assert(self.lines@.len() == self.lines.len());
    }
}

impl StyledLines {
    pub fn new() -> (r: StyledLines)
        ensures
            r.lines@.len() == 0,
            !r.syntect,
    {
        StyledLines { syntect: false, lines: Vec::new() }
    }

    /// Show no documentation.
    pub fn reset_doc(&mut self)
        ensures
            final(self).lines@.len() == 0,
            final(self).syntect == old(self).syntect,
    {
        self.lines = Vec::new();
    }

    /// Show these lines.
    pub fn set_doc(&mut self, lines: Vec<StyledLine>)
        ensures
            final(self).lines == lines,
            final(self).syntect == old(self).syntect,
    {
        self.lines = lines;
    }

    pub fn toggle_sytect(&mut self)
        ensures
            final(self).syntect == !old(self).syntect,
            final(self).lines == old(self).lines,
    {
        self.syntect = !self.syntect;
    }
}

} // verus!
