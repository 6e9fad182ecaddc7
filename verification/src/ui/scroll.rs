use vstd::prelude::*;

verus! {

/// A rectangular area of the terminal screen, in cells.
#[derive(Clone, Copy, Debug, PartialEq, Eq, Structural, Default)]
pub struct Rect {
    pub x: u16,
    pub y: u16,
    pub width: u16,
    pub height: u16,
}

impl Rect {
    /// The right and bottom edges stay on the u16 grid.
    pub open spec fn wf(self) -> bool {
        &&& self.x + self.width <= u16::MAX
        &&& self.y + self.height <= u16::MAX
    }

    pub open spec fn spec_contains(self, x: int, y: int) -> bool {
        &&& self.x <= x < self.x + self.width
        &&& self.y <= y < self.y + self.height
    }

    /// Whether the cell at column `x` and row `y` lies in the area.
    pub fn contains(&self, x: u16, y: u16) -> (r: bool)
        requires
            self.wf(),
        ensures
            r == self.spec_contains(x as int, y as int),
    {
        (x >= self.x) && (x < self.x + self.width) && (y >= self.y) && (y < self.y + self.height)
    }
}

/// What a line remembers of itself so that the cursor can find it again
/// after the screen was redrawn.
pub trait LineState {
    type State;

    /// What a state says of a line, as a mathematical value.
    type StateView;

    spec fn state_view(state: Self::State) -> Self::StateView;

    spec fn spec_state(&self) -> Self::StateView;

    spec fn spec_identical(&self, state: Self::StateView) -> bool;

    fn state(&self) -> (r: Self::State)
        ensures
            Self::state_view(r) == self.spec_state(),
    ;

    fn is_identical(&self, state: &Self::State) -> (r: bool)
        ensures
            r == self.spec_identical(Self::state_view(*state)),
    ;
}

/// A collection of lines that a scroll shows.
pub trait Lines {
    type Line: LineState;

    spec fn spec_lines(&self) -> Seq<Self::Line>;

    fn lines(&self) -> (r: &[Self::Line])
        ensures
            r@ == self.spec_lines(),
    ;

    /// There are at most `usize::MAX` lines.
    proof fn lemma_lines_len(&self)
        ensures
            self.spec_lines().len() <= usize::MAX,
    ;
}

impl<L: LineState> Lines for Vec<L> {
    type Line = L;

    open spec fn spec_lines(&self) -> Seq<L> {
        self@
    }

    fn lines(&self) -> (r: &[L]) {
        self.as_slice()
    }

    proof fn lemma_lines_len(&self) {
        assert(self@.len() == self.len());
    }
}

pub struct Cursor<S> {
    /// The row position on screen, relative to the area's top.
    pub y: u16,
    /// The state of the line the cursor was on last time.
    pub state: S,
}

impl<S: Default> Default for Cursor<S> {
    /// The cursor on the first row, with the default state.
    fn default() -> (r: Self)
        ensures
            r.y == 0,
    {
        Cursor { y: 0, state: S::default() }
    }
}

/// Scroll by fixed rows or half/full screen
#[derive(Clone, Copy, Debug, PartialEq, Eq)]
pub enum ScrollOffset {
    Fixed(usize),
    HalfScreen,
    FullScreen,
}

pub open spec fn sat_sub(a: int, b: int) -> int {
    if a >= b {
        a - b
    } else {
        0
    }
}

pub open spec fn min_int(a: int, b: int) -> int {
    if a <= b {
        a
    } else {
        b
    }
}

/// The number of rows that an offset scrolls on a screen of the given height.
pub open spec fn offset_rows(offset: ScrollOffset, height: int) -> int {
    match offset {
        ScrollOffset::Fixed(n) => n as int,
        ScrollOffset::HalfScreen => sat_sub(height, 1) / 2,
        ScrollOffset::FullScreen => height,
    }
}

/// The first index from `i` on whose line is identical to `state`.
pub open spec fn first_identical<L: LineState>(s: Seq<L>, state: L::StateView, i: int) -> Option<int>
    decreases s.len() - i,
{
    if i < 0 || i >= s.len() {
        None
    } else if s[i].spec_identical(state) {
        Some(i)
    } else {
        first_identical(s, state, i + 1)
    }
}

pub proof fn lemma_first_identical<L: LineState>(s: Seq<L>, state: L::StateView, i: int)
    requires
        0 <= i,
    ensures
        match first_identical(s, state, i) {
            Some(p) => i <= p < s.len() && s[p].spec_identical(state) && forall|q: int|
                i <= q < p ==> !(#[trigger] s[q]).spec_identical(state),
            None => forall|q: int| i <= q < s.len() ==> !(#[trigger] s[q]).spec_identical(state),
        },
    decreases s.len() - i,
{
    if i < s.len() && !s[i].spec_identical(state) {
        lemma_first_identical(s, state, i + 1);
    }
}

/// A text panel that can be scrolled and that highlights the row under its cursor.
pub struct Scroll<Ls: Lines> {
    /// All lines, including the ones not on screen.
    pub lines: Ls,
    /// The index of the first line on screen.
    pub start: usize,
    /// The cursor row and the line it was on.
    pub cursor: Cursor<<Ls::Line as LineState>::State>,
    /// The widget area, usually not the full screen.
    pub area: Rect,
}

impl<Ls: Lines + Default> Default for Scroll<Ls> where <Ls::Line as LineState>::State: Default {
    /// Default lines from their top, the cursor on the first row, and an empty area.
    fn default() -> (r: Self)
        ensures
            r.start == 0,
            r.cursor.y == 0,
            r.area == (Rect { x: 0, y: 0, width: 0, height: 0 }),
    {
        Scroll {
            lines: Ls::default(),
            start: 0,
            cursor: Cursor::default(),
            area: Rect { x: 0, y: 0, width: 0, height: 0 },
        }
    }
}

/// What a scroll is as far as its behaviour goes: its lines, the start row, the cursor row,
/// what the cursor remembers of its line, and the area.
pub struct ScrollModel<Ls, V> {
    pub lines: Ls,
    pub start: usize,
    pub y: u16,
    pub state: V,
    pub area: Rect,
}

impl<Ls: Lines> ScrollModel<Ls, <Ls::Line as LineState>::StateView> {
    pub open spec fn len(&self) -> int {
        self.lines.spec_lines().len() as int
    }

    pub open spec fn height(&self) -> int {
        self.area.height as int
    }

    /// The exclusive end of the visible rows.
    pub open spec fn visible_end(&self) -> int {
        min_int(self.start + self.height(), self.len())
    }

    /// Lines can be shown when there are some and the start does not lie beyond them.
    pub open spec fn has_visible(&self) -> bool {
        self.len() > 0 && self.start <= self.len()
    }

    pub open spec fn spec_visible(&self) -> Seq<Ls::Line> {
        self.lines.spec_lines().subrange(self.start as int, self.visible_end())
    }

    /// The cursor points to a visible line.
    pub open spec fn cursor_on_line(&self) -> bool {
        self.has_visible() && (self.y as int) < self.visible_end() - self.start
    }

    /// No index arithmetic on the start row overflows.
    pub open spec fn fits(&self) -> bool {
        self.start + self.height() <= usize::MAX
    }

    /// The cursor row and state after remembering the line under the cursor. A cursor beyond
    /// the lines moves to the last line on screen, or to the top row with the last line's state
    /// when no line is on screen.
    pub open spec fn remembered(&self) -> (u16, <Ls::Line as LineState>::StateView) {
        if self.cursor_on_line() {
            (self.y, self.lines.spec_lines()[self.start + self.y].spec_state())
        } else if self.len() > 0 {
            if self.visible_end() > self.start {
                (
                    (self.visible_end() - self.start - 1) as u16,
                    self.lines.spec_lines()[self.visible_end() - 1].spec_state(),
                )
            } else {
                (0, self.lines.spec_lines()[self.len() - 1].spec_state())
            }
        } else {
            (self.y, self.state)
        }
    }

    /// The cursor row that `check_if_can_return_to_previous_cursor` leaves, and its result.
    pub open spec fn returned(&self) -> (bool, u16) {
        let maximum = min_int(self.len(), self.height());
        let y = if self.y >= maximum {
            sat_sub(maximum, 1) as u16
        } else {
            self.y
        };
        if self.has_visible() {
            match first_identical(self.spec_visible(), self.state, 0) {
                Some(p) => (true, p as u16),
                None => (false, y),
            }
        } else {
            (false, y)
        }
    }


    pub open spec fn with_cursor(self, y: u16, state: <Ls::Line as LineState>::StateView) -> Self {
        ScrollModel { lines: self.lines, start: self.start, y, state, area: self.area }
    }

    pub open spec fn with_lines(self, lines: Ls) -> Self {
        ScrollModel { lines, start: self.start, y: self.y, state: self.state, area: self.area }
    }

    pub open spec fn with_start(self, start: usize) -> Self {
        ScrollModel { lines: self.lines, start, y: self.y, state: self.state, area: self.area }
    }

    /// The scroll after remembering the line under the cursor.
    pub open spec fn spec_set_cursor_state(self) -> Self {
        self.with_cursor(self.remembered().0, self.remembered().1)
    }

    /// The scroll after trying to return the cursor to the line it was on.
    pub open spec fn spec_check_cursor(self) -> Self {
        self.with_cursor(self.returned().1, self.state)
    }

    pub open spec fn spec_scroll_down(self, offset: ScrollOffset) -> Self {
        let rows = offset_rows(offset, self.height());
        if self.start + rows > self.len() {
            self
        } else {
            self.spec_set_cursor_state().with_start(
                min_int(self.start + rows, sat_sub(self.len(), self.height())) as usize,
            ).spec_check_cursor()
        }
    }

    pub open spec fn spec_scroll_up(self, offset: ScrollOffset) -> Self {
        let rows = offset_rows(offset, self.height());
        self.spec_set_cursor_state().with_start(sat_sub(self.start as int, rows) as usize).spec_check_cursor()
    }

    /// Scrolling by `offset` rows downwards does not overflow the start row.
    pub open spec fn can_scroll_down(&self, offset: ScrollOffset) -> bool {
        self.start + offset_rows(offset, self.height()) <= usize::MAX
    }
}

impl<Ls: Lines> Scroll<Ls> {
    pub open spec fn model(&self) -> ScrollModel<Ls, <Ls::Line as LineState>::StateView> {
        ScrollModel {
            lines: self.lines,
            start: self.start,
            y: self.cursor.y,
            state: <Ls::Line as LineState>::state_view(self.cursor.state),
            area: self.area,
        }
    }

    pub open spec fn len(&self) -> int {
        self.model().len()
    }

    pub open spec fn height(&self) -> int {
        self.model().height()
    }

    pub open spec fn visible_end(&self) -> int {
        self.model().visible_end()
    }

    pub open spec fn has_visible(&self) -> bool {
        self.model().has_visible()
    }

    pub open spec fn spec_visible(&self) -> Seq<Ls::Line> {
        self.model().spec_visible()
    }

    pub open spec fn cursor_on_line(&self) -> bool {
        self.model().cursor_on_line()
    }

    pub open spec fn fits(&self) -> bool {
        self.model().fits()
    }

    pub open spec fn can_scroll_down(&self, offset: ScrollOffset) -> bool {
        self.model().can_scroll_down(offset)
    }

    pub open spec fn bottom_row(&self) -> u16 {
        self.model().bottom_row()
    }

    pub fn all_lines(&self) -> (r: &[Ls::Line])
        ensures
            r@ == self.lines.spec_lines(),
    {
        self.lines.lines()
    }

    pub fn total_len(&self) -> (r: usize)
        ensures
            r == self.len(),
    {
        self.lines.lines().len()
    }

    pub fn is_empty(&self) -> (r: bool)
        ensures
            r == (self.len() == 0),
    {
        self.lines.lines().len() == 0
    }

    /// The visible lines to be rendered.
    pub fn visible_lines(&self) -> (r: Option<&[Ls::Line]>)
        requires
            self.fits(),
        ensures
            r is Some == self.has_visible(),
            r matches Some(s) ==> s@ == self.spec_visible(),
    {
        let total_len = self.lines.lines().len();
        if total_len == 0 {
            return None;
        }
        let end = self.start + self.area.height as usize;
        let end = if end < total_len {
            end
        } else {
            total_len
        };
        if self.start <= end {
            Some(vstd::slice::slice_subrange(self.lines.lines(), self.start, end))
        } else {
            None
        }
    }

    /// The line that the cursor on screen points to.
    pub fn get_line_of_current_cursor(&self) -> (r: Option<&Ls::Line>)
        requires
            self.fits(),
        ensures
            r is Some == self.cursor_on_line(),
            r matches Some(l) ==> *l == self.lines.spec_lines()[self.start + self.cursor.y],
    {
        match self.visible_lines() {
            Some(lines) => {
                let cursor = self.cursor.y as usize;
                if cursor < lines.len() {
                    Some(&lines[cursor])
                } else {
                    None
                }
            },
            None => None,
        }
    }

    /// The line shown on screen row `y`: `y` is a row of the screen, not an index of the lines.
    pub fn get_line_on_screen(&self, y: u16) -> (r: Option<&Ls::Line>)
        requires
            self.fits(),
        ensures
            r is Some == (y >= self.area.y && self.has_visible() && y - self.area.y
                < self.visible_end() - self.start),
            r matches Some(l) ==> *l == self.spec_visible()[y - self.area.y],
            r matches Some(l) ==> *l == self.lines.spec_lines()[self.start + (y - self.area.y)],
    {
        if y < self.area.y {
            return None;
        }
        let offset = y - self.area.y;
        match self.visible_lines() {
            Some(lines) => {
                let idx = offset as usize;
                if idx < lines.len() {
                    Some(&lines[idx])
                } else {
                    None
                }
            },
            None => None,
        }
    }

    /// Put the cursor on screen row `y` when a line is shown there, and return that line.
    /// Unlike scrolling, this does not try to return to the line the cursor was on.
    pub fn force_line_on_screen(&mut self, y: u16) -> (r: Option<&Ls::Line>)
        requires
            old(self).area.wf(),
            old(self).start + u16::MAX <= usize::MAX,
        ensures
            r is Some == (old(self).len() > 0 && old(self).area.y <= y < old(self).area.y
                + old(self).area.height && old(self).start + (y - old(self).area.y) < old(
                self,
            ).len()),
            r matches Some(l) ==> *l == old(self).lines.spec_lines()[old(self).start + (y - old(
                self,
            ).area.y)],
            r is Some ==> final(self).cursor.y == y - old(self).area.y,
            r is None ==> final(self).cursor.y == old(self).cursor.y,
            final(self).cursor.state == old(self).cursor.state,
            final(self).lines == old(self).lines,
            final(self).start == old(self).start,
            final(self).area == old(self).area,
    {
        if !self.is_empty() && y >= self.area.y && y < self.area.y + self.area.height {
            let y = y - self.area.y;
            let idx = self.start + (y as usize);
            let lines = self.lines.lines();
            if idx < lines.len() {
                self.cursor.y = y;
                return Some(&lines[idx]);
            }
        }
        None
    }

    /// Check the cursor position and its state after redrawing:
    /// keep it within the lines and the screen, and move it onto the line it was
    /// on before if that line is visible.
    pub fn check_if_can_return_to_previous_cursor(&mut self) -> (r: bool)
        requires
            old(self).fits(),
        ensures
            (r, final(self).cursor.y) == old(self).model().returned(),
            final(self).cursor.state == old(self).cursor.state,
            final(self).lines == old(self).lines,
            final(self).start == old(self).start,
            final(self).area == old(self).area,
    {
        let height = self.area.height;
        let total = self.lines.lines().len();
        let maximum: u16 = if total < height as usize {
            total as u16
        } else {
            height
        };
        if self.cursor.y >= maximum {
            self.cursor.y = maximum.saturating_sub(1);
        }
        let ghost st = Ls::Line::state_view(self.cursor.state);
        let found = match self.visible_lines() {
            Some(lines) => {
                let ghost vis = lines@;
                let n = lines.len();
                let mut pos: usize = 0;
                while pos < n
                    invariant_except_break
                        first_identical(vis, st, 0) == first_identical(vis, st, pos as int),
                    invariant
                        vis == lines@,
                        n == vis.len(),
                        n <= self.height(),
                        pos <= n,
                        st == Ls::Line::state_view(self.cursor.state),
                    ensures
                        pos < n ==> first_identical(vis, st, 0) == Some(pos as int),
                        pos >= n ==> first_identical(vis, st, 0) is None,
                    decreases n - pos,
                {
                    if lines[pos].is_identical(&self.cursor.state) {
                        assert(first_identical(vis, st, pos as int) == Some(pos as int));
                        break;
                    }
                    pos = pos + 1;
                }
                proof {
                    if pos >= n {
                        assert(first_identical(vis, st, n as int) is None);
                    }
                }
                if pos < n {
                    Some(pos)
                } else {
                    None
                }
            },
            None => None,
        };
        match found {
            Some(pos) => {
                self.cursor.y = pos as u16;
                true
            },
            None => false,
        }
    }

    /// Remember the line the cursor is on; a cursor beyond the lines moves to the last line on
    /// screen.
    fn set_cursor_state(&mut self)
        requires
            old(self).fits(),
        ensures
            (final(self).cursor.y, Ls::Line::state_view(final(self).cursor.state)) == old(self).model().remembered(),
            final(self).lines == old(self).lines,
            final(self).start == old(self).start,
            final(self).area == old(self).area,
    {
        if self.get_line_of_current_cursor().is_some() {
            let idx = self.start + self.cursor.y as usize;
            self.cursor.state = self.lines.lines()[idx].state();
        } else if self.lines.lines().len() > 0 {
            let len = self.lines.lines().len();
            let end = self.start + self.area.height as usize;
            let end = if end < len {
                end
            } else {
                len
            };
            if end > self.start {
                // the cursor lies beyond the lines: put it on the last line on screen
                self.cursor.state = self.lines.lines()[end - 1].state();
                self.cursor.y = (end - 1 - self.start) as u16;
            } else {
                self.cursor.state = self.lines.lines()[len - 1].state();
                self.cursor.y = 0;
            }
        }
    }
}

impl<Ls: Lines> ScrollModel<Ls, <Ls::Line as LineState>::StateView> {
    proof fn lemma_scroll_down_fits(self, offset: ScrollOffset)
        requires
            self.fits(),
        ensures
            self.spec_scroll_down(offset).fits(),
            self.spec_scroll_down(offset).lines == self.lines,
            self.spec_scroll_down(offset).area == self.area,
    {
        let rows = offset_rows(offset, self.height());
        self.lines.lemma_lines_len();
        if self.start + rows <= self.len() {
            let m = min_int(self.start + rows, sat_sub(self.len(), self.height()));
            assert(0 <= m <= self.len());
            let s1 = self.spec_set_cursor_state().with_start(m as usize);
            assert(s1.start == m);
            assert(s1.spec_check_cursor().start == m);
        }
    }

    proof fn lemma_scroll_up_fits(self, offset: ScrollOffset)
        requires
            self.fits(),
        ensures
            self.spec_scroll_up(offset).fits(),
    {
    }

    /// The scroll state right before the cursor steps one row down.
    pub open spec fn before_forward_step(self) -> Self {
        if self.y + 1 == self.height() {
            self.spec_scroll_down(ScrollOffset::Fixed(1))
        } else {
            self
        }
    }

    pub open spec fn spec_move_forward_cursor(self) -> Self {
        let s = self.before_forward_step();
        let y = if s.y + 1 == s.height() {
            s.y
        } else {
            (s.y + 1) as u16
        };
        s.with_cursor(y, s.state).spec_set_cursor_state()
    }

    pub open spec fn spec_move_backward_cursor(self) -> Self {
        let s = if self.y == 0 {
            self.spec_scroll_up(ScrollOffset::Fixed(1))
        } else {
            self
        };
        s.with_cursor(sat_sub(s.y as int, 1) as u16, s.state).spec_set_cursor_state()
    }

    pub open spec fn bottom_row(self) -> u16 {
        sat_sub(min_int(self.height(), self.len()), 1) as u16
    }

    /// Put the cursor on row `y` if both a screen row and a line are there.
    pub open spec fn spec_set_cursor(self, y: u16) -> Self {
        if y < self.height() && self.start + y < self.len() {
            self.with_cursor(y, self.state).spec_set_cursor_state()
        } else {
            self
        }
    }

    /// After the lines changed: start from the top if nothing would show, try to return the
    /// cursor to the line it was on, and else put it on the first row.
    pub open spec fn spec_after_lines_changed(self) -> Self {
        let m1 = if self.has_visible() {
            self
        } else {
            self.with_start(0)
        };
        let m2 = m1.spec_check_cursor();
        if m1.returned().0 {
            m2
        } else {
            m2.spec_set_cursor(0)
        }
    }

    /// The start row stays within the lines, and the lines and the area stay, whatever the
    /// scroll or cursor operation.
    pub proof fn lemma_start_within(self, offset: ScrollOffset, y: u16)
        requires
            self.start <= self.len(),
        ensures
            self.spec_scroll_down(offset).start <= self.len(),
            self.spec_scroll_down(offset).lines == self.lines,
            self.spec_scroll_down(offset).area == self.area,
            self.spec_scroll_up(offset).start <= self.len(),
            self.spec_scroll_up(offset).lines == self.lines,
            self.spec_scroll_up(offset).area == self.area,
            self.spec_move_forward_cursor().start <= self.len(),
            self.spec_move_forward_cursor().lines == self.lines,
            self.spec_move_forward_cursor().area == self.area,
            self.spec_move_backward_cursor().start <= self.len(),
            self.spec_move_backward_cursor().lines == self.lines,
            self.spec_move_backward_cursor().area == self.area,
            self.with_cursor(y, self.state).spec_set_cursor_state().start == self.start,
            self.with_cursor(y, self.state).spec_set_cursor_state().lines == self.lines,
            self.with_cursor(y, self.state).spec_set_cursor_state().area == self.area,
    {
        self.lines.lemma_lines_len();
        let rows = offset_rows(offset, self.height());
        if self.start + rows <= self.len() {
            let m = min_int(self.start + rows, sat_sub(self.len(), self.height()));
            assert(0 <= m <= self.len());
            assert(self.spec_set_cursor_state().with_start(m as usize).spec_check_cursor().start == m);
        }
        let r1 = offset_rows(ScrollOffset::Fixed(1), self.height());
        if self.start + r1 <= self.len() {
            let m = min_int(self.start + r1, sat_sub(self.len(), self.height()));
            assert(0 <= m <= self.len());
            assert(self.spec_set_cursor_state().with_start(m as usize).spec_check_cursor().start == m);
        }
    }
}

impl<Ls: Lines> ScrollModel<Ls, <Ls::Line as LineState>::StateView> {
    proof fn lemma_remembered_below(self)
        requires
            self.height() > 0,
            self.y < self.height(),
        ensures
            self.spec_set_cursor_state().y < self.height(),
            self.spec_set_cursor_state().start == self.start,
            self.spec_set_cursor_state().lines == self.lines,
            self.spec_set_cursor_state().area == self.area,
    {
    }

    proof fn lemma_returned_below(self)
        requires
            self.height() > 0,
            self.y < self.height(),
        ensures
            self.spec_check_cursor().y < self.height(),
            self.spec_check_cursor().start == self.start,
    {
        if self.has_visible() {
            lemma_first_identical(self.spec_visible(), self.state, 0);
        }
    }

    proof fn lemma_scroll_below(self, offset: ScrollOffset)
        requires
            self.height() > 0,
            self.y < self.height(),
        ensures
            self.spec_scroll_down(offset).y < self.height(),
            self.spec_scroll_down(offset).area == self.area,
            self.spec_scroll_up(offset).y < self.height(),
            self.spec_scroll_up(offset).area == self.area,
    {
        self.lemma_remembered_below();
        let s = self.spec_set_cursor_state();
        let rows = offset_rows(offset, self.height());
        s.with_start(min_int(self.start + rows, sat_sub(self.len(), self.height())) as usize).lemma_returned_below();
        s.with_start(sat_sub(self.start as int, rows) as usize).lemma_returned_below();
    }

    /// The cursor row stays below the area's height through every scroll and cursor
    /// operation.
    pub proof fn law_cursor_below_height(self, offset: ScrollOffset, y: u16)
        requires
            self.height() > 0,
            self.y < self.height(),
        ensures
            self.spec_scroll_down(offset).y < self.height(),
            self.spec_scroll_up(offset).y < self.height(),
            self.spec_move_forward_cursor().y < self.height(),
            self.spec_move_backward_cursor().y < self.height(),
            self.spec_set_cursor(y).y < self.height(),
            self.spec_after_lines_changed().y < self.height(),
            self.with_start(0).with_cursor(0, self.state).spec_set_cursor_state().y < self.height(),
            self.with_cursor(self.bottom_row(), self.state).spec_set_cursor_state().y < self.height(),
            self.with_start(sat_sub(self.len(), self.height()) as usize).with_cursor(
                self.bottom_row(),
                self.state,
            ).spec_set_cursor_state().y < self.height(),
            ({
                let s = self.with_cursor(self.bottom_row(), self.state).spec_set_cursor_state();
                s.with_cursor(s.y / 2, s.state).spec_set_cursor_state().y < self.height()
            }),
    {
        self.lemma_scroll_below(offset);
        self.lemma_scroll_below(ScrollOffset::Fixed(1));
        let f = self.before_forward_step();
        let fy: u16 = if f.y + 1 == f.height() {
            f.y
        } else {
            (f.y + 1) as u16
        };
        f.with_cursor(fy, f.state).lemma_remembered_below();
        let b = if self.y == 0 {
            self.spec_scroll_up(ScrollOffset::Fixed(1))
        } else {
            self
        };
        b.with_cursor(sat_sub(b.y as int, 1) as u16, b.state).lemma_remembered_below();
        if y < self.height() {
            self.with_cursor(y, self.state).lemma_remembered_below();
        }
        let m1 = if self.has_visible() {
            self
        } else {
            self.with_start(0)
        };
        m1.lemma_returned_below();
        let m2 = m1.spec_check_cursor();
        m2.with_cursor(0, m2.state).lemma_remembered_below();
        self.with_start(0).with_cursor(0, self.state).lemma_remembered_below();
        self.with_cursor(self.bottom_row(), self.state).lemma_remembered_below();
        let s = self.with_cursor(self.bottom_row(), self.state).spec_set_cursor_state();
        s.with_cursor(s.y / 2, s.state).lemma_remembered_below();
        self.with_start(sat_sub(self.len(), self.height()) as usize).with_cursor(
            self.bottom_row(),
            self.state,
        ).lemma_remembered_below();
    }
}

/// Scrolling
impl<Ls: Lines> Scroll<Ls> {
    pub fn scroll_down(&mut self, offset: ScrollOffset)
        requires
            old(self).fits(),
            old(self).can_scroll_down(offset),
        ensures
            final(self).model() == old(self).model().spec_scroll_down(offset),
            old(self).start + offset_rows(offset, old(self).height()) > old(self).len() ==> *final(self)
                == *old(self),
            old(self).area.height > 0 && old(self).cursor.y < old(self).area.height ==> final(self).cursor.y < old(self).area.height,
    {
        proof {
            if old(self).area.height > 0 && old(self).cursor.y < old(self).area.height {
                old(self).model().law_cursor_below_height(offset, 0);
            }
        }
        let height = self.area.height as usize;
        let len = self.lines.lines().len();
        let nrows = match offset {
            ScrollOffset::Fixed(n) => n,
            ScrollOffset::HalfScreen => height.saturating_sub(1) / 2,
            ScrollOffset::FullScreen => height,
        };
        let maybe_outside = self.start + nrows;
        // don't let the last row leave the bottom
        if maybe_outside > len {
            return;
        }
        self.set_cursor_state();
        let bottom = len.saturating_sub(height);
        self.start = if maybe_outside < bottom {
            maybe_outside
        } else {
            bottom
        };
        self.check_if_can_return_to_previous_cursor();
    }

    pub fn scroll_up(&mut self, offset: ScrollOffset)
        requires
            old(self).fits(),
        ensures
            final(self).model() == old(self).model().spec_scroll_up(offset),
            old(self).area.height > 0 && old(self).cursor.y < old(self).area.height ==> final(self).cursor.y < old(self).area.height,
    {
        proof {
            if old(self).area.height > 0 && old(self).cursor.y < old(self).area.height {
                old(self).model().law_cursor_below_height(offset, 0);
            }
        }
        let height = self.area.height as usize;
        let nrows = match offset {
            ScrollOffset::Fixed(n) => n,
            ScrollOffset::HalfScreen => height.saturating_sub(1) / 2,
            ScrollOffset::FullScreen => height,
        };
        self.set_cursor_state();
        self.start = self.start.saturating_sub(nrows);
        self.check_if_can_return_to_previous_cursor();
    }

    pub fn scroll_home(&mut self)
        requires
            old(self).height() <= usize::MAX,
        ensures
            final(self).model() == old(self).model().with_start(0).with_cursor(0, old(self).model().state).spec_set_cursor_state(),
            old(self).area.height > 0 && old(self).cursor.y < old(self).area.height ==> final(self).cursor.y < old(self).area.height,
    {
        proof {
            if old(self).area.height > 0 && old(self).cursor.y < old(self).area.height {
                old(self).model().law_cursor_below_height(ScrollOffset::Fixed(0), 0);
            }
        }
        self.start = 0;
        self.cursor.y = 0;
        self.set_cursor_state();
    }

    pub fn scroll_end(&mut self)
        ensures
            final(self).model() == old(self).model().with_start(sat_sub(old(self).len(), old(self).height()) as usize)
                .with_cursor(
                sat_sub(min_int(old(self).len(), old(self).height()), 1) as u16,
                old(self).model().state,
            ).spec_set_cursor_state(),
            old(self).area.height > 0 && old(self).cursor.y < old(self).area.height ==> final(self).cursor.y < old(self).area.height,
    {
        proof {
            if old(self).area.height > 0 && old(self).cursor.y < old(self).area.height {
                old(self).model().law_cursor_below_height(ScrollOffset::Fixed(0), 0);
            }
        }
        let height = self.area.height;
        let heightu = height as usize;
        let len = self.lines.lines().len();
        self.start = len.saturating_sub(heightu);
        let bot = if len < heightu {
            len as u16
        } else {
            height
        };
        self.cursor.y = bot.saturating_sub(1);
        assert(self.start + heightu <= len || self.start == 0);
        assert(self.fits());
        self.set_cursor_state();
    }
}

/// Cursor movement
impl<Ls: Lines> Scroll<Ls> {
    pub fn move_forward_cursor(&mut self)
        requires
            old(self).fits(),
            old(self).can_scroll_down(ScrollOffset::Fixed(1)),
            old(self).cursor.y < u16::MAX,
            old(self).model().before_forward_step().y < u16::MAX,
        ensures
            final(self).model() == old(self).model().spec_move_forward_cursor(),
            old(self).area.height > 0 && old(self).cursor.y < old(self).area.height ==> final(self).cursor.y < old(self).area.height,
    {
        proof {
            if old(self).area.height > 0 && old(self).cursor.y < old(self).area.height {
                old(self).model().law_cursor_below_height(ScrollOffset::Fixed(0), 0);
            }
        }
        let height = self.area.height;
        let reach_screen_bottom = (self.cursor.y + 1) == height;
        if reach_screen_bottom {
            // scroll down for a new line
            proof {
                old(self).model().lemma_scroll_down_fits(ScrollOffset::Fixed(1));
            }
            self.scroll_down(ScrollOffset::Fixed(1));
        }
        // still be careful to cross the screen's bottom
        self.cursor.y = self.cursor.y + if (self.cursor.y + 1) == height {
            0
        } else {
            1
        };
        self.set_cursor_state();
    }

    pub fn move_backward_cursor(&mut self)
        requires
            old(self).fits(),
        ensures
            final(self).model() == old(self).model().spec_move_backward_cursor(),
            old(self).area.height > 0 && old(self).cursor.y < old(self).area.height ==> final(self).cursor.y < old(self).area.height,
    {
        proof {
            if old(self).area.height > 0 && old(self).cursor.y < old(self).area.height {
                old(self).model().law_cursor_below_height(ScrollOffset::Fixed(0), 0);
            }
        }
        if self.cursor.y == 0 {
            // scroll up for a new line
            proof {
                old(self).model().lemma_scroll_up_fits(ScrollOffset::Fixed(1));
            }
            self.scroll_up(ScrollOffset::Fixed(1));
        }
        // still be careful to cross the screen's top
        self.cursor.y = self.cursor.y.saturating_sub(1);
        self.set_cursor_state();
    }

    pub fn move_top_cursor(&mut self)
        requires
            old(self).fits(),
        ensures
            final(self).model() == old(self).model().with_cursor(0, old(self).model().state).spec_set_cursor_state(),
            old(self).area.height > 0 && old(self).cursor.y < old(self).area.height ==> final(self).cursor.y < old(self).area.height,
    {
        proof {
            if old(self).area.height > 0 && old(self).cursor.y < old(self).area.height {
                old(self).model().law_cursor_below_height(ScrollOffset::Fixed(0), 0);
            }
        }
        self.cursor.y = 0;
        self.set_cursor_state();
    }

    pub fn move_bottom_cursor(&mut self)
        requires
            old(self).fits(),
        ensures
            final(self).model() == old(self).model().with_cursor(old(self).bottom_row(), old(self).model().state)
                .spec_set_cursor_state(),
            old(self).area.height > 0 && old(self).cursor.y < old(self).area.height ==> final(self).cursor.y < old(self).area.height,
    {
        proof {
            if old(self).area.height > 0 && old(self).cursor.y < old(self).area.height {
                old(self).model().law_cursor_below_height(ScrollOffset::Fixed(0), 0);
            }
        }
        let height = self.area.height as usize;
        let len = self.lines.lines().len();
        let rows = if height < len {
            height
        } else {
            len
        };
        self.cursor.y = rows.saturating_sub(1) as u16;
        self.set_cursor_state();
    }

    pub fn move_middle_cursor(&mut self)
        requires
            old(self).fits(),
        ensures
            ({
                let s = old(self).model().with_cursor(old(self).bottom_row(), old(self).model().state)
                    .spec_set_cursor_state();
                final(self).model() == s.with_cursor(s.y / 2, s.state).spec_set_cursor_state()
            }),
            old(self).area.height > 0 && old(self).cursor.y < old(self).area.height ==> final(self).cursor.y < old(self).area.height,
    {
        proof {
            if old(self).area.height > 0 && old(self).cursor.y < old(self).area.height {
                old(self).model().law_cursor_below_height(ScrollOffset::Fixed(0), 0);
            }
        }
        self.move_bottom_cursor();
        self.cursor.y = self.cursor.y / 2;
        self.set_cursor_state();
    }

    /// After the lines changed: start from the top if nothing would show, try to return the
    /// cursor to the line it was on, and else put it on the first row.
    pub fn update_after_lines_changed(&mut self)
        requires
            old(self).fits(),
        ensures
            final(self).model() == old(self).model().spec_after_lines_changed(),
            old(self).area.height > 0 && old(self).cursor.y < old(self).area.height ==> final(self).cursor.y < old(self).area.height,
    {
        proof {
            if old(self).area.height > 0 && old(self).cursor.y < old(self).area.height {
                old(self).model().law_cursor_below_height(ScrollOffset::Fixed(0), 0);
            }
        }
        if self.visible_lines().is_none() {
            // start from the beginning if nothing needs to show up
            self.start = 0;
        }
        // try jumping to the previous line
        if !self.check_if_can_return_to_previous_cursor() {
            // if no previous line is found, jump to the first line
            self.set_cursor(0);
        }
    }

    /// Put the cursor on row `y` if both a screen row and a line are there.
    pub fn set_cursor(&mut self, y: u16)
        requires
            old(self).fits(),
        ensures
            (y < old(self).height() && old(self).start + y < old(self).len()) ==> final(self).model()
                == old(self).model().with_cursor(y, old(self).model().state).spec_set_cursor_state(),
            !(y < old(self).height() && old(self).start + y < old(self).len()) ==> *final(self) == *old(self),
            final(self).model() == old(self).model().spec_set_cursor(y),
            old(self).area.height > 0 && old(self).cursor.y < old(self).area.height ==> final(self).cursor.y < old(self).area.height,
    {
        proof {
            if old(self).area.height > 0 && old(self).cursor.y < old(self).area.height {
                old(self).model().law_cursor_below_height(ScrollOffset::Fixed(0), y);
            }
        }
        if y < self.area.height && self.start + (y as usize) < self.lines.lines().len() {
            self.cursor.y = y;
            self.set_cursor_state();
        }
    }
}

} // verus!
