use vstd::prelude::*;
use crate::style::{Color, Style};
use crate::tree::id::{opt_id_view, ID};
use crate::tree::outline::{
    expanded_all, expanded_current_module, expanded_first_level, expanded_toggle,
    expanded_zero_level, TreeLines,
};
use crate::ui::markdown::heading::Headings;
use crate::ui::markdown::lines::{StyledLine, StyledLines};
use crate::ui::scroll::{sat_sub, min_int, Lines, Rect, Scroll, ScrollModel, ScrollOffset};
use crate::util::str_to_string;

verus! {

/// The panels of a page.
#[derive(Clone, Copy, Debug, PartialEq, Eq, Structural)]
pub enum Panel {
    Outline,
    Content,
    Navigation,
}

/// The border block around a panel: its style and the area it covers, the inner area included.
#[derive(Clone, Copy, Debug, PartialEq, Eq)]
pub struct Surround {
    pub style: Style,
    pub area: Rect,
}

impl Surround {
    pub fn new(style: Style, area: Rect) -> (r: Surround)
        ensures
            r.style == style,
            r.area == area,
    {
        Surround { style, area }
    }

    pub fn area(&self) -> (r: Rect)
        ensures
            r == self.area,
    {
        self.area
    }

    /// The area inside the border.
    pub fn inner(&self) -> (r: Rect)
        ensures
            r == spec_bordered_inner(self.area),
    {
        bordered_inner(self.area)
    }

    /// Take a new outer area, and return the new inner area only when the outer one changed.
    pub fn update_area(&mut self, area: Rect) -> (r: Option<Rect>)
        ensures
            old(self).area == area ==> r is None && *final(self) == *old(self),
            old(self).area != area ==> r == Some(spec_bordered_inner(area)),
            final(self).area == area,
            final(self).style == old(self).style,
    {
        if self.area == area {
            return None;
        }
        self.area = area;
        Some(self.inner())
    }
}

pub open spec fn sat_add_u16(a: u16, b: u16) -> u16 {
    if a + b <= u16::MAX {
        (a + b) as u16
    } else {
        u16::MAX
    }
}

/// The area inside a border on all four sides: the top-left corner one cell in, but not past
/// the right or bottom edge, and two cells off the width and the height.
pub open spec fn spec_bordered_inner(area: Rect) -> Rect {
    Rect {
        x: if sat_add_u16(area.x, 1) <= sat_add_u16(area.x, area.width) {
            sat_add_u16(area.x, 1)
        } else {
            sat_add_u16(area.x, area.width)
        },
        y: if sat_add_u16(area.y, 1) <= sat_add_u16(area.y, area.height) {
            sat_add_u16(area.y, 1)
        } else {
            sat_add_u16(area.y, area.height)
        },
        width: sat_sub(area.width as int, 2) as u16,
        height: sat_sub(area.height as int, 2) as u16,
    }
}

/// ratatui's `Block::bordered().inner(area)`. Its source, for a block with all four borders, no
/// title and no padding, moves `x` and `y` one cell in (saturating, and at most to the right
/// and bottom edges) and takes one cell off the width and the height for each border,
/// saturating at zero.
#[verifier::external_body]
fn bordered_inner(area: Rect) -> (r: Rect)
    ensures
        r == spec_bordered_inner(area),
{
    let outer = ratatui::layout::Rect { x: area.x, y: area.y, width: area.width, height: area.height };
    let inner = ratatui::widgets::Block::bordered().inner(outer);
    Rect { x: inner.x, y: inner.y, width: inner.width, height: inner.height }
}

/// The style of the border of the panel in focus.
pub open spec fn spec_set_style() -> Style {
    Style { bg: Some(Color::Rgb(20, 19, 18)), ..Style::spec_new() }
}

/// The style of the border of the other panels.
pub open spec fn spec_new_style() -> Style {
    Style::spec_new()
}

fn set_style() -> (r: Style)
    ensures
        r == spec_set_style(),
{
    Style::new().bg(Color::Rgb(20, 19, 18))
}

/// The outline panel: the folded module tree.
pub struct OutlinePanel {
    pub display: Scroll<TreeLines>,
    pub border: Surround,
}

/// The content panel: the documentation of the item under the outline's cursor.
pub struct ContentPanel {
    pub display: Scroll<StyledLines>,
    pub border: Surround,
}

/// The navigation panel: the headings of the documentation.
pub struct NavigationPanel {
    pub display: Scroll<Headings>,
    pub border: Surround,
}

/// A page shows the outline, the content and the navigation side by side.
pub struct Page {
    pub outline: OutlinePanel,
    pub content: ContentPanel,
    pub navi: NavigationPanel,
    pub current: Option<Panel>,
    pub area: Rect,
}

impl Scroll<TreeLines> {
    /// The id of the item on the cursor's line, if the line has one.
    pub open spec fn spec_id(&self) -> Option<Seq<char>> {
        let k = self.start + self.cursor.y;
        if k < self.len() {
            opt_id_view(self.lines.lines@[k].id)
        } else {
            None
        }
    }

    /// Get the item id the current cursor points to. Non-item nodes have no id.
    pub fn get_id(&self) -> (r: Option<ID>)
        requires
            self.start + u16::MAX <= usize::MAX,
        ensures
            opt_id_view(r) == self.spec_id(),
    {
        let k = self.cursor.y as usize + self.start;
        let lines = self.lines.all_lines();
        if k < lines.len() {
            match &lines[k].id {
                Some(id) => Some(id.clone()),
                None => None,
            }
        } else {
            None
        }
    }
}

/// Scroll positions stay usable: the start row and any screen row after it fit in usize.
pub open spec fn scroll_fits<Ls: Lines>(s: Scroll<Ls>) -> bool {
    s.start + u16::MAX <= usize::MAX
}

impl Page {
    /// The documentation that the content panel is asked to show next: the doc of the item
    /// under the outline's cursor, or none, in which case the content is cleared.
    pub open spec fn spec_doc_request(&self) -> Option<Seq<char>> {
        match self.outline.display.spec_id() {
            Some(id) => self.outline.display.lines.doc.spec_get_doc(id),
            None => None,
        }
    }

    /// After the outline's cursor moved: when the item has a doc, the content's start row goes
    /// back to the top and `Some(doc)` asks for the doc to be shown with `show_content`;
    /// otherwise the content is cleared here.
    pub fn update_content(&mut self) -> (r: Option<String>)
        requires
            scroll_fits(old(self).outline.display),
        ensures
            final(self).content_requested(old(self).content, r),
            final(self).outline == old(self).outline,
            final(self).content.border == old(self).content.border,
            final(self).navi == old(self).navi,
            final(self).current == old(self).current,
            final(self).area == old(self).area,
    {
        match self.outline.display.get_id() {
            Some(id) => match self.outline.display.lines.doc.get_doc(&id) {
                Some(doc) => {
                    // a new doc is shown from its top
                    self.content.display.start = 0;
                    return Some(str_to_string(doc));
                },
                None => {},
            },
            None => {},
        }
        self.content.display.lines.reset_doc();
        None
    }

    /// Show the rendered documentation and its headings, from the top.
    pub fn show_content(&mut self, lines: Vec<StyledLine>, headings: Headings)
        ensures
            final(self).content.display.lines.lines == lines,
            final(self).content.display.start == 0,
            final(self).content.display.cursor == old(self).content.display.cursor,
            final(self).content.display.area == old(self).content.display.area,
            final(self).content.border == old(self).content.border,
            final(self).navi.display.lines == headings,
            final(self).navi.display.start == old(self).navi.display.start,
            final(self).navi.display.cursor == old(self).navi.display.cursor,
            final(self).navi.display.area == old(self).navi.display.area,
            final(self).navi.border == old(self).navi.border,
            final(self).outline == old(self).outline,
            final(self).current == old(self).current,
            final(self).area == old(self).area,
    {
        self.content.display.lines.set_doc(lines);
        self.content.display.start = 0;
        self.navi.display.update_headings(headings);
    }
}

/// The start row lies within the lines, and any screen row after the lines fits in usize.
pub open spec fn scroll_bounded<Ls: Lines>(s: Scroll<Ls>) -> bool {
    &&& s.start <= s.len()
    &&& s.len() + u16::MAX <= usize::MAX
}

/// The content was cleared: no lines, all else as before.
pub open spec fn content_cleared(c: ContentPanel, before: ContentPanel) -> bool {
    &&& c.display.lines.lines@.len() == 0
    &&& c.display.lines.syntect == before.display.lines.syntect
    &&& c.display.start == before.display.start
    &&& c.display.cursor == before.display.cursor
    &&& c.display.area == before.display.area
}

impl Page {
    /// After the outline's cursor moved: `r` asks for the doc of the item under the cursor,
    /// with the content's start row back at the top and all else as it was; or there is no
    /// such doc and the content is cleared.
    pub open spec fn content_requested(&self, before: ContentPanel, r: Option<String>) -> bool {
        match r {
            Some(d) => {
                &&& self.spec_doc_request() == Some(d@)
                &&& self.content.display.lines == before.display.lines
                &&& self.content.display.cursor == before.display.cursor
                &&& self.content.display.area == before.display.area
                &&& self.content.display.start == 0
            },
            None => self.spec_doc_request() is None && content_cleared(self.content, before),
        }
    }

    proof fn lemma_bounded_fits<Ls: Lines>(s: Scroll<Ls>)
        requires
            scroll_bounded(s),
        ensures
            s.fits(),
            scroll_fits(s),
            s.can_scroll_down(ScrollOffset::Fixed(1)),
            s.can_scroll_down(ScrollOffset::HalfScreen),
            s.can_scroll_down(ScrollOffset::FullScreen),
    {
    }

    pub fn scrolldown(&mut self, offset: ScrollOffset) -> (r: Option<String>)
        requires
            old(self).current == Some(Panel::Outline) ==> scroll_bounded(old(self).outline.display)
                && old(self).outline.display.can_scroll_down(offset),
            old(self).current == Some(Panel::Content) ==> old(self).content.display.fits() && old(
                self,
            ).content.display.can_scroll_down(offset),
        ensures
            old(self).current == Some(Panel::Outline) ==> {
                &&& final(self).outline.display.model() == old(self).outline.display.model().spec_scroll_down(offset)
                &&& final(self).outline.border == old(self).outline.border
                &&& final(self).content_requested(old(self).content, r)
            },
            old(self).current == Some(Panel::Content) ==> {
                &&& final(self).content.display.model() == old(self).content.display.model().spec_scroll_down(offset)
                &&& final(self).content.border == old(self).content.border
                &&& final(self).outline == old(self).outline
                &&& r is None
            },
            old(self).current != Some(Panel::Outline) && old(self).current != Some(Panel::Content) ==> {
                &&& final(self).outline == old(self).outline
                &&& final(self).content == old(self).content
                &&& r is None
            },
            final(self).content.border == old(self).content.border,
            final(self).navi == old(self).navi,
            final(self).current == old(self).current,
            final(self).area == old(self).area,
    {
        match self.current {
            Some(Panel::Outline) => {
                proof {
                    Self::lemma_bounded_fits(self.outline.display);
                    self.outline.display.model().lemma_start_within(offset, 0);
                }
                self.outline.display.scroll_down(offset);
                self.update_content()
            },
            Some(Panel::Content) => {
                self.content.display.scroll_down(offset);
                None
            },
            _ => None,
        }
    }

    pub fn scrollup(&mut self, offset: ScrollOffset) -> (r: Option<String>)
        requires
            old(self).current == Some(Panel::Outline) ==> scroll_bounded(old(self).outline.display),
            old(self).current == Some(Panel::Content) ==> old(self).content.display.fits(),
        ensures
            old(self).current == Some(Panel::Outline) ==> {
                &&& final(self).outline.display.model() == old(self).outline.display.model().spec_scroll_up(offset)
                &&& final(self).outline.border == old(self).outline.border
                &&& final(self).content_requested(old(self).content, r)
            },
            old(self).current == Some(Panel::Content) ==> {
                &&& final(self).content.display.model() == old(self).content.display.model().spec_scroll_up(offset)
                &&& final(self).content.border == old(self).content.border
                &&& final(self).outline == old(self).outline
                &&& r is None
            },
            old(self).current != Some(Panel::Outline) && old(self).current != Some(Panel::Content) ==> {
                &&& final(self).outline == old(self).outline
                &&& final(self).content == old(self).content
                &&& r is None
            },
            final(self).content.border == old(self).content.border,
            final(self).navi == old(self).navi,
            final(self).current == old(self).current,
            final(self).area == old(self).area,
    {
        match self.current {
            Some(Panel::Outline) => {
                proof {
                    Self::lemma_bounded_fits(self.outline.display);
                    self.outline.display.model().lemma_start_within(offset, 0);
                }
                self.outline.display.scroll_up(offset);
                self.update_content()
            },
            Some(Panel::Content) => {
                self.content.display.scroll_up(offset);
                None
            },
            _ => None,
        }
    }

    pub fn scroll_home(&mut self) -> (r: Option<String>)
        requires
            old(self).current == Some(Panel::Outline) ==> scroll_bounded(old(self).outline.display),
        ensures
            old(self).current == Some(Panel::Outline) ==> {
                &&& final(self).outline.display.model() == old(self).outline.display.model().with_start(0).with_cursor(
                    0,
                    old(self).outline.display.model().state,
                ).spec_set_cursor_state()
                &&& final(self).outline.border == old(self).outline.border
                &&& final(self).content_requested(old(self).content, r)
            },
            old(self).current == Some(Panel::Content) ==> {
                &&& final(self).content.display.model() == old(self).content.display.model().with_start(0).with_cursor(
                    0,
                    old(self).content.display.model().state,
                ).spec_set_cursor_state()
                &&& final(self).content.border == old(self).content.border
                &&& final(self).outline == old(self).outline
                &&& r is None
            },
            old(self).current != Some(Panel::Outline) && old(self).current != Some(Panel::Content) ==> {
                &&& final(self).outline == old(self).outline
                &&& final(self).content == old(self).content
                &&& r is None
            },
            final(self).content.border == old(self).content.border,
            final(self).navi == old(self).navi,
            final(self).current == old(self).current,
            final(self).area == old(self).area,
    {
        match self.current {
            Some(Panel::Outline) => {
                proof {
                    Self::lemma_bounded_fits(self.outline.display);
                    self.outline.display.model().with_start(0).lemma_start_within(ScrollOffset::Fixed(0), 0);
                }
                self.outline.display.scroll_home();
                self.update_content()
            },
            Some(Panel::Content) => {
                self.content.display.scroll_home();
                None
            },
            _ => None,
        }
    }

    pub fn scroll_end(&mut self) -> (r: Option<String>)
        requires
            old(self).current == Some(Panel::Outline) ==> scroll_bounded(old(self).outline.display),
        ensures
            old(self).current == Some(Panel::Outline) ==> {
                let m = old(self).outline.display.model();
                &&& final(self).outline.display.model() == m.with_start(
                    sat_sub(m.len(), m.height()) as usize,
                ).with_cursor(sat_sub(min_int(m.len(), m.height()), 1) as u16, m.state).spec_set_cursor_state()
                &&& final(self).outline.border == old(self).outline.border
                &&& final(self).content_requested(old(self).content, r)
            },
            old(self).current == Some(Panel::Content) ==> {
                let m = old(self).content.display.model();
                &&& final(self).content.display.model() == m.with_start(
                    sat_sub(m.len(), m.height()) as usize,
                ).with_cursor(sat_sub(min_int(m.len(), m.height()), 1) as u16, m.state).spec_set_cursor_state()
                &&& final(self).content.border == old(self).content.border
                &&& final(self).outline == old(self).outline
                &&& r is None
            },
            old(self).current != Some(Panel::Outline) && old(self).current != Some(Panel::Content) ==> {
                &&& final(self).outline == old(self).outline
                &&& final(self).content == old(self).content
                &&& r is None
            },
            final(self).content.border == old(self).content.border,
            final(self).navi == old(self).navi,
            final(self).current == old(self).current,
            final(self).area == old(self).area,
    {
        match self.current {
            Some(Panel::Outline) => {
                proof {
                    let m = self.outline.display.model();
                    m.lines.lemma_lines_len();
                    m.with_start(sat_sub(m.len(), m.height()) as usize).lemma_start_within(
                        ScrollOffset::Fixed(0),
                        sat_sub(min_int(m.len(), m.height()), 1) as u16,
                    );
                }
                self.outline.display.scroll_end();
                self.update_content()
            },
            Some(Panel::Content) => {
                self.content.display.scroll_end();
                None
            },
            _ => None,
        }
    }

    /// Move the outline's cursor one line down and ask for that line's doc.
    pub fn move_forward_cursor(&mut self) -> (r: Option<String>)
        requires
            scroll_bounded(old(self).outline.display),
            old(self).outline.display.cursor.y < u16::MAX,
            old(self).outline.display.model().before_forward_step().y < u16::MAX,
        ensures
            final(self).outline.display.model() == old(self).outline.display.model().spec_move_forward_cursor(),
            final(self).outline.border == old(self).outline.border,
            final(self).content_requested(old(self).content, r),
            final(self).content.border == old(self).content.border,
            final(self).navi == old(self).navi,
            final(self).current == old(self).current,
            final(self).area == old(self).area,
    {
        proof {
            Self::lemma_bounded_fits(self.outline.display);
            self.outline.display.model().lemma_start_within(ScrollOffset::Fixed(1), 0);
        }
        self.outline.display.move_forward_cursor();
        self.update_content()
    }

    /// Move the outline's cursor one line up and ask for that line's doc.
    pub fn move_backward_cursor(&mut self) -> (r: Option<String>)
        requires
            scroll_bounded(old(self).outline.display),
        ensures
            final(self).outline.display.model() == old(self).outline.display.model().spec_move_backward_cursor(),
            final(self).outline.border == old(self).outline.border,
            final(self).content_requested(old(self).content, r),
            final(self).content.border == old(self).content.border,
            final(self).navi == old(self).navi,
            final(self).current == old(self).current,
            final(self).area == old(self).area,
    {
        proof {
            Self::lemma_bounded_fits(self.outline.display);
            self.outline.display.model().lemma_start_within(ScrollOffset::Fixed(1), 0);
        }
        self.outline.display.move_backward_cursor();
        self.update_content()
    }

    /// Move the outline's cursor to the top row and ask for that line's doc.
    pub fn move_top_cursor(&mut self) -> (r: Option<String>)
        requires
            scroll_bounded(old(self).outline.display),
        ensures
            final(self).outline.display.model() == old(self).outline.display.model().with_cursor(
                0,
                old(self).outline.display.model().state,
            ).spec_set_cursor_state(),
            final(self).outline.border == old(self).outline.border,
            final(self).content_requested(old(self).content, r),
            final(self).content.border == old(self).content.border,
            final(self).navi == old(self).navi,
            final(self).current == old(self).current,
            final(self).area == old(self).area,
    {
        proof {
            Self::lemma_bounded_fits(self.outline.display);
            self.outline.display.model().lemma_start_within(ScrollOffset::Fixed(0), 0);
        }
        self.outline.display.move_top_cursor();
        self.update_content()
    }

    /// Move the outline's cursor to the bottom row and ask for that line's doc.
    pub fn move_bottom_cursor(&mut self) -> (r: Option<String>)
        requires
            scroll_bounded(old(self).outline.display),
        ensures
            final(self).outline.display.model() == old(self).outline.display.model().with_cursor(
                old(self).outline.display.bottom_row(),
                old(self).outline.display.model().state,
            ).spec_set_cursor_state(),
            final(self).outline.border == old(self).outline.border,
            final(self).content_requested(old(self).content, r),
            final(self).content.border == old(self).content.border,
            final(self).navi == old(self).navi,
            final(self).current == old(self).current,
            final(self).area == old(self).area,
    {
        proof {
            Self::lemma_bounded_fits(self.outline.display);
            self.outline.display.model().lemma_start_within(
                ScrollOffset::Fixed(0),
                self.outline.display.bottom_row(),
            );
        }
        self.outline.display.move_bottom_cursor();
        self.update_content()
    }

    /// Move the outline's cursor to the middle row and ask for that line's doc.
    pub fn move_middle_cursor(&mut self) -> (r: Option<String>)
        requires
            scroll_bounded(old(self).outline.display),
        ensures
            ({
                let s = old(self).outline.display.model().with_cursor(
                    old(self).outline.display.bottom_row(),
                    old(self).outline.display.model().state,
                ).spec_set_cursor_state();
                final(self).outline.display.model() == s.with_cursor(s.y / 2, s.state).spec_set_cursor_state()
            }),
            final(self).outline.border == old(self).outline.border,
            final(self).content_requested(old(self).content, r),
            final(self).content.border == old(self).content.border,
            final(self).navi == old(self).navi,
            final(self).current == old(self).current,
            final(self).area == old(self).area,
    {
        proof {
            Self::lemma_bounded_fits(self.outline.display);
            let m = self.outline.display.model();
            m.lemma_start_within(ScrollOffset::Fixed(0), self.outline.display.bottom_row());
            let s = m.with_cursor(self.outline.display.bottom_row(), m.state).spec_set_cursor_state();
            s.lemma_start_within(ScrollOffset::Fixed(0), (s.y / 2) as u16);
        }
        self.outline.display.move_middle_cursor();
        self.update_content()
    }
}

/// The outline after its lines changed by a fold: the scroll adjusts as
/// `spec_after_lines_changed` says, over the new lines.
pub open spec fn outline_refolded(before: OutlinePanel, lines: TreeLines, after: OutlinePanel) -> bool {
    &&& after.display.lines == lines
    &&& after.display.model() == before.display.model().with_lines(lines).spec_after_lines_changed()
    &&& after.border == before.border
}

impl Page {
    fn update_after_folding_outline(&mut self)
        requires
            scroll_fits(old(self).outline.display),
        ensures
            final(self).outline.display.model() == old(self).outline.display.model().spec_after_lines_changed(),
            final(self).outline.border == old(self).outline.border,
            final(self).content == old(self).content,
            final(self).navi == old(self).navi,
            final(self).current == old(self).current,
            final(self).area == old(self).area,
    {
        self.outline.display.update_after_lines_changed();
    }

    /// Focus the outline on the module under the cursor.
    pub fn outline_fold(&mut self)
        requires
            old(self).outline.display.lines.wf(),
            scroll_fits(old(self).outline.display),
        ensures
            old(self).outline.display.spec_id() is None ==> *final(self) == *old(self),
            old(self).outline.display.spec_id() matches Some(id) ==> {
                &&& expanded_current_module(old(self).outline.display.lines, id, final(self).outline.display.lines)
                &&& outline_refolded(old(self).outline, final(self).outline.display.lines, final(self).outline)
            },
            final(self).content == old(self).content,
            final(self).navi == old(self).navi,
            final(self).current == old(self).current,
            final(self).area == old(self).area,
    {
        match self.outline.display.get_id() {
            Some(id) => {
                self.outline.display.lines.expand_current_module_only(id);
                self.update_after_folding_outline();
            },
            None => {},
        }
    }

    /// Expand a folded module under the cursor, or fold an expanded one.
    pub fn outline_fold_expand_toggle(&mut self)
        requires
            old(self).outline.display.lines.wf(),
            scroll_fits(old(self).outline.display),
        ensures
            old(self).outline.display.spec_id() is None ==> *final(self) == *old(self),
            old(self).outline.display.spec_id() matches Some(id) ==> {
                &&& expanded_toggle(old(self).outline.display.lines, id, final(self).outline.display.lines)
                &&& outline_refolded(old(self).outline, final(self).outline.display.lines, final(self).outline)
            },
            final(self).content == old(self).content,
            final(self).navi == old(self).navi,
            final(self).current == old(self).current,
            final(self).area == old(self).area,
    {
        match self.outline.display.get_id() {
            Some(id) => {
                self.outline.display.lines.expand_toggle(id);
                self.update_after_folding_outline();
            },
            None => {},
        }
    }

    /// Expand all modules with all their items.
    pub fn outline_fold_expand_all(&mut self)
        requires
            old(self).outline.display.lines.wf(),
            scroll_fits(old(self).outline.display),
        ensures
            expanded_all(old(self).outline.display.lines, final(self).outline.display.lines),
            outline_refolded(old(self).outline, final(self).outline.display.lines, final(self).outline),
            final(self).content == old(self).content,
            final(self).navi == old(self).navi,
            final(self).current == old(self).current,
            final(self).area == old(self).area,
    {
        self.outline.display.lines.expand_all();
        self.update_after_folding_outline();
    }

    /// Expand the items of the root module, with submodules folded.
    pub fn outline_fold_expand_zero_level(&mut self)
        requires
            old(self).outline.display.lines.wf(),
            scroll_fits(old(self).outline.display),
        ensures
            expanded_zero_level(old(self).outline.display.lines, final(self).outline.display.lines),
            outline_refolded(old(self).outline, final(self).outline.display.lines, final(self).outline),
            final(self).content == old(self).content,
            final(self).navi == old(self).navi,
            final(self).current == old(self).current,
            final(self).area == old(self).area,
    {
        self.outline.display.lines.expand_zero_level();
        self.update_after_folding_outline();
    }

    /// Expand the items of the root module and of the modules directly in it.
    pub fn outline_fold_expand_first_level_modules_only(&mut self)
        requires
            old(self).outline.display.lines.wf(),
            scroll_fits(old(self).outline.display),
        ensures
            expanded_first_level(old(self).outline.display.lines, final(self).outline.display.lines),
            outline_refolded(old(self).outline, final(self).outline.display.lines, final(self).outline),
            final(self).content == old(self).content,
            final(self).navi == old(self).navi,
            final(self).current == old(self).current,
            final(self).area == old(self).area,
    {
        self.outline.display.lines.expand_to_first_level_modules();
        self.update_after_folding_outline();
    }

    /// The content's start row after a jump to a heading: a few rows above the heading, but
    /// not beyond that many rows before the end.
    pub open spec fn spec_jump_start(heading_row: int, content_len: int) -> int {
        min_int(sat_sub(heading_row, 3), sat_sub(content_len, 3))
    }

    /// The row `y` of the navigation panel shows a heading.
    pub open spec fn heading_hit(&self, y: u16) -> bool {
        let nv = self.navi.display;
        y >= nv.area.y && nv.has_visible() && y - nv.area.y < nv.visible_end() - nv.start
    }

    /// Scroll the content to the heading shown on row `y` of the navigation panel, if any.
    pub fn heading_jump(&mut self, y: u16) -> (r: bool)
        requires
            scroll_bounded(old(self).navi.display),
        ensures
            r == old(self).heading_hit(y),
            r ==> final(self).content.display.start == Self::spec_jump_start(
                old(self).navi.display.spec_visible()[y - old(self).navi.display.area.y].jump.row_start as int,
                old(self).content.display.len(),
            ),
            r ==> final(self).content.display.lines == old(self).content.display.lines,
            r ==> final(self).content.display.cursor == old(self).content.display.cursor,
            r ==> final(self).content.display.area == old(self).content.display.area,
            r ==> final(self).content.border == old(self).content.border,
            !r ==> final(self).content == old(self).content,
            final(self).outline == old(self).outline,
            final(self).navi == old(self).navi,
            final(self).current == old(self).current,
            final(self).area == old(self).area,
    {
        proof {
            Self::lemma_bounded_fits(self.navi.display);
        }
        let found = match self.navi.display.get_line_on_screen(y) {
            Some(heading) => Some(heading.jump_row_start()),
            None => None,
        };
        match found {
            Some(row) => {
                // the upper bound: usually not needed, unless y points to a line beyond the doc
                let limit = self.content.display.total_len().saturating_sub(3);
                let s = row.saturating_sub(3);
                self.content.display.start = if s < limit {
                    s
                } else {
                    limit
                };
                true
            },
            None => false,
        }
    }

    /// The borders' styles with one panel in focus.
    pub open spec fn styled_for(&self, focus: Panel) -> bool {
        &&& self.outline.border.style == (if focus == Panel::Outline {
            spec_set_style()
        } else {
            spec_new_style()
        })
        &&& self.content.border.style == (if focus == Panel::Content {
            spec_set_style()
        } else {
            spec_new_style()
        })
        &&& self.navi.border.style == (if focus == Panel::Navigation {
            spec_set_style()
        } else {
            spec_new_style()
        })
    }

    fn set_styles(&mut self, focus: Panel)
        ensures
            final(self).styled_for(focus),
            final(self).outline.display == old(self).outline.display,
            final(self).outline.border.area == old(self).outline.border.area,
            final(self).content.display == old(self).content.display,
            final(self).content.border.area == old(self).content.border.area,
            final(self).navi.display == old(self).navi.display,
            final(self).navi.border.area == old(self).navi.border.area,
            final(self).current == old(self).current,
            final(self).area == old(self).area,
    {
        self.outline.border.style = if focus == Panel::Outline {
            set_style()
        } else {
            Style::new()
        };
        self.content.border.style = if focus == Panel::Content {
            set_style()
        } else {
            Style::new()
        };
        self.navi.border.style = if focus == Panel::Navigation {
            set_style()
        } else {
            Style::new()
        };
    }

    /// Respond to a click of the left mouse button on column `x` of row `y`: focus the panel
    /// whose border area holds the cell. A click on the outline moves its cursor and asks for
    /// the doc of that line; a click on a heading jumps to it and focuses the content.
    pub fn set_current_panel(&mut self, y: u16, x: u16) -> (r: Option<String>)
        requires
            old(self).outline.border.area.wf(),
            old(self).content.border.area.wf(),
            old(self).navi.border.area.wf(),
            scroll_bounded(old(self).outline.display),
            scroll_bounded(old(self).navi.display),
        ensures
            old(self).outline.border.area.spec_contains(x as int, y as int) ==> {
                &&& final(self).current == Some(Panel::Outline)
                &&& final(self).outline.display.model() == old(self).outline.display.model().spec_set_cursor(y)
                &&& final(self).content_requested(old(self).content, r)
                &&& final(self).styled_for(Panel::Outline)
            },
            !old(self).outline.border.area.spec_contains(x as int, y as int)
                && old(self).content.border.area.spec_contains(x as int, y as int) ==> {
                &&& final(self).current == Some(Panel::Content)
                &&& final(self).outline.display == old(self).outline.display
                &&& final(self).content.display == old(self).content.display
                &&& final(self).styled_for(Panel::Content)
                &&& r is None
            },
            !old(self).outline.border.area.spec_contains(x as int, y as int)
                && !old(self).content.border.area.spec_contains(x as int, y as int)
                && old(self).navi.border.area.spec_contains(x as int, y as int) ==> {
                &&& final(self).current == Some(
                    if old(self).heading_hit(y) {
                        Panel::Content
                    } else {
                        Panel::Navigation
                    },
                )
                &&& final(self).styled_for(final(self).current.unwrap())
                &&& final(self).outline.display == old(self).outline.display
                &&& old(self).heading_hit(y) ==> final(self).content.display.start
                    == Self::spec_jump_start(
                    old(self).navi.display.spec_visible()[y - old(self).navi.display.area.y].jump.row_start as int,
                    old(self).content.display.len(),
                )
                &&& final(self).content.display.lines == old(self).content.display.lines
                &&& final(self).content.display.cursor == old(self).content.display.cursor
                &&& !old(self).heading_hit(y) ==> final(self).content.display.start == old(
                    self,
                ).content.display.start
                &&& r is None
            },
            !old(self).outline.border.area.spec_contains(x as int, y as int)
                && !old(self).content.border.area.spec_contains(x as int, y as int)
                && !old(self).navi.border.area.spec_contains(x as int, y as int) ==> {
                &&& final(self).current is None
                &&& final(self).outline == old(self).outline
                &&& final(self).content == old(self).content
                &&& r is None
            },
            final(self).navi.display == old(self).navi.display,
            final(self).outline.border.area == old(self).outline.border.area,
            final(self).content.border.area == old(self).content.border.area,
            final(self).navi.border.area == old(self).navi.border.area,
            final(self).area == old(self).area,
    {
        // the border area covers the border and its inner area
        if self.outline.border.area.contains(x, y) {
            proof {
                Self::lemma_bounded_fits(self.outline.display);
                self.outline.display.model().lemma_start_within(ScrollOffset::Fixed(0), y);
            }
            self.outline.display.set_cursor(y);
            let r = self.update_content();
            self.set_styles(Panel::Outline);
            self.current = Some(Panel::Outline);
            r
        } else if self.content.border.area.contains(x, y) {
            self.set_styles(Panel::Content);
            self.current = Some(Panel::Content);
            None
        } else if self.navi.border.area.contains(x, y) {
            if self.heading_jump(y) {
                // succeeded to jump to a heading, thus focus on the content panel
                self.set_styles(Panel::Content);
                self.current = Some(Panel::Content);
            } else {
                self.set_styles(Panel::Navigation);
                self.current = Some(Panel::Navigation);
            }
            None
        } else {
            self.current = None;
            None
        }
    }
}

} // verus!
