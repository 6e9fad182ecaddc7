use vstd::prelude::*;
use crate::ui::markdown::wrapped::ColumnSpan;
use smallvec::SmallVec;
use std::collections::HashMap;

verus! {

/// A region of the text, continuous across lines: it starts at column `col_start` of row
/// `row_start` and ends at column `col_end` of row `row_end`.
#[derive(Clone, Copy, Debug, Default, PartialEq, Eq, Hash)]
pub struct SelectedRegion {
    pub row_start: usize,
    pub row_end: usize,
    pub col_start: usize,
    pub col_end: usize,
}

impl SelectedRegion {
    pub open spec fn default_spec() -> SelectedRegion {
        SelectedRegion { row_start: 0, row_end: 0, col_start: 0, col_end: 0 }
    }

    /// The empty region at the origin.
    pub fn empty() -> (r: SelectedRegion)
        ensures
            r == SelectedRegion::default_spec(),
    {
        SelectedRegion { row_start: 0, row_end: 0, col_start: 0, col_end: 0 }
    }

    /// The region of the columns on one row.
    pub fn new_same_line(row: usize, col: ColumnSpan) -> (r: SelectedRegion)
        ensures
            r == (SelectedRegion {
                row_start: row,
                row_end: row,
                col_start: col.start,
                col_end: col.end,
            }),
    {
        let span = col.span();
        SelectedRegion { row_start: row, row_end: row, col_start: span[0], col_end: span[1] }
    }

    pub fn row_start(&self) -> (r: usize)
        ensures
            r == self.row_start,
    {
        self.row_start
    }

    /// The smallest region that holds both: the earlier start and the later end.
    pub open spec fn spec_merge(self, new: SelectedRegion) -> SelectedRegion {
        let (row_start, col_start) = if self.row_start > new.row_start {
            (new.row_start, new.col_start)
        } else if self.row_start == new.row_start {
            (self.row_start, if self.col_start <= new.col_start {
                self.col_start
            } else {
                new.col_start
            })
        } else {
            (self.row_start, self.col_start)
        };
        let (row_end, col_end) = if self.row_end < new.row_end {
            (new.row_end, new.col_end)
        } else if self.row_end == new.row_end {
            (self.row_end, if self.col_end >= new.col_end {
                self.col_end
            } else {
                new.col_end
            })
        } else {
            (self.row_end, self.col_end)
        };
        SelectedRegion { row_start, row_end, col_start, col_end }
    }

    /// Grow the region so that it also covers `new`.
    pub fn merge(&mut self, new: SelectedRegion)
        ensures
            *final(self) == old(self).spec_merge(new),
    {
        if self.row_start > new.row_start {
            self.row_start = new.row_start;
            self.col_start = new.col_start;
        } else if self.row_start == new.row_start {
            if new.col_start < self.col_start {
                self.col_start = new.col_start;
            }
        }
        if self.row_end < new.row_end {
            self.row_end = new.row_end;
            self.col_end = new.col_end;
        } else if self.row_end == new.row_end {
            if new.col_end > self.col_end {
                self.col_end = new.col_end;
            }
        }
    }
}

/// What a region of the text refers to, or is referred by.
#[derive(Debug, PartialEq, Eq, Hash)]
pub enum RegionTag {
    /// A string key like impl or key of a footnote.
    FootNote(String),
    FootNoteSrc(String),
    /// A referenced link id
    Link(usize),
    LinkSrc(usize),
}

/// A few regions, held inline in a vector of `smallvec`.
#[verifier::external_body]
pub struct RegionTargets {
    inner: SmallVec<[SelectedRegion; 1]>,
}

/// The regions that a small vector of regions holds, in order.
pub uninterp spec fn region_targets(v: RegionTargets) -> Seq<SelectedRegion>;

/// Calls `SmallVec::from` on a one-element array: the vector holds that region alone.
#[verifier::external_body]
fn targets_of_one(region: SelectedRegion) -> (r: RegionTargets)
    ensures
        region_targets(r) == seq![region],
{
    RegionTargets { inner: SmallVec::from([region]) }
}

/// Calls `SmallVec::as_slice`: the slice holds the regions in order.
#[verifier::external_body]
fn targets_slice(v: &RegionTargets) -> (r: &[SelectedRegion])
    ensures
        r@ == region_targets(*v),
{
    v.inner.as_slice()
}

/// Writes through `SmallVec`'s `IndexMut` at index 0: the first region is replaced.
#[verifier::external_body]
fn targets_set_first(v: &mut RegionTargets, region: SelectedRegion)
    requires
        region_targets(*old(v)).len() > 0,
    ensures
        region_targets(*final(v)) == region_targets(*old(v)).update(0, region),
{
    v.inner[0] = region;
}

/// The regions that a region of the text refers to.
pub struct TargetRegion {
    pub targets: RegionTargets,
}

impl TargetRegion {
    pub open spec fn view_targets(&self) -> Seq<SelectedRegion> {
        region_targets(self.targets)
    }

    /// A target of one region.
    pub fn from_region(region: SelectedRegion) -> (r: TargetRegion)
        ensures
            r.view_targets() == seq![region],
    {
        TargetRegion { targets: targets_of_one(region) }
    }

    pub fn targets(&self) -> (r: &[SelectedRegion])
        ensures
            r@ == self.view_targets(),
    {
        targets_slice(&self.targets)
    }

    /// Merge two regions into one continuous region; this happens only when there is a
    /// single region in self.
    pub fn merge_continuous(&mut self, new: SelectedRegion)
        ensures
            old(self).view_targets().len() == 1 ==> final(self).view_targets() == seq![
                old(self).view_targets()[0].spec_merge(new),
            ],
            old(self).view_targets().len() != 1 ==> final(self).view_targets() == old(
                self,
            ).view_targets(),
    {
        let targets = targets_slice(&self.targets);
        if targets.len() == 1 {
            let mut old = targets[0];
            old.merge(new);
            targets_set_first(&mut self.targets, old);
            assert(self.view_targets() =~= seq![old]);
        }
    }
}

/// Regions that refer to each other.
/// When the cursor or selection falls into a region,
/// the regions in targets will be given the same background color.
pub struct LinkedRegions {
    pub tag: HashMap<RegionTag, TargetRegion>,
    pub heading: Vec<(usize, TargetRegion)>,
}

/// The heading ids are distinct.
pub open spec fn heading_ids_distinct(h: Seq<(usize, TargetRegion)>) -> bool {
    forall|i: int, j: int| 0 <= i < j < h.len() ==> (#[trigger] h[i]).0 != (#[trigger] h[j]).0
}

/// The position of the heading with the id.
pub open spec fn heading_pos(h: Seq<(usize, TargetRegion)>, idx: usize) -> Option<int> {
    if exists|k: int| 0 <= k < h.len() && (#[trigger] h[k]).0 == idx {
        Some(choose|k: int| 0 <= k < h.len() && (#[trigger] h[k]).0 == idx)
    } else {
        None
    }
}

/// The headings after adding a region to the heading with the id: merged into its
/// region when it is there, else as a new heading at the end.
pub open spec fn pushed_heading(
    h: Seq<(usize, TargetRegion)>,
    idx: usize,
    region: SelectedRegion,
    r: Seq<(usize, TargetRegion)>,
) -> bool {
    match heading_pos(h, idx) {
        Some(k) => {
            &&& r.len() == h.len()
            &&& forall|j: int| 0 <= j < h.len() && j != k ==> (#[trigger] r[j]) == h[j]
            &&& r[k].0 == idx
            &&& (h[k].1.view_targets().len() == 1 ==> r[k].1.view_targets() == seq![
                h[k].1.view_targets()[0].spec_merge(region),
            ])
            &&& (h[k].1.view_targets().len() != 1 ==> r[k].1.view_targets()
                == h[k].1.view_targets())
        },
        None => {
            &&& r.len() == h.len() + 1
            &&& forall|j: int| 0 <= j < h.len() ==> (#[trigger] r[j]) == h[j]
            &&& r[h.len() as int].0 == idx
            &&& r[h.len() as int].1.view_targets() == seq![region]
        },
    }
}

/// `st` steps from `h` through the regions: `st[i + 1]` is `st[i]` after adding the `i`-th
/// region to the heading with its id.
pub open spec fn push_chain(
    h: Seq<(usize, TargetRegion)>,
    ps: Seq<(usize, SelectedRegion)>,
    st: Seq<Seq<(usize, TargetRegion)>>,
) -> bool {
    &&& st.len() == ps.len() + 1
    &&& st[0] == h
    &&& forall|i: int| 0 <= i < ps.len() ==> pushed_heading(st[i], (#[trigger] ps[i]).0, ps[i].1, st[i + 1])
}

/// The headings after adding each region to the heading with its id, in order, as
/// `pushed_heading` says of one.
pub open spec fn headings_pushed(
    h: Seq<(usize, TargetRegion)>,
    ps: Seq<(usize, SelectedRegion)>,
    r: Seq<(usize, TargetRegion)>,
) -> bool {
    exists|st: Seq<Seq<(usize, TargetRegion)>>| #[trigger] push_chain(h, ps, st) && st.last() == r
}

pub proof fn lemma_headings_pushed_none(h: Seq<(usize, TargetRegion)>)
    ensures
        headings_pushed(h, seq![], h),
{
    assert(push_chain(h, seq![], seq![h]));
}

pub proof fn lemma_headings_pushed_step(
    h: Seq<(usize, TargetRegion)>,
    ps: Seq<(usize, SelectedRegion)>,
    m: Seq<(usize, TargetRegion)>,
    r: Seq<(usize, TargetRegion)>,
)
    requires
        ps.len() > 0,
        headings_pushed(h, ps.drop_last(), m),
        pushed_heading(m, ps.last().0, ps.last().1, r),
    ensures
        headings_pushed(h, ps, r),
{
    let st = choose|st: Seq<Seq<(usize, TargetRegion)>>| #[trigger] push_chain(h, ps.drop_last(), st) && st.last() == m;
    let st2 = st.push(r);
    assert forall|i: int| 0 <= i < ps.len() implies pushed_heading(st2[i], (#[trigger] ps[i]).0, ps[i].1, st2[i + 1]) by {
        if i < ps.len() - 1 {
            assert(ps.drop_last()[i] == ps[i]);
        }
    }
    assert(push_chain(h, ps, st2));
}

/// The headings by their ids and the regions they target.
pub open spec fn headings_view(h: Seq<(usize, TargetRegion)>) -> Seq<(usize, Seq<SelectedRegion>)> {
    h.map_values(|e: (usize, TargetRegion)| (e.0, e.1.view_targets()))
}

/// The headings after adding a region to the heading with the id: merged into its single
/// target when it has exactly one, kept when it has another number of them, or a new
/// heading at the end when no heading has the id.
pub open spec fn push_view(hv: Seq<(usize, Seq<SelectedRegion>)>, idx: usize, region: SelectedRegion) -> Seq<(usize, Seq<SelectedRegion>)> {
    if exists|k: int| 0 <= k < hv.len() && (#[trigger] hv[k]).0 == idx {
        let k = choose|k: int| 0 <= k < hv.len() && (#[trigger] hv[k]).0 == idx;
        hv.update(
            k,
            (
                idx,
                if hv[k].1.len() == 1 {
                    seq![hv[k].1[0].spec_merge(region)]
                } else {
                    hv[k].1
                },
            ),
        )
    } else {
        hv.push((idx, seq![region]))
    }
}

/// The headings after adding each region in turn.
pub open spec fn pushes_view(hv: Seq<(usize, Seq<SelectedRegion>)>, ps: Seq<(usize, SelectedRegion)>) -> Seq<(usize, Seq<SelectedRegion>)>
    decreases ps.len(),
{
    if ps.len() == 0 {
        hv
    } else {
        let prev = pushes_view(hv, ps.drop_last());
        push_view(prev, ps.last().0, ps.last().1)
    }
}

/// Adding two runs of regions one after the other.
pub proof fn lemma_pushes_view_concat(hv: Seq<(usize, Seq<SelectedRegion>)>, a: Seq<(usize, SelectedRegion)>, b: Seq<(usize, SelectedRegion)>)
    ensures
        pushes_view(hv, a + b) == pushes_view(pushes_view(hv, a), b),
    decreases b.len(),
{
    if b.len() == 0 {
        assert(a + b =~= a);
    } else {
        assert((a + b).drop_last() =~= a + b.drop_last());
        assert((a + b).last() == b.last());
        lemma_pushes_view_concat(hv, a, b.drop_last());
    }
}

/// One step of adding a region, seen through the view, keeps the ids distinct.
proof fn lemma_pushed_heading_view(h: Seq<(usize, TargetRegion)>, idx: usize, region: SelectedRegion, r: Seq<(usize, TargetRegion)>)
    requires
        heading_ids_distinct(h),
        pushed_heading(h, idx, region, r),
    ensures
        heading_ids_distinct(r),
        headings_view(r) == push_view(headings_view(h), idx, region),
{
    let hv = headings_view(h);
    match heading_pos(h, idx) {
        Some(k) => {
            assert(hv[k].0 == idx);
            let k2 = choose|k2: int| 0 <= k2 < hv.len() && (#[trigger] hv[k2]).0 == idx;
            assert(h[k2].0 == idx);
            assert(k2 == k) by {
                if k2 != k {
                    if k2 < k {
                        assert(h[k2].0 != h[k].0);
                    } else {
                        assert(h[k].0 != h[k2].0);
                    }
                }
            }
            assert forall|i: int, j: int| 0 <= i < j < r.len() implies (#[trigger] r[i]).0 != (#[trigger] r[j]).0 by {
                if i != k {
                    assert(r[i] == h[i]);
                }
                if j != k {
                    assert(r[j] == h[j]);
                }
            }
            assert(headings_view(r) =~= push_view(hv, idx, region)) by {
                assert forall|j: int| 0 <= j < r.len() implies headings_view(r)[j] == push_view(hv, idx, region)[j] by {
                    if j != k {
                        assert(r[j] == h[j]);
                    }
                }
            }
        },
        None => {
            assert(!exists|k: int| 0 <= k < hv.len() && (#[trigger] hv[k]).0 == idx) by {
                if exists|k: int| 0 <= k < hv.len() && (#[trigger] hv[k]).0 == idx {
                    let k = choose|k: int| 0 <= k < hv.len() && (#[trigger] hv[k]).0 == idx;
                    assert(h[k].0 == idx);
                }
            }
            assert forall|i: int, j: int| 0 <= i < j < r.len() implies (#[trigger] r[i]).0 != (#[trigger] r[j]).0 by {
                assert(r[i] == h[i]);
                if j < h.len() {
                    assert(r[j] == h[j]);
                }
            }
            assert(headings_view(r) =~= push_view(hv, idx, region)) by {
                assert forall|j: int| 0 <= j < r.len() implies headings_view(r)[j] == push_view(hv, idx, region)[j] by {
                    if j < h.len() {
                        assert(r[j] == h[j]);
                    }
                }
            }
        },
    }
}

proof fn lemma_chain_view(h: Seq<(usize, TargetRegion)>, ps: Seq<(usize, SelectedRegion)>, st: Seq<Seq<(usize, TargetRegion)>>, i: int)
    requires
        heading_ids_distinct(h),
        push_chain(h, ps, st),
        0 <= i <= ps.len(),
    ensures
        heading_ids_distinct(st[i]),
        headings_view(st[i]) == pushes_view(headings_view(h), ps.take(i)),
    decreases i,
{
    if i == 0 {
        assert(ps.take(0) =~= Seq::<(usize, SelectedRegion)>::empty());
    } else {
        lemma_chain_view(h, ps, st, i - 1);
        assert(pushed_heading(st[i - 1], ps[i - 1].0, ps[i - 1].1, st[i]));
        lemma_pushed_heading_view(st[i - 1], ps[i - 1].0, ps[i - 1].1, st[i]);
        assert(ps.take(i).drop_last() =~= ps.take(i - 1));
        assert(ps.take(i).last() == ps[i - 1]);
    }
}

/// Adding regions one after the other, seen through the view.
pub proof fn lemma_headings_pushed_view(h: Seq<(usize, TargetRegion)>, ps: Seq<(usize, SelectedRegion)>, r: Seq<(usize, TargetRegion)>)
    requires
        heading_ids_distinct(h),
        headings_pushed(h, ps, r),
    ensures
        headings_view(r) == pushes_view(headings_view(h), ps),
{
    let st = choose|st: Seq<Seq<(usize, TargetRegion)>>| #[trigger] push_chain(h, ps, st) && st.last() == r;
    lemma_chain_view(h, ps, st, ps.len() as int);
    assert(ps.take(ps.len() as int) =~= ps);
}

impl LinkedRegions {
    pub fn new() -> (r: LinkedRegions)
        ensures
            r.heading@.len() == 0,
    {
        LinkedRegions { tag: HashMap::new(), heading: Vec::new() }
    }

    /// Add the columns on a row to the heading's region: merged into the region of a heading
    /// with the same id, or as the region of a new heading at the end.
    pub fn push_heading(&mut self, idx: usize, row: usize, col: ColumnSpan)
        requires
            heading_ids_distinct(old(self).heading@),
        ensures
            heading_ids_distinct(final(self).heading@),
            pushed_heading(
                old(self).heading@,
                idx,
                SelectedRegion { row_start: row, row_end: row, col_start: col.start, col_end: col.end },
                final(self).heading@,
            ),
            final(self).tag == old(self).tag,
    {
        let region = SelectedRegion::new_same_line(row, col);
        let ghost h = self.heading@;
        let mut i: usize = 0;
        while i < self.heading.len()
            invariant
                self.heading@ == h,
                h == old(self).heading@,
                self.tag == old(self).tag,
                region == (SelectedRegion {
                    row_start: row,
                    row_end: row,
                    col_start: col.start,
                    col_end: col.end,
                }),
                heading_ids_distinct(h),
                i <= h.len(),
                forall|j: int| 0 <= j < i ==> (#[trigger] h[j]).0 != idx,
            decreases h.len() - i,
        {
            if self.heading[i].0 == idx {
                let mut entry = self.heading.remove(i);
                let ghost e0 = entry;
                entry.1.merge_continuous(region);
                let ghost e1 = entry;
                self.heading.insert(i, entry);
                proof {
                    assert(e0 == h[i as int]);
                    assert(self.heading@ =~= h.update(i as int, e1));
                    let k = choose|k: int| 0 <= k < h.len() && h[k].0 == idx;
                    assert(h[i as int].0 == idx);
                    assert(k == i) by {
                        if k != i {
                            if k < i {
                                assert(h[k].0 != idx);
                            } else {
                                assert(h[i as int].0 != h[k].0);
                            }
                        }
                    }
                    assert forall|a: int, b: int| 0 <= a < b < self.heading@.len() implies (
                    #[trigger] self.heading@[a]).0 != (#[trigger] self.heading@[b]).0 by {
                        if a != i && b != i {
                            assert(self.heading@[a] == h[a]);
                            assert(self.heading@[b] == h[b]);
                        } else if a == i {
                            assert(self.heading@[b] == h[b]);
                        } else {
                            assert(self.heading@[a] == h[a]);
                        }
                    }
                    assert forall|j: int| 0 <= j < h.len() && j != i implies (
                    #[trigger] self.heading@[j]) == h[j] by {
                    }
                    assert(heading_pos(h, idx) == Some(i as int));
                }
                return;
            }
            i = i + 1;
        }
        let target = TargetRegion::from_region(region);
        self.heading.push((idx, target));
        proof {
            assert forall|a: int, b: int| 0 <= a < b < self.heading@.len() implies (
            #[trigger] self.heading@[a]).0 != (#[trigger] self.heading@[b]).0 by {
                if b == h.len() {
                    assert(self.heading@[a] == h[a]);
                }
            }
            assert(!exists|k: int| 0 <= k < h.len() && (#[trigger] h[k]).0 == idx);
        }
    }

    /// Take out the heading regions, leaving none.
    pub fn take_headings(&mut self) -> (r: Vec<(usize, TargetRegion)>)
        ensures
            r@ == old(self).heading@,
            final(self).heading@.len() == 0,
            final(self).tag == old(self).tag,
    {
        let mut taken: Vec<(usize, TargetRegion)> = Vec::new();
        std::mem::swap(&mut taken, &mut self.heading);
        taken
    }
}

/// The region a tagged word belongs to: a reference link's by its index, a footnote's by
/// its key; other words belong to none.
pub fn region_tag(tag: crate::ui::markdown::parse::meta_tag::MetaTag) -> (r: Option<RegionTag>)
    ensures
        match tag {
            crate::ui::markdown::parse::meta_tag::MetaTag::Link(crate::ui::markdown::parse::meta_tag::LinkTag::ReferenceLink(id)) => r == Some(RegionTag::Link(id)),
            crate::ui::markdown::parse::meta_tag::MetaTag::Link(crate::ui::markdown::parse::meta_tag::LinkTag::Footnote(key)) => r == Some(RegionTag::FootNote(key)),
            _ => r is None,
        },
{
    match tag {
        crate::ui::markdown::parse::meta_tag::MetaTag::Link(crate::ui::markdown::parse::meta_tag::LinkTag::ReferenceLink(id)) => Some(RegionTag::Link(id)),
        crate::ui::markdown::parse::meta_tag::MetaTag::Link(crate::ui::markdown::parse::meta_tag::LinkTag::Footnote(key)) => Some(RegionTag::FootNote(key)),
        _ => None,
    }
}

} // verus!
