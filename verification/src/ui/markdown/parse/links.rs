use vstd::prelude::*;
use crate::style::{Color, Style};
use crate::ui::markdown::heading::Headings;
use crate::ui::markdown::parse::meta_tag::{LinkTag, MetaTag};
use crate::ui::markdown::parse::word::{Block, Word};
use crate::ui::markdown::region::SelectedRegion;
use crate::util::{string_push_str, str_to_string};

verus! {

/// Referenced links, footnotes and headings in the whole doc.
pub struct Links {
    /// level, raw markdown text and region of each heading
    pub heading: Vec<(u8, String, SelectedRegion)>,
    pub links: Vec<String>,
    /// each footnote key with its definition, each key at most once
    pub footnotes: Vec<(String, Block)>,
}

/// The position of the first link with the text.
pub open spec fn link_pos(links: Seq<String>, link: Seq<char>) -> Option<int> {
    if exists|i: int| 0 <= i < links.len() && (#[trigger] links[i])@ == link {
        Some(choose|i: int|
            0 <= i < links.len() && (#[trigger] links[i])@ == link && forall|j: int|
                0 <= j < i ==> (#[trigger] links[j])@ != link)
    } else {
        None
    }
}

/// `k` is the first position of a footnote with the key.
pub open spec fn first_footnote_at(f: Seq<(String, Block)>, key: Seq<char>, k: int) -> bool {
    &&& 0 <= k < f.len()
    &&& f[k].0@ == key
    &&& forall|j: int| 0 <= j < k ==> (#[trigger] f[j]).0@ != key
}

/// The first position of a footnote with the key.
pub open spec fn first_footnote(f: Seq<(String, Block)>, key: Seq<char>) -> Option<int> {
    if exists|k: int| first_footnote_at(f, key, k) {
        Some(choose|k: int| first_footnote_at(f, key, k))
    } else {
        None
    }
}

/// The position of the footnote with the key.
pub open spec fn footnote_pos(f: Seq<(String, Block)>, key: Seq<char>) -> Option<int> {
    if exists|i: int| 0 <= i < f.len() && (#[trigger] f[i]).0@ == key {
        Some(choose|i: int| 0 <= i < f.len() && (#[trigger] f[i]).0@ == key)
    } else {
        None
    }
}

pub open spec fn footnote_keys_distinct(f: Seq<(String, Block)>) -> bool {
    forall|i: int, j: int| 0 <= i < j < f.len() ==> (#[trigger] f[i]).0@ != (#[trigger] f[j]).0@
}

/// The style of links.
pub open spec fn spec_link_style() -> Style {
    Style { fg: Some(Color::Rgb(30, 144, 255)), ..Style::spec_new() }
}

pub fn link_style() -> (r: Style)
    ensures
        r == spec_link_style(),
{
    Style::new().fg(Color::Rgb(30, 144, 255))
}

/// The Unicode `White_Space` characters.
pub open spec fn is_white_space(c: char) -> bool {
    ||| c == '\t' || c == '\n' || c == '\x0B' || c == '\x0C' || c == '\r' || c == ' '
    ||| c == '\u{85}' || c == '\u{A0}' || c == '\u{1680}'
    ||| ('\u{2000}' <= c && c <= '\u{200A}')
    ||| c == '\u{2028}' || c == '\u{2029}' || c == '\u{202F}' || c == '\u{205F}' || c == '\u{3000}'
}

/// Whether the character has the Unicode `White_Space` property, as `char::is_whitespace`
/// tells.
fn char_is_whitespace(c: char) -> (r: bool)
    ensures
        r == is_white_space(c),
{
    c == '\t' || c == '\n' || c == '\x0B' || c == '\x0C' || c == '\r' || c == ' ' || c == '\u{85}'
        || c == '\u{A0}' || c == '\u{1680}' || ('\u{2000}' <= c && c <= '\u{200A}') || c == '\u{2028}'
        || c == '\u{2029}' || c == '\u{202F}' || c == '\u{205F}' || c == '\u{3000}'
}

/// The text without leading whitespace.
pub open spec fn trim_start_ws(s: Seq<char>) -> Seq<char>
    decreases s.len(),
{
    if s.len() > 0 && is_white_space(s[0]) {
        trim_start_ws(s.drop_first())
    } else {
        s
    }
}

/// The text without trailing whitespace.
pub open spec fn trim_end_ws(s: Seq<char>) -> Seq<char>
    decreases s.len(),
{
    if s.len() > 0 && is_white_space(s.last()) {
        trim_end_ws(s.drop_last())
    } else {
        s
    }
}

/// The text without leading `#`s.
pub open spec fn trim_start_sharps(s: Seq<char>) -> Seq<char>
    decreases s.len(),
{
    if s.len() > 0 && s[0] == '#' {
        trim_start_sharps(s.drop_first())
    } else {
        s
    }
}

/// The heading text of a raw markdown heading: leading whitespace and `#`s dropped, then
/// whitespace on both ends.
pub open spec fn heading_text(raw: Seq<char>) -> Seq<char> {
    trim_end_ws(trim_start_ws(trim_start_sharps(trim_start_ws(raw))))
}

/// Two spaces per level.
pub open spec fn indent(n: nat) -> Seq<char>
    decreases n,
{
    if n == 0 {
        seq![]
    } else {
        indent((n - 1) as nat) + seq![' ', ' ']
    }
}

/// Drop the leading characters that the test picks, from position `i` on.
fn skip_start(s: &str, sharps: bool) -> (r: String)
    ensures
        r@ == (if sharps {
            trim_start_sharps(s@)
        } else {
            trim_start_ws(s@)
        }),
{
    let n = s.unicode_len();
    let mut i: usize = 0;
    assert(s@.subrange(0, n as int) == s@);
    while i < n
        invariant_except_break
            i <= n,
        invariant
            n == s@.len(),
            (if sharps {
                trim_start_sharps(s@.subrange(i as int, n as int))
            } else {
                trim_start_ws(s@.subrange(i as int, n as int))
            }) == (if sharps {
                trim_start_sharps(s@)
            } else {
                trim_start_ws(s@)
            }),
        ensures
            i <= n,
            (if sharps {
                trim_start_sharps(s@.subrange(i as int, n as int))
            } else {
                trim_start_ws(s@.subrange(i as int, n as int))
            }) == s@.subrange(i as int, n as int),
            (if sharps {
                trim_start_sharps(s@.subrange(i as int, n as int))
            } else {
                trim_start_ws(s@.subrange(i as int, n as int))
            }) == (if sharps {
                trim_start_sharps(s@)
            } else {
                trim_start_ws(s@)
            }),
        decreases n - i,
    {
        let c = s.get_char(i);
        let hit = if sharps {
            c == '#'
        } else {
            char_is_whitespace(c)
        };
        if !hit {
            break;
        }
        proof {
            let t = s@.subrange(i as int, n as int);
            assert(t.drop_first() == s@.subrange(i + 1, n as int));
        }
        i = i + 1;
    }
    proof {
        assert(s@.subrange(0, n as int) == s@);
    }
    str_to_string(s.substring_char(i, n))
}

/// Drop the trailing whitespace.
fn skip_end_ws(s: &str) -> (r: String)
    ensures
        r@ == trim_end_ws(s@),
{
    let n = s.unicode_len();
    let mut j: usize = n;
    assert(s@.subrange(0, n as int) == s@);
    while j > 0
        invariant_except_break
            j <= n,
        invariant
            n == s@.len(),
            trim_end_ws(s@.subrange(0, j as int)) == trim_end_ws(s@),
        ensures
            j <= n,
            trim_end_ws(s@.subrange(0, j as int)) == s@.subrange(0, j as int),
            trim_end_ws(s@.subrange(0, j as int)) == trim_end_ws(s@),
        decreases j,
    {
        let c = s.get_char(j - 1);
        if !char_is_whitespace(c) {
            break;
        }
        proof {
            let t = s@.subrange(0, j as int);
            assert(t.drop_last() == s@.subrange(0, j - 1));
        }
        j = j - 1;
    }
    proof {
        assert(s@.subrange(0, n as int) == s@);
    }
    str_to_string(s.substring_char(0, j))
}

impl Links {
    pub fn new() -> (r: Links)
        ensures
            r.heading@.len() == 0,
            r.links@.len() == 0,
            r.footnotes@.len() == 0,
    {
        Links { heading: Vec::new(), links: Vec::new(), footnotes: Vec::new() }
    }

    /// The index of the link: that of an equal link already there, or a new one at the end.
    pub fn push_link(&mut self, link: String) -> (r: usize)
        ensures
            link_pos(old(self).links@, link@) matches Some(k) ==> r == k && final(self).links
                == old(self).links,
            link_pos(old(self).links@, link@) is None ==> r == old(self).links@.len()
                && final(self).links@ == old(self).links@.push(link),
            final(self).heading == old(self).heading,
            final(self).footnotes == old(self).footnotes,
    {
        let mut i: usize = 0;
        while i < self.links.len()
            invariant
                i <= self.links@.len(),
                self.links == old(self).links,
                forall|j: int| 0 <= j < i ==> (#[trigger] self.links@[j])@ != link@,
            decreases self.links@.len() - i,
        {
            if self.links[i] == link {
                proof {
                    let l = self.links@;
                    let k = choose|k: int|
                        0 <= k < l.len() && (#[trigger] l[k])@ == link@ && forall|j: int|
                            0 <= j < k ==> (#[trigger] l[j])@ != link@;
                    assert(l[i as int]@ == link@);
                    assert(k == i) by {
                        if k < i {
                            assert(l[k]@ != link@);
                        }
                        if k > i {
                            assert(l[i as int]@ != link@);
                        }
                    }
                }
                return i;
            }
            i = i + 1;
        }
        let len = self.links.len();
        self.links.push(link);
        len
    }

    /// The link at the index, as a word tagged with the reference.
    pub fn get_link(&self, idx: usize) -> (r: Option<Word>)
        ensures
            idx < self.links@.len() ==> (r matches Some(w) && w.word == self.links@[idx as int]
                && w.style == spec_link_style() && w.tag == MetaTag::Link(LinkTag::ReferenceLink(idx))
                && !w.trailling_whitespace),
            idx >= self.links@.len() ==> r is None,
    {
        if idx < self.links.len() {
            Some(
                Word {
                    word: self.links[idx].clone(),
                    style: link_style(),
                    tag: MetaTag::Link(LinkTag::ReferenceLink(idx)),
                    trailling_whitespace: false,
                },
            )
        } else {
            None
        }
    }

    /// Define the footnote; a definition with the same key is replaced.
    pub fn push_footnote(&mut self, key: &str, value: Block)
        requires
            footnote_keys_distinct(old(self).footnotes@),
        ensures
            footnote_keys_distinct(final(self).footnotes@),
            footnote_pos(old(self).footnotes@, key@) matches Some(k) ==> final(self).footnotes@
                == old(self).footnotes@.update(k, (final(self).footnotes@[k].0, value))
                && final(self).footnotes@[k].0@ == key@,
            footnote_pos(old(self).footnotes@, key@) is None ==> final(self).footnotes@.len()
                == old(self).footnotes@.len() + 1 && final(self).footnotes@.drop_last() == old(
                self,
            ).footnotes@ && final(self).footnotes@.last().0@ == key@ && final(self).footnotes@.last().1
                == value,
            final(self).heading == old(self).heading,
            final(self).links == old(self).links,
    {
        let ghost f = self.footnotes@;
        let key_s = str_to_string(key);
        let mut i: usize = 0;
        while i < self.footnotes.len()
            invariant
                i <= self.footnotes@.len(),
                key_s@ == key@,
                self.heading == old(self).heading,
                self.links == old(self).links,
                self.footnotes@ == f,
                f == old(self).footnotes@,
                footnote_keys_distinct(f),
                forall|j: int| 0 <= j < i ==> (#[trigger] f[j]).0@ != key@,
            decreases f.len() - i,
        {
            if self.footnotes[i].0 == key_s {
                let (k0, _old_value) = self.footnotes.remove(i);
                self.footnotes.insert(i, (k0, value));
                proof {
                    let k = choose|k: int| 0 <= k < f.len() && (#[trigger] f[k]).0@ == key@;
                    assert(f[i as int].0@ == key@);
                    assert(k == i) by {
                        if k != i {
                            if k < i {
                                assert(f[k].0@ != key@);
                            } else {
                                assert(f[i as int].0@ != f[k].0@);
                            }
                        }
                    }
                    assert(self.footnotes@ =~= f.update(i as int, (self.footnotes@[i as int].0, value)));
                    assert forall|a: int, b: int| 0 <= a < b < self.footnotes@.len() implies (
                    #[trigger] self.footnotes@[a]).0@ != (#[trigger] self.footnotes@[b]).0@ by {
                        assert(self.footnotes@[a].0 == f[a].0);
                        assert(self.footnotes@[b].0 == f[b].0);
                    }
                }
                return;
            }
            i = i + 1;
        }
        self.footnotes.push((key_s, value));
        proof {
            assert(self.footnotes@.drop_last() =~= f);
            assert forall|a: int, b: int| 0 <= a < b < self.footnotes@.len() implies (
            #[trigger] self.footnotes@[a]).0@ != (#[trigger] self.footnotes@[b]).0@ by {
                if b == f.len() {
                    assert(self.footnotes@[a] == f[a]);
                }
            }
        }
    }

    /// The definition of the footnote with the key.
    pub fn get_footnote(&self, key: &str) -> (r: Option<&Block>)
        ensures
            r == (match first_footnote(self.footnotes@, key@) {
                Some(k) => Some(&self.footnotes@[k].1),
                None => None,
            }),
    {
        let key_s = str_to_string(key);
        let mut i: usize = 0;
        while i < self.footnotes.len()
            invariant
                i <= self.footnotes@.len(),
                key_s@ == key@,
                forall|j: int| 0 <= j < i ==> (#[trigger] self.footnotes@[j]).0@ != key@,
            decreases self.footnotes@.len() - i,
        {
            if self.footnotes[i].0 == key_s {
                proof {
                    let fs = self.footnotes@;
                    assert(first_footnote_at(fs, key@, i as int));
                    let k = choose|k: int| first_footnote_at(fs, key@, k);
                    assert(k == i) by {
                        if k < i {
                            assert(fs[k].0@ != key@);
                        } else if k > i {
                            assert(fs[i as int].0@ != key@);
                        }
                    }
                }
                return Some(&self.footnotes[i].1);
            }
            i = i + 1;
        }
        proof {
            assert(!exists|k: int| first_footnote_at(self.footnotes@, key@, k));
        }
        None
    }

    /// Record a heading with its level and raw text; its id is its position.
    pub fn push_heading(&mut self, level: u8, raw: &str) -> (r: usize)
        ensures
            r == old(self).heading@.len(),
            final(self).heading@.len() == old(self).heading@.len() + 1,
            final(self).heading@.drop_last() == old(self).heading@,
            final(self).heading@.last().0 == level,
            final(self).heading@.last().1@ == raw@,
            final(self).heading@.last().2 == SelectedRegion::default_spec(),
            final(self).links == old(self).links,
            final(self).footnotes == old(self).footnotes,
    {
        let id = self.heading.len();
        self.heading.push((level, str_to_string(raw), SelectedRegion::empty()));
        assert(self.heading@.drop_last() =~= old(self).heading@);
        id
    }

    /// Set the region of each heading from the regions with its id; the last one wins.
    pub fn set_heading_regions(&mut self, regions: Vec<(usize, SelectedRegion)>)
        ensures
            final(self).heading@.len() == old(self).heading@.len(),
            forall|h: int|
                #![trigger final(self).heading@[h]]
                0 <= h < old(self).heading@.len() ==> {
                    let n = final(self).heading@[h];
                    let o = old(self).heading@[h];
                    &&& n.0 == o.0
                    &&& n.1 == o.1
                    &&& (exists|k: int| 0 <= k < regions@.len() && (#[trigger] regions@[k]).0 == h)
                        ==> n.2 == regions@[last_region_of(regions@, h)].1
                    &&& !(exists|k: int| 0 <= k < regions@.len() && (#[trigger] regions@[k]).0 == h)
                        ==> n.2 == o.2
                },
            final(self).links == old(self).links,
            final(self).footnotes == old(self).footnotes,
    {
        let mut k: usize = 0;
        while k < regions.len()
            invariant
                k <= regions@.len(),
                self.heading@.len() == old(self).heading@.len(),
                self.links == old(self).links,
                self.footnotes == old(self).footnotes,
                forall|h: int|
                    #![trigger self.heading@[h]]
                    0 <= h < old(self).heading@.len() ==> {
                        let n = self.heading@[h];
                        let o = old(self).heading@[h];
                        &&& n.0 == o.0
                        &&& n.1 == o.1
                        &&& (exists|q: int| 0 <= q < k && (#[trigger] regions@[q]).0 == h) ==> n.2
                            == regions@[last_region_before(regions@, h, k as int)].1
                        &&& !(exists|q: int| 0 <= q < k && (#[trigger] regions@[q]).0 == h) ==> n.2
                            == o.2
                    },
            decreases regions@.len() - k,
        {
            let (idx, region) = regions[k];
            if idx < self.heading.len() {
                let (level, text, _) = self.heading.remove(idx);
                self.heading.insert(idx, (level, text, region));
            }
            proof {
                lemma_last_region_step(regions@, k as int);
            }
            k = k + 1;
        }
        proof {
            assert forall|h: int| 0 <= h < old(self).heading@.len() implies last_region_before(
                regions@,
                h,
                regions@.len() as int,
            ) == last_region_of(regions@, h) by {}
        }
    }

    /// The headings for the navigation panel: each indented two spaces per level below the
    /// top one, with its text trimmed of whitespace and leading `#`s.
    pub fn to_heading(&self) -> (r: Headings)
        ensures
            self.heading@.len() == 0 ==> r.lines@.len() == 0,
            self.heading@.len() > 0 ==> r.lines@.len() == self.heading@.len() && forall|i: int|
                0 <= i < self.heading@.len() ==> {
                    let h = self.heading@[i];
                    &&& (#[trigger] r.lines@[i]).line.text@ == indent(
                        (h.0 - min_level(self.heading@)) as nat,
                    ) + heading_text(h.1@)
                    &&& r.lines@[i].line.style == Style::spec_new()
                    &&& r.lines@[i].jump == h.2
                },
    {
        let n = self.heading.len();
        if n == 0 {
            return Headings::new();
        }
        let mut top = self.heading[0].0;
        let mut i: usize = 1;
        while i < n
            invariant
                1 <= i <= n,
                n == self.heading@.len(),
                top == min_level(self.heading@.subrange(0, i as int)),
            decreases n - i,
        {
            proof {
                let s = self.heading@.subrange(0, i + 1);
                assert(s.drop_last() == self.heading@.subrange(0, i as int));
            }
            if self.heading[i].0 < top {
                top = self.heading[i].0;
            }
            i = i + 1;
        }
        assert(self.heading@.subrange(0, n as int) == self.heading@);
        proof {
            lemma_min_level(self.heading@);
        }
        let mut headings = Headings::new();
        let mut j: usize = 0;
        while j < n
            invariant
                j <= n,
                n == self.heading@.len(),
                top == min_level(self.heading@),
                forall|q: int| 0 <= q < n ==> top <= (#[trigger] self.heading@[q]).0,
                headings.lines@.len() == j,
                forall|q: int|
                    0 <= q < j ==> {
                        let h = self.heading@[q];
                        &&& (#[trigger] headings.lines@[q]).line.text@ == indent((h.0 - top) as nat)
                            + heading_text(h.1@)
                        &&& headings.lines@[q].line.style == Style::spec_new()
                        &&& headings.lines@[q].jump == h.2
                    },
            decreases n - j,
        {
            let level = self.heading[j].0;
            let mut text = String::new();
            let mut k: u8 = 0;
            while k < level - top
                invariant
                    k <= level - top,
                    text@ == indent(k as nat),
                decreases level - top - k,
            {
                string_push_str(&mut text, "  ");
                proof {
                    reveal_strlit("  ");
                }
                k = k + 1;
            }
            let t1 = skip_start(self.heading[j].1.as_str(), false);
            let t2 = skip_start(t1.as_str(), true);
            let t3 = skip_start(t2.as_str(), false);
            let t4 = skip_end_ws(t3.as_str());
            string_push_str(&mut text, t4.as_str());
            let ghost before = headings.lines@;
            headings.push(text, self.heading[j].2);
            proof {
                assert forall|q: int| 0 <= q < j + 1 implies {
                    let h = self.heading@[q];
                    &&& (#[trigger] headings.lines@[q]).line.text@ == indent((h.0 - top) as nat)
                        + heading_text(h.1@)
                    &&& headings.lines@[q].line.style == Style::spec_new()
                    &&& headings.lines@[q].jump == h.2
                } by {
                    if q < j {
                        assert(headings.lines@[q] == before[q]);
                    }
                }
            }
            j = j + 1;
        }
        headings
    }
}

/// The smallest level among the headings.
pub open spec fn min_level(h: Seq<(u8, String, SelectedRegion)>) -> u8
    decreases h.len(),
{
    if h.len() <= 1 {
        if h.len() == 1 {
            h[0].0
        } else {
            0
        }
    } else {
        let m = min_level(h.drop_last());
        if h.last().0 < m {
            h.last().0
        } else {
            m
        }
    }
}

proof fn lemma_min_level(h: Seq<(u8, String, SelectedRegion)>)
    requires
        h.len() > 0,
    ensures
        forall|q: int| 0 <= q < h.len() ==> min_level(h) <= (#[trigger] h[q]).0,
    decreases h.len(),
{
    if h.len() > 1 {
        lemma_min_level(h.drop_last());
        assert forall|q: int| 0 <= q < h.len() implies min_level(h) <= (#[trigger] h[q]).0 by {
            if q < h.len() - 1 {
                assert(h[q] == h.drop_last()[q]);
            }
        }
    }
}

/// The position of the last region with the id among the first `k`.
pub open spec fn last_region_before(r: Seq<(usize, SelectedRegion)>, h: int, k: int) -> int
    decreases k,
{
    if k <= 0 {
        -1
    } else if r[k - 1].0 == h {
        k - 1
    } else {
        last_region_before(r, h, k - 1)
    }
}

/// The position of the last region with the id.
pub open spec fn last_region_of(r: Seq<(usize, SelectedRegion)>, h: int) -> int {
    last_region_before(r, h, r.len() as int)
}

proof fn lemma_last_region_step(r: Seq<(usize, SelectedRegion)>, k: int)
    requires
        0 <= k < r.len(),
    ensures
        forall|h: int|
            #![trigger last_region_before(r, h, k + 1)]
            (exists|q: int| 0 <= q < k && (#[trigger] r[q]).0 == h) && r[k].0 != h
                ==> last_region_before(r, h, k + 1) == last_region_before(r, h, k),
{
}

} // verus!
