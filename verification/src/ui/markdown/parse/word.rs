use vstd::prelude::*;
use crate::style::{Color, Modifier, Style};
use crate::ui::markdown::parse::meta_tag::MetaTag;
use crate::ui::markdown::parse::segment::{segment_words, spec_segment_words};
use crate::util::{str_to_string, string_push_str};

verus! {

/// A word that has styling and metadata.
///
/// For Paragraphs or QuoteBlocks, words are wrapped in a line.
/// For non-wrappable blocks, like in CodeBlocks, words in a line are truncated.
pub struct Word {
    /// The word holds no trailing whitespace; `trailling_whitespace` tells whether one
    /// follows it.
    pub word: String,
    pub style: Style,
    pub tag: MetaTag,
    /// Whether a whitespace follows the word: the wrapping counts it amid a line, and the
    /// word's style extends over it.
    pub trailling_whitespace: bool,
}

impl Clone for Word {
    fn clone(&self) -> (r: Word)
        ensures
            r == *self,
    {
        Word {
            word: self.word.clone(),
            style: self.style,
            tag: self.tag.clone(),
            trailling_whitespace: self.trailling_whitespace,
        }
    }
}

impl Word {
    /// A word with the given text, the default style, the normal tag and no whitespace after.
    pub fn plain(word: String) -> (r: Word)
        ensures
            r.word == word,
            r.style == Style::spec_new(),
            r.tag == MetaTag::Normal,
            !r.trailling_whitespace,
    {
        Word { word, style: Style::new(), tag: MetaTag::Normal, trailling_whitespace: false }
    }

    /// An empty word that only stands for a whitespace.
    pub fn whitespace() -> (r: Word)
        ensures
            r.word@.len() == 0,
            r.style == Style::spec_new(),
            r.tag == MetaTag::Normal,
            r.trailling_whitespace,
    {
        Word {
            word: String::new(),
            style: Style::new(),
            tag: MetaTag::Normal,
            trailling_whitespace: true,
        }
    }
}

impl Default for Word {
    fn default() -> (r: Word)
        ensures
            r.word@.len() == 0,
            r.style == Style::spec_new(),
            r.tag == MetaTag::Normal,
            !r.trailling_whitespace,
    {
        Word::plain(String::new())
    }
}

/// A line to be rendered on screen, containing multiple words.
///
/// For a line in a Paragraph block, texts are usually wrapped at fixed width.
pub struct Line {
    pub words: Vec<Word>,
}

/// The style of a backtick fence line.
pub open spec fn spec_fence_style() -> Style {
    Style { fg: Some(Color::Red), add_modifier: Modifier { bits: 1 }, ..Style::spec_new() }
}

/// The position of the first backtick.
pub open spec fn first_backtick(s: Seq<char>) -> Option<int> {
    if exists|i: int| 0 <= i < s.len() && s[i] == '`' {
        Some(choose|i: int| 0 <= i < s.len() && s[i] == '`' && forall|j: int| 0 <= j < i ==> s[j] != '`')
    } else {
        None
    }
}

impl Line {
    /// The two lines of a code fence: the text before the first backtick (if there is one)
    /// as a plain word, then the rest as the fence in red and bold. In the first line the
    /// fence is followed by the language, `rust` when none is given.
    pub fn backtick(text: &str, fence: String) -> (r: [Line; 2])
        ensures
            ({
                let s = text@;
                let head = match first_backtick(s) {
                    Some(k) => 1int,
                    None => 0int,
                };
                let split = match first_backtick(s) {
                    Some(k) => k,
                    None => 0,
                };
                let lang = if fence@.len() == 0 {
                    seq!['r', 'u', 's', 't']
                } else {
                    fence@
                };
                &&& r[1].words@.len() == head + 1
                &&& head == 1 ==> r[1].words@[0].word@ == s.subrange(0, split) && r[1].words@[0].style
                    == Style::spec_new() && r[1].words@[0].tag == MetaTag::Normal
                    && !r[1].words@[0].trailling_whitespace
                &&& r[1].words@[head].word@ == s.subrange(split, s.len() as int)
                &&& r[1].words@[head].style == spec_fence_style()
                &&& r[1].words@[head].tag == MetaTag::CodeBlock(fence)
                &&& !r[1].words@[head].trailling_whitespace
                &&& r[0].words@.len() == head + 1
                &&& head == 1 ==> r[0].words@[0] == r[1].words@[0]
                &&& r[0].words@[head].word@ == s.subrange(split, s.len() as int) + lang
                &&& r[0].words@[head].style == spec_fence_style()
                &&& r[0].words@[head].tag == MetaTag::CodeBlock(fence)
                &&& !r[0].words@[head].trailling_whitespace
            }),
    {
        let n = text.unicode_len();
        let mut i: usize = 0;
        while i < n
            invariant_except_break
                i <= n,
            invariant
                n == text@.len(),
                forall|j: int| 0 <= j < i ==> text@[j] != '`',
            ensures
                i <= n,
                i < n ==> text@[i as int] == '`',
            decreases n - i,
        {
            if text.get_char(i) == '`' {
                break;
            }
            i = i + 1;
        }
        let ghost s = text@;
        proof {
            if i < n {
                assert(s[i as int] == '`');
                let k = choose|k: int| 0 <= k < s.len() && s[k] == '`' && forall|j: int| 0 <= j < k ==> s[j] != '`';
                assert(k == i) by {
                    if k < i {
                        assert(s[k] != '`');
                    }
                    if k > i {
                        assert(s[i as int] != '`');
                    }
                }
            }
        }
        let mut words: Vec<Word> = Vec::new();
        let mut start: usize = 0;
        if i < n {
            words.push(Word::plain(str_to_string(text.substring_char(0, i))));
            start = i;
        }
        let fence_word = Word {
            word: str_to_string(text.substring_char(start, n)),
            style: Style::new().fg(Color::Red).add_modifier(Modifier::BOLD),
            tag: MetaTag::CodeBlock(fence.clone()),
            trailling_whitespace: false,
        };
        proof {
            assert((0u16 | 1u16) == 1u16) by (bit_vector);
            assert((0u16 & !1u16) == 0u16) by (bit_vector);
        }
        let mut tick = fence_word.clone();
        words.push(fence_word);
        let pair2 = Line { words };
        let mut pair1: Vec<Word> = Vec::new();
        if i < n {
            pair1.push(pair2.words[0].clone());
        }
        if fence.as_str().unicode_len() == 0 {
            string_push_str(&mut tick.word, "rust");
            proof {
                reveal_strlit("rust");
            }
        } else {
            string_push_str(&mut tick.word, fence.as_str());
        }
        pair1.push(tick);
        [Line { words: pair1 }, pair2]
    }
}

/// A block that represents a region like Paragraph, CodeBlock, QuoteBlock, Rule etc.
///
/// For a Paragraph or QuoteBlock, a block usually has one line which will
/// be rendered as wrapped multiple lines.
/// For a codeblock, a block has multiple Lines, and one line in source markdown
/// is equivalently one Line in the block.
pub struct Block {
    pub lines: Vec<Line>,
    pub links: Vec<usize>,
    pub footnotes: Vec<String>,
}

/// The words of the last line, or none.
pub open spec fn last_words(lines: Seq<Line>) -> Seq<Word> {
    if lines.len() == 0 {
        seq![]
    } else {
        lines.last().words@
    }
}

/// The lines before the last one.
pub open spec fn prefix_lines(lines: Seq<Line>) -> Seq<Line> {
    if lines.len() == 0 {
        seq![]
    } else {
        lines.drop_last()
    }
}

/// The block's last line has gained the words: there is a last line now, the lines before
/// it are as they were, and its words are the old ones followed by the new.
pub open spec fn words_added(old: Block, new: Block, added_len: int) -> bool {
    &&& new.lines@.len() == (if old.lines@.len() == 0 {
        1
    } else {
        old.lines@.len()
    })
    &&& prefix_lines(new.lines@) == prefix_lines(old.lines@)
    &&& last_words(new.lines@).len() == last_words(old.lines@).len() + added_len
    &&& last_words(new.lines@).subrange(0, last_words(old.lines@).len() as int) == last_words(
        old.lines@,
    )
    &&& new.links == old.links
    &&& new.footnotes == old.footnotes
}

/// The new words of the last line are the segmented words of the text, each with the style
/// and the tag.
pub open spec fn segmented_added(old: Block, new: Block, text: Seq<char>, style: Style, tag: MetaTag) -> bool {
    let segs = spec_segment_words(text);
    let base = last_words(old.lines@).len();
    &&& words_added(old, new, segs.len() as int)
    &&& forall|i: int|
        0 <= i < segs.len() ==> {
            let w = #[trigger] last_words(new.lines@)[base + i];
            &&& w.word@ == segs[i].0
            &&& w.trailling_whitespace == segs[i].1
            &&& w.style == style
            &&& w.tag == tag
        }
}

/// A word with a new tag and foreground, and with the bold modifier in place of the others
/// if asked.
pub open spec fn retag(w: Word, tag: MetaTag, fg: Color, bold: bool) -> Word {
    Word {
        word: w.word,
        style: if bold {
            Style { fg: Some(fg), add_modifier: Modifier { bits: 1 }, ..w.style }
        } else {
            Style { fg: Some(fg), ..w.style }
        },
        tag,
        trailling_whitespace: w.trailling_whitespace,
    }
}

/// Every word of every line is retagged.
pub open spec fn all_retagged(old: Block, new: Block, tag: MetaTag, fg: Color, bold: bool) -> bool {
    &&& new.lines@.len() == old.lines@.len()
    &&& forall|i: int|
        0 <= i < old.lines@.len() ==> (#[trigger] new.lines@[i]).words@ == old.lines@[i].words@.map_values(
            |w: Word| retag(w, tag, fg, bold),
        )
    &&& new.links == old.links
    &&& new.footnotes == old.footnotes
}

impl Block {
    pub fn new() -> (r: Block)
        ensures
            r.lines@.len() == 0,
            r.links@.len() == 0,
            r.footnotes@.len() == 0,
    {
        Block { lines: Vec::new(), links: Vec::new(), footnotes: Vec::new() }
    }

    /// A block of these lines.
    pub fn from_lines(lines: Vec<Line>) -> (r: Block)
        ensures
            r.lines == lines,
            r.links@.len() == 0,
            r.footnotes@.len() == 0,
    {
        Block { lines, links: Vec::new(), footnotes: Vec::new() }
    }

    /// A block of one line of these words.
    pub fn from_words(words: Vec<Word>) -> (r: Block)
        ensures
            r.lines@.len() == 1,
            r.lines@[0].words == words,
            r.links@.len() == 0,
            r.footnotes@.len() == 0,
    {
        let mut lines: Vec<Line> = Vec::new();
        lines.push(Line { words });
        Block { lines, links: Vec::new(), footnotes: Vec::new() }
    }

    /// Append lines.
    pub fn extend_lines(&mut self, lines: Vec<Line>)
        ensures
            final(self).lines@ == old(self).lines@ + lines@,
            final(self).links == old(self).links,
            final(self).footnotes == old(self).footnotes,
    {
        let mut lines = lines;
        self.lines.append(&mut lines);
    }

    /// Append a constructed word to the last line, made if there is none.
    pub fn push_a_word(&mut self, word: Word)
        ensures
            words_added(*old(self), *final(self), 1),
            last_words(final(self).lines@).last() == word,
    {
        if self.lines.len() == 0 {
            self.lines.push(Line { words: Vec::new() });
        }
        let ghost mid = self.lines@;
        let mut last = self.lines.pop().unwrap();
        assert(last.words@ == last_words(old(self).lines@));
        last.words.push(word);
        self.lines.push(last);
        proof {
            assert(last_words(self.lines@) == last_words(old(self).lines@).push(word));
            assert(self.lines@.drop_last() =~= mid.drop_last());
            assert(last_words(self.lines@).subrange(0, last_words(old(self).lines@).len() as int)
                =~= last_words(old(self).lines@));
            assert(prefix_lines(self.lines@) == prefix_lines(old(self).lines@));
            assert(self.links == old(self).links);
            assert(self.lines@.len() == (if old(self).lines@.len() == 0 { 1 } else { old(self).lines@.len() }));
        }
    }

    /// Append words to the last line, made if there is none.
    pub fn extend_words(&mut self, words: Vec<Word>)
        ensures
            words_added(*old(self), *final(self), words@.len() as int),
            last_words(final(self).lines@) == last_words(old(self).lines@) + words@,
    {
        if self.lines.len() == 0 {
            self.lines.push(Line { words: Vec::new() });
        }
        let ghost mid = self.lines@;
        let mut last = self.lines.pop().unwrap();
        assert(last.words@ == last_words(old(self).lines@));
        let mut words = words;
        let ghost wv = words@;
        last.words.append(&mut words);
        self.lines.push(last);
        proof {
            assert(last_words(self.lines@) == last_words(old(self).lines@) + wv);
            assert(self.lines@.drop_last() =~= mid.drop_last());
            assert(prefix_lines(self.lines@) == prefix_lines(old(self).lines@));
            assert(self.lines@.len() == (if old(self).lines@.len() == 0 { 1 } else { old(self).lines@.len() }));
            assert(last_words(self.lines@).subrange(0, last_words(old(self).lines@).len() as int)
                =~= last_words(old(self).lines@));
        }
    }

    /// Append specified style and tag words segmented from the text to the last line.
    pub fn push_words(&mut self, words: &str, style: Style, tag: MetaTag)
        ensures
            segmented_added(*old(self), *final(self), words@, style, tag),
    {
        if self.lines.len() == 0 {
            self.lines.push(Line { words: Vec::new() });
        }
        let ghost mid = self.lines@;
        let mut last = self.lines.pop().unwrap();
        assert(last.words@ == last_words(old(self).lines@));
        let ghost base = last.words@;
        let segs = segment_words(words);
        let ghost sv = spec_segment_words(words@);
        let mut i: usize = 0;
        while i < segs.len()
            invariant
                i <= segs@.len(),
                segs@.len() == sv.len(),
                forall|k: int| 0 <= k < segs@.len() ==> (#[trigger] segs@[k]).0@ == sv[k].0 && segs@[k].1 == sv[k].1,
                last.words@.len() == base.len() + i,
                last.words@.subrange(0, base.len() as int) == base,
                forall|k: int|
                    0 <= k < i ==> {
                        let w = #[trigger] last.words@[base.len() + k];
                        &&& w.word@ == sv[k].0
                        &&& w.trailling_whitespace == sv[k].1
                        &&& w.style == style
                        &&& w.tag == tag
                    },
            decreases segs@.len() - i,
        {
            let w = Word {
                word: segs[i].0.clone(),
                style,
                tag: tag.clone(),
                trailling_whitespace: segs[i].1,
            };
            let ghost before = last.words@;
            last.words.push(w);
            proof {
                assert(last.words@.subrange(0, base.len() as int) =~= before.subrange(0, base.len() as int));
                assert forall|k: int| 0 <= k < i + 1 implies {
                    let w = #[trigger] last.words@[base.len() + k];
                    &&& w.word@ == sv[k].0
                    &&& w.trailling_whitespace == sv[k].1
                    &&& w.style == style
                    &&& w.tag == tag
                } by {
                    if k < i {
                        assert(last.words@[base.len() + k] == before[base.len() + k]);
                    }
                }
            }
            i = i + 1;
        }
        self.lines.push(last);
        proof {
            assert(self.lines@.drop_last() =~= mid.drop_last());
            assert(last_words(old(self).lines@) == base);
            assert(last_words(self.lines@) == last.words@);
            assert(prefix_lines(self.lines@) == prefix_lines(old(self).lines@));
            assert(self.lines@.len() == (if old(self).lines@.len() == 0 { 1 } else { old(self).lines@.len() }));
        }
    }

    /// Append normal words segmented from the text to the last line.
    pub fn push_normal_words(&mut self, words: &str)
        ensures
            segmented_added(*old(self), *final(self), words@, Style::spec_new(), MetaTag::Normal),
    {
        self.push_words(words, Style::new(), MetaTag::Normal);
    }

    /// Drop the last line if it holds no words.
    pub fn shrink_to_fit(&mut self)
        ensures
            final(self).lines@ == (if old(self).lines@.len() > 0 && old(self).lines@.last().words@.len()
                == 0 {
                old(self).lines@.drop_last()
            } else {
                old(self).lines@
            }),
            final(self).links == old(self).links,
            final(self).footnotes == old(self).footnotes,
    {
        let n = self.lines.len();
        if n > 0 && self.lines[n - 1].words.len() == 0 {
            self.lines.pop();
        }
    }

    /// Give every word the tag and the foreground, and the bold modifier in place of the
    /// others if asked.
    fn retag_all(&mut self, tag: MetaTag, fg: Color, bold: bool)
        ensures
            all_retagged(*old(self), *final(self), tag, fg, bold),
    {
        let n = self.lines.len();
        let mut i: usize = 0;
        while i < n
            invariant
                n == self.lines@.len(),
                n == old(self).lines@.len(),
                i <= n,
                forall|k: int|
                    0 <= k < i ==> (#[trigger] self.lines@[k]).words@ == old(self).lines@[k].words@.map_values(
                        |w: Word| retag(w, tag, fg, bold),
                    ),
                forall|k: int| i <= k < n ==> (#[trigger] self.lines@[k]) == old(self).lines@[k],
                self.links == old(self).links,
                self.footnotes == old(self).footnotes,
            decreases n - i,
        {
            let mut line = self.lines.remove(i);
            let ghost ow = line.words@;
            let m = line.words.len();
            let mut j: usize = 0;
            while j < m
                invariant
                    m == line.words@.len(),
                    m == ow.len(),
                    j <= m,
                    forall|k: int| 0 <= k < j ==> (#[trigger] line.words@[k]) == retag(ow[k], tag, fg, bold),
                    forall|k: int| j <= k < m ==> (#[trigger] line.words@[k]) == ow[k],
                decreases m - j,
            {
                let mut w = line.words.remove(j);
                w.tag = tag.clone();
                w.style.fg = Some(fg);
                if bold {
                    w.style.add_modifier = Modifier::from_bits(Modifier::BOLD);
                }
                line.words.insert(j, w);
                j = j + 1;
            }
            proof {
                assert(line.words@ =~= ow.map_values(|w: Word| retag(w, tag, fg, bold)));
            }
            let ghost before = self.lines@;
            self.lines.insert(i, line);
            proof {
                assert forall|k: int| 0 <= k < i + 1 implies (#[trigger] self.lines@[k]).words@
                    == old(self).lines@[k].words@.map_values(|w: Word| retag(w, tag, fg, bold)) by {
                    if k < i {
                        assert(self.lines@[k] == before[k]);
                    }
                }
                assert forall|k: int| i + 1 <= k < n implies (#[trigger] self.lines@[k]) == old(
                    self,
                ).lines@[k] by {
                    assert(self.lines@[k] == before[k - 1]);
                }
            }
            i = i + 1;
        }
    }

    /// Turn the block into a heading with the given id.
    pub fn set_heading(&mut self, id: usize)
        ensures
            all_retagged(*old(self), *final(self), MetaTag::Heading(id), Color::LightCyan, true),
    {
        self.retag_all(MetaTag::Heading(id), Color::LightCyan, true);
    }

    /// QuoteBlocks are Paragraphs tagged with QuoteBlock and a slightly different style.
    pub fn set_quote_block(&mut self)
        ensures
            all_retagged(*old(self), *final(self), MetaTag::QuoteBlock, Color::Rgb(186, 85, 211), false),
    {
        self.retag_all(MetaTag::QuoteBlock, Color::Rgb(186, 85, 211), false);
    }

    /// Footnotes are Paragraphs tagged with FootnoteSource.
    pub fn set_foot_note(&mut self)
        ensures
            all_retagged(*old(self), *final(self), MetaTag::FootnoteSource, Color::LightMagenta, false),
    {
        self.retag_all(MetaTag::FootnoteSource, Color::LightMagenta, false);
    }

    /// Append the lines of a code block.
    pub fn push_code_block(&mut self, code: Block)
        ensures
            final(self).lines@ == old(self).lines@ + code.lines@,
            final(self).links == old(self).links,
            final(self).footnotes == old(self).footnotes,
    {
        self.extend_lines(code.lines);
    }

    pub fn lines(&self) -> (r: &[Line])
        ensures
            r@ == self.lines@,
    {
        self.lines.as_slice()
    }

    pub fn links(&self) -> (r: &[usize])
        ensures
            r@ == self.links@,
    {
        self.links.as_slice()
    }

    pub fn footnotes(&self) -> (r: &[String])
        ensures
            r@ == self.footnotes@,
    {
        self.footnotes.as_slice()
    }

    /// Record a link index once.
    pub fn push_link(&mut self, idx: usize)
        ensures
            final(self).links@ == (if old(self).links@.contains(idx) {
                old(self).links@
            } else {
                old(self).links@.push(idx)
            }),
            final(self).lines == old(self).lines,
            final(self).footnotes == old(self).footnotes,
    {
        let mut i: usize = 0;
        while i < self.links.len()
            invariant
                i <= self.links@.len(),
                forall|k: int| 0 <= k < i ==> self.links@[k] != idx,
            decreases self.links@.len() - i,
        {
            if self.links[i] == idx {
                assert(self.links@.contains(idx)) by {
                    assert(self.links@[i as int] == idx);
                }
                return;
            }
            i = i + 1;
        }
        self.links.push(idx);
    }

    /// Record a footnote key once.
    pub fn push_footnote(&mut self, key: String)
        ensures
            final(self).footnotes@.map_values(|s: String| s@) == (if old(self).footnotes@.map_values(
                |s: String| s@,
            ).contains(key@) {
                old(self).footnotes@.map_values(|s: String| s@)
            } else {
                old(self).footnotes@.map_values(|s: String| s@).push(key@)
            }),
            final(self).lines == old(self).lines,
            final(self).links == old(self).links,
    {
        let ghost fv = self.footnotes@.map_values(|s: String| s@);
        let mut i: usize = 0;
        while i < self.footnotes.len()
            invariant
                i <= self.footnotes@.len(),
                fv == self.footnotes@.map_values(|s: String| s@),
                forall|k: int| 0 <= k < i ==> self.footnotes@[k]@ != key@,
            decreases self.footnotes@.len() - i,
        {
            if self.footnotes[i] == key {
                assert(fv.contains(key@)) by {
                    assert(fv[i as int] == key@);
                }
                return;
            }
            i = i + 1;
        }
        proof {
            assert(!fv.contains(key@)) by {
                if fv.contains(key@) {
                    let k = choose|k: int| 0 <= k < fv.len() && fv[k] == key@;
                    assert(self.footnotes@[k]@ == key@);
                }
            }
        }
        let ghost before = self.footnotes@;
        self.footnotes.push(key);
        assert(self.footnotes@.map_values(|s: String| s@) =~= before.map_values(|s: String| s@).push(key@));
    }
}

/// The text of a line: its words, each but the last followed by a space when one follows it.
pub open spec fn line_text(ws: Seq<Word>) -> Seq<char>
    decreases ws.len(),
{
    if ws.len() == 0 {
        seq![]
    } else if ws.len() == 1 {
        ws[0].word@
    } else {
        (if ws[0].trailling_whitespace {
            ws[0].word@.push(' ')
        } else {
            ws[0].word@
        }) + line_text(ws.drop_first())
    }
}

/// The text of lines, each ended by a newline.
pub open spec fn lines_text(ls: Seq<Line>) -> Seq<char>
    decreases ls.len(),
{
    if ls.len() == 0 {
        seq![]
    } else {
        lines_text(ls.drop_last()) + line_text(ls.last().words@).push('\n')
    }
}

impl Word {
    /// The word, and a space when one follows it.
    pub fn to_string(&self) -> (r: String)
        ensures
            r@ == (if self.trailling_whitespace {
                self.word@.push(' ')
            } else {
                self.word@
            }),
    {
        let mut s = self.word.clone();
        if self.trailling_whitespace {
            crate::util::string_push(&mut s, ' ');
        }
        s
    }
}

impl Line {
    /// The words, each but the last followed by a space when one follows it.
    pub fn to_string(&self) -> (r: String)
        ensures
            r@ == line_text(self.words@),
    {
        let n = self.words.len();
        let mut s = String::new();
        if n == 0 {
            return s;
        }
        let mut i: usize = n - 1;
        s = self.words[i].word.clone();
        // built from the end: each earlier word goes in front
        while i > 0
            invariant
                0 <= i < n,
                n == self.words@.len(),
                s@ == line_text(self.words@.skip(i as int)),
            decreases i,
        {
            i = i - 1;
            let mut front = self.words[i].to_string();
            string_push_str(&mut front, s.as_str());
            proof {
                let rest = self.words@.skip(i as int);
                assert(rest[0] == self.words@[i as int]);
                assert(rest.drop_first() =~= self.words@.skip(i + 1));
            }
            s = front;
        }
        proof {
            assert(self.words@.skip(0) =~= self.words@);
            let last = self.words@.skip(n - 1);
            assert(last.len() == 1);
        }
        s
    }
}

impl Block {
    /// The lines, each ended by a newline.
    pub fn to_string(&self) -> (r: String)
        ensures
            r@ == lines_text(self.lines@),
    {
        let mut s = String::new();
        let mut i: usize = 0;
        while i < self.lines.len()
            invariant
                i <= self.lines@.len(),
                s@ == lines_text(self.lines@.subrange(0, i as int)),
            decreases self.lines@.len() - i,
        {
            let line = self.lines[i].to_string();
            string_push_str(&mut s, line.as_str());
            crate::util::string_push(&mut s, '\n');
            proof {
                let p = self.lines@.subrange(0, i + 1);
                assert(p.drop_last() =~= self.lines@.subrange(0, i as int));
                assert(p.last() == self.lines@[i as int]);
            }
            i = i + 1;
        }
        assert(self.lines@.subrange(0, i as int) =~= self.lines@);
        s
    }
}

} // verus!
