// Fenced code blocks, with the tags and snippet special in rustdoc:
// * an empty fence tag means Rust code
// * a code line beginning with `# ` is hidden
use vstd::prelude::*;
use crate::util::strings_view;
use crate::style::{Color, Modifier, Style};
use crate::ui::markdown::parse::meta_tag::MetaTag;
use crate::ui::markdown::parse::word::{Block, Line, Word};
use crate::util::{str_to_string, string_push};
use syntect::easy::HighlightLines;
use syntect::highlighting::ThemeSet;
use syntect::parsing::SyntaxSet;

verus! {

/// A piece of a highlighted line: the foreground color, the font style bits and the text.
#[derive(Clone, Debug, PartialEq, Eq)]
pub struct Highlighted {
    pub r: u8,
    pub g: u8,
    pub b: u8,
    pub font: u8,
    pub text: String,
}

pub open spec fn highlighted_view(r: Option<Vec<Vec<Highlighted>>>) -> Option<Seq<Seq<Highlighted>>> {
    match r {
        Some(v) => Some(v@.map_values(|l: Vec<Highlighted>| l@)),
        None => None,
    }
}

/// The pieces syntect's default syntaxes and its default theme of the given name give the
/// lines, with the syntax found by name; `None` when there is no such syntax or highlighting
/// fails.
pub uninterp spec fn highlight_by_name_of(theme: Seq<char>, name: Seq<char>, lines: Seq<Seq<char>>) -> Option<Seq<Seq<Highlighted>>>;

/// The same, with the syntax found by file extension.
pub uninterp spec fn highlight_by_extension_of(theme: Seq<char>, ext: Seq<char>, lines: Seq<Seq<char>>) -> Option<Seq<Seq<Highlighted>>>;

/// The name of the theme that code is highlighted with.
pub open spec fn code_theme() -> Seq<char> {
    seq!['b', 'a', 's', 'e', '1', '6', '-', 'o', 'c', 'e', 'a', 'n', '.', 'd', 'a', 'r', 'k']
}

fn theme_name() -> (r: &'static str)
    ensures
        r@ == code_theme(),
{
    let t = "base16-ocean.dark";
    proof {
        reveal_strlit("base16-ocean.dark");
    }
    t
}

/// Calls syntect's `SyntaxSet::load_defaults_newlines`, `ThemeSet::load_defaults`,
/// `find_syntax_by_name` and `HighlightLines::highlight_line` on each line in turn, with the
/// default theme of the given name; an error of `highlight_line` gives `None`.
/// Claims: the result is the name `highlight_by_name_of` applied to the theme, the name and
/// the lines. The theme is the one of syntect's default themes that the library uses
/// (indexing the theme map panics on a name it lacks).
#[verifier::external_body]
fn highlight_by_name(theme: &str, name: &str, lines: &Vec<String>) -> (r: Option<Vec<Vec<Highlighted>>>)
    requires
        theme@ == code_theme(),
    ensures
        highlighted_view(r) == highlight_by_name_of(theme@, name@, strings_view(lines@)),
{
    let (ps, ts) = (SyntaxSet::load_defaults_newlines(), ThemeSet::load_defaults());
    let mut h = HighlightLines::new(ps.find_syntax_by_name(name)?, &ts.themes[theme]);
    lines.iter().map(|line| h.highlight_line(line, &ps).ok().map(|pieces| pieces.into_iter().map(
        |(s, t)| Highlighted { r: s.foreground.r, g: s.foreground.g, b: s.foreground.b, font: s.font_style.bits(), text: t.to_string() },
    ).collect())).collect()
}

/// Calls syntect's `SyntaxSet::load_defaults_newlines`, `ThemeSet::load_defaults`,
/// `find_syntax_by_extension` and `HighlightLines::highlight_line` on each line in turn, with
/// the default theme of the given name; an error of `highlight_line` gives `None`.
/// Claims: the result is the name `highlight_by_extension_of` applied to the theme, the
/// extension and the lines. The theme is the same default theme.
#[verifier::external_body]
fn highlight_by_extension(theme: &str, ext: &str, lines: &Vec<String>) -> (r: Option<Vec<Vec<Highlighted>>>)
    requires
        theme@ == code_theme(),
    ensures
        highlighted_view(r) == highlight_by_extension_of(theme@, ext@, strings_view(lines@)),
{
    let (ps, ts) = (SyntaxSet::load_defaults_newlines(), ThemeSet::load_defaults());
    let mut h = HighlightLines::new(ps.find_syntax_by_extension(ext)?, &ts.themes[theme]);
    lines.iter().map(|line| h.highlight_line(line, &ps).ok().map(|pieces| pieces.into_iter().map(
        |(s, t)| Highlighted { r: s.foreground.r, g: s.foreground.g, b: s.foreground.b, font: s.font_style.bits(), text: t.to_string() },
    ).collect())).collect()
}

/// The style of a highlighted piece: its foreground, and the modifier its font style is
/// when it is exactly bold, underlined or italic.
pub open spec fn spec_convert_style(r: u8, g: u8, b: u8, font: u8) -> Style {
    Style {
        fg: Some(Color::Rgb(r, g, b)),
        add_modifier: Modifier {
            bits: if font == 1 {
                1
            } else if font == 2 {
                8
            } else if font == 4 {
                4
            } else {
                0
            },
        },
        ..Style::spec_new()
    }
}

pub fn convert_style(r: u8, g: u8, b: u8, font: u8) -> (s: Style)
    ensures
        s == spec_convert_style(r, g, b, font),
{
    let add = if font == 1 {
        Modifier::BOLD
    } else if font == 2 {
        Modifier::UNDERLINED
    } else if font == 4 {
        Modifier::ITALIC
    } else {
        0
    };
    Style {
        fg: Some(Color::Rgb(r, g, b)),
        bg: None,
        underline_color: None,
        add_modifier: Modifier::from_bits(add),
        sub_modifier: Modifier::empty(),
    }
}

/// The pieces of the text from `start` on, split after each line break from `i` on, the
/// breaks kept.
pub open spec fn pieces_from(s: Seq<char>, start: int, i: int) -> Seq<Seq<char>>
    decreases s.len() - i,
{
    if i >= s.len() || i < 0 {
        if 0 <= start < s.len() {
            seq![s.subrange(start, s.len() as int)]
        } else {
            seq![]
        }
    } else if s[i] == '\n' {
        seq![s.subrange(start, i + 1)] + pieces_from(s, i + 1, i + 1)
    } else {
        pieces_from(s, start, i + 1)
    }
}

/// The pieces of a text split after each line break, the breaks kept.
pub open spec fn lines_with_endings(s: Seq<char>) -> Seq<Seq<char>> {
    pieces_from(s, 0, 0)
}

/// A line without its ending: the line break, and a carriage return before it.
pub open spec fn strip_ending(l: Seq<char>) -> Seq<char> {
    if l.len() > 0 && l.last() == '\n' {
        let m = l.drop_last();
        if m.len() > 0 && m.last() == '\r' {
            m.drop_last()
        } else {
            m
        }
    } else {
        l
    }
}

/// The lines of a text, without their endings.
pub open spec fn text_lines(s: Seq<char>) -> Seq<Seq<char>> {
    lines_with_endings(s).map_values(|l: Seq<char>| strip_ending(l))
}

/// Split a text after each line break, the breaks kept.
fn split_with_endings(s: &str) -> (r: Vec<String>)
    ensures
        strings_view(r@) == lines_with_endings(s@),
{
    let n = s.unicode_len();
    let mut out: Vec<String> = Vec::new();
    let mut start: usize = 0;
    let mut cur = String::new();
    let mut i: usize = 0;
    while i < n
        invariant
            n == s@.len(),
            start <= i <= n,
            cur@ == s@.subrange(start as int, i as int),
            strings_view(out@) + pieces_from(s@, start as int, i as int) == lines_with_endings(s@),
        decreases n - i,
    {
        let c = s.get_char(i);
        string_push(&mut cur, c);
        proof {
            assert(s@.subrange(start as int, i + 1) == s@.subrange(start as int, i as int).push(c));
        }
        if c == '\n' {
            let ghost before = out@;
            out.push(cur);
            proof {
                assert(strings_view(out@) == strings_view(before).push(s@.subrange(start as int, i + 1)));
                assert(strings_view(out@) + pieces_from(s@, i + 1, i + 1) =~= strings_view(before)
                    + pieces_from(s@, start as int, i as int));
            }
            cur = String::new();
            start = i + 1;
        }
        i = i + 1;
    }
    if start < n {
        let ghost before = out@;
        out.push(cur);
        proof {
            assert(strings_view(out@) == strings_view(before).push(s@.subrange(start as int, n as int)));
            assert(strings_view(out@) =~= strings_view(before) + pieces_from(s@, start as int, n as int));
        }
    } else {
        proof {
            assert(strings_view(out@) + Seq::<Seq<char>>::empty() =~= strings_view(out@));
        }
    }
    out
}

/// Drop the line ending.
fn strip_line_ending(l: &String) -> (r: String)
    ensures
        r@ == strip_ending(l@),
{
    let mut t = l.clone();
    let n = t.as_str().unicode_len();
    if n > 0 && t.as_str().get_char(n - 1) == '\n' {
        crate::util::string_pop(&mut t);
        let m = t.as_str().unicode_len();
        if m > 0 && t.as_str().get_char(m - 1) == '\r' {
            crate::util::string_pop(&mut t);
        }
    }
    t
}

/// The lines of a text, without their endings.
fn split_lines(s: &str) -> (r: Vec<String>)
    ensures
        strings_view(r@) == text_lines(s@),
{
    let pieces = split_with_endings(s);
    let mut out: Vec<String> = Vec::new();
    let mut i: usize = 0;
    while i < pieces.len()
        invariant
            i <= pieces@.len(),
            strings_view(pieces@) == lines_with_endings(s@),
            strings_view(out@) == lines_with_endings(s@).subrange(0, i as int).map_values(
                |l: Seq<char>| strip_ending(l),
            ),
        decreases pieces@.len() - i,
    {
        let t = strip_line_ending(&pieces[i]);
        let ghost before = out@;
        out.push(t);
        proof {
            assert(strings_view(pieces@)[i as int] == pieces@[i as int]@);
            let ll = lines_with_endings(s@);
            assert(pieces@[i as int]@ == ll[i as int]);
            assert(ll.subrange(0, i + 1) =~= ll.subrange(0, i as int).push(ll[i as int]));
            assert(ll.subrange(0, i + 1).map_values(|l: Seq<char>| strip_ending(l)) =~= ll.subrange(
                0,
                i as int,
            ).map_values(|l: Seq<char>| strip_ending(l)).push(strip_ending(ll[i as int])));
            assert(strings_view(out@) =~= strings_view(before).push(t@));
            assert(strings_view(out@) =~= ll.subrange(0, i + 1).map_values(
                |l: Seq<char>| strip_ending(l),
            ));
        }
        i = i + 1;
    }
    assert(lines_with_endings(s@).subrange(0, i as int) == lines_with_endings(s@));
    out
}

/// A word of a code block.
pub open spec fn code_word(h: Highlighted) -> (Seq<char>, Style) {
    (h.text@, spec_convert_style(h.r, h.g, h.b, h.font))
}

/// The lines hold the highlighted pieces as words tagged as Rust code.
pub open spec fn code_lines(h: Seq<Seq<Highlighted>>, lines: Seq<Line>) -> bool {
    &&& lines.len() == h.len()
    &&& forall|i: int|
        0 <= i < h.len() ==> (#[trigger] lines[i]).words@.len() == h[i].len() && forall|j: int|
            0 <= j < h[i].len() ==> {
                let w = #[trigger] lines[i].words@[j];
                &&& (w.word@, w.style) == code_word(h[i][j])
                &&& w.tag matches MetaTag::CodeBlock(t) && t@ == seq!['r', 'u', 's', 't']
                &&& !w.trailling_whitespace
            }
}

/// The highlighted lines without a last empty one.
pub open spec fn shrunk(h: Seq<Seq<Highlighted>>) -> Seq<Seq<Highlighted>> {
    if h.len() > 0 && h.last().len() == 0 {
        h.drop_last()
    } else {
        h
    }
}

/// The words of highlighted lines, each tagged as Rust code.
fn highlighted_block(lines: Vec<Vec<Highlighted>>) -> (r: Block)
    ensures
        code_lines(shrunk(lines@.map_values(|l: Vec<Highlighted>| l@)), r.lines@),
        r.links@.len() == 0,
        r.footnotes@.len() == 0,
{
    let ghost hv = lines@.map_values(|l: Vec<Highlighted>| l@);
    let mut out: Vec<Line> = Vec::new();
    let mut i: usize = 0;
    while i < lines.len()
        invariant
            i <= lines@.len(),
            hv == lines@.map_values(|l: Vec<Highlighted>| l@),
            code_lines(hv.subrange(0, i as int), out@),
        decreases lines@.len() - i,
    {
        let mut words: Vec<Word> = Vec::new();
        let mut j: usize = 0;
        while j < lines[i].len()
            invariant
                i < lines@.len(),
                j <= lines@[i as int]@.len(),
                words@.len() == j,
                forall|k: int|
                    0 <= k < j ==> {
                        let w = #[trigger] words@[k];
                        &&& (w.word@, w.style) == code_word(lines@[i as int]@[k])
                        &&& w.tag matches MetaTag::CodeBlock(t) && t@ == seq!['r', 'u', 's', 't']
                        &&& !w.trailling_whitespace
                    },
            decreases lines@[i as int]@.len() - j,
        {
            let h = &lines[i][j];
            let tag = MetaTag::CodeBlock(str_to_string("rust"));
            proof {
                reveal_strlit("rust");
            }
            words.push(Word {
                word: h.text.clone(),
                style: convert_style(h.r, h.g, h.b, h.font),
                tag,
                trailling_whitespace: false,
            });
            j = j + 1;
        }
        let ghost before = out@;
        out.push(Line { words });
        proof {
            let hs = hv.subrange(0, i + 1);
            assert(hs[i as int] == lines@[i as int]@);
            assert forall|a: int| 0 <= a < i + 1 implies (#[trigger] out@[a]).words@.len() == hs[a].len()
                && forall|j: int|
                0 <= j < hs[a].len() ==> {
                    let w = #[trigger] out@[a].words@[j];
                    &&& (w.word@, w.style) == code_word(hs[a][j])
                    &&& w.tag matches MetaTag::CodeBlock(t) && t@ == seq!['r', 'u', 's', 't']
                    &&& !w.trailling_whitespace
                } by {
                if a < i {
                    assert(out@[a] == before[a]);
                    assert(hs[a] == hv.subrange(0, i as int)[a]);
                }
            }
        }
        i = i + 1;
    }
    assert(hv.subrange(0, i as int) == hv);
    let mut block = Block::from_lines(out);
    block.shrink_to_fit();
    proof {
        if hv.len() > 0 && hv.last().len() == 0 {
            assert(block.lines@ == out@.drop_last());
            assert forall|a: int| 0 <= a < hv.len() - 1 implies (#[trigger] block.lines@[a]) == out@[a] by {}
        }
    }
    block
}

/// The lines of the code, except the hidden ones starting with `# `.
pub open spec fn shown_lines(lines: Seq<Seq<char>>) -> Seq<Seq<char>>
    decreases lines.len(),
{
    if lines.len() == 0 {
        seq![]
    } else {
        let l = lines.last();
        let rest = shown_lines(lines.drop_last());
        if l.len() >= 2 && l[0] == '#' && l[1] == ' ' {
            rest
        } else {
            rest.push(l)
        }
    }
}

fn filter_hidden(lines: Vec<String>) -> (r: Vec<String>)
    ensures
        strings_view(r@) == shown_lines(strings_view(lines@)),
{
    let mut out: Vec<String> = Vec::new();
    let mut i: usize = 0;
    while i < lines.len()
        invariant
            i <= lines@.len(),
            strings_view(out@) == shown_lines(strings_view(lines@.subrange(0, i as int))),
        decreases lines@.len() - i,
    {
        let l = &lines[i];
        let n = l.as_str().unicode_len();
        let hidden = n >= 2 && l.as_str().get_char(0) == '#' && l.as_str().get_char(1) == ' ';
        proof {
            let v = strings_view(lines@.subrange(0, i + 1));
            assert(v.drop_last() == strings_view(lines@.subrange(0, i as int)));
            assert(v.last() == l@);
        }
        if !hidden {
            let ghost before = out@;
            out.push(l.clone());
            assert(strings_view(out@) == strings_view(before).push(l@));
        }
        i = i + 1;
    }
    assert(lines@.subrange(0, i as int) == lines@);
    out
}

/// The block for code whose language is not known: one line of all the code's lines, each a
/// word in light red.
pub fn fallback(code: &str) -> (r: Block)
    ensures
        r.lines@.len() == 1,
        r.lines@[0].words@.len() == text_lines(code@).len(),
        forall|i: int|
            0 <= i < text_lines(code@).len() ==> {
                let w = #[trigger] r.lines@[0].words@[i];
                &&& w.word@ == text_lines(code@)[i]
                &&& w.style == (Style { fg: Some(Color::LightRed), ..Style::spec_new() })
                &&& w.tag matches MetaTag::CodeBlock(t) && t@ == seq!['U', 'n', 'k', 'n', 'o', 'w', 'n']
                &&& !w.trailling_whitespace
            },
        r.links@.len() == 0,
        r.footnotes@.len() == 0,
{
    let lines = split_lines(code);
    let mut words: Vec<Word> = Vec::new();
    let mut i: usize = 0;
    while i < lines.len()
        invariant
            i <= lines@.len(),
            strings_view(lines@) == text_lines(code@),
            words@.len() == i,
            forall|k: int|
                0 <= k < i ==> {
                    let w = #[trigger] words@[k];
                    &&& w.word@ == text_lines(code@)[k]
                    &&& w.style == (Style { fg: Some(Color::LightRed), ..Style::spec_new() })
                    &&& w.tag matches MetaTag::CodeBlock(t) && t@ == seq!['U', 'n', 'k', 'n', 'o', 'w', 'n']
                    &&& !w.trailling_whitespace
                },
        decreases lines@.len() - i,
    {
        let tag = MetaTag::CodeBlock(str_to_string("Unknown"));
        proof {
            reveal_strlit("Unknown");
            assert(lines@[i as int]@ == text_lines(code@)[i as int]);
        }
        words.push(Word {
            word: lines[i].clone(),
            style: Style::new().fg(Color::LightRed),
            tag,
            trailling_whitespace: false,
        });
        i = i + 1;
    }
    Block::from_words(words)
}

/// The block `fallback` gives for the code.
pub open spec fn fallback_block(code: Seq<char>, r: Block) -> bool {
    &&& r.lines@.len() == 1
    &&& r.lines@[0].words@.len() == text_lines(code).len()
    &&& forall|i: int|
        0 <= i < text_lines(code).len() ==> {
            let w = #[trigger] r.lines@[0].words@[i];
            &&& w.word@ == text_lines(code)[i]
            &&& w.style == (Style { fg: Some(Color::LightRed), ..Style::spec_new() })
            &&& w.tag matches MetaTag::CodeBlock(t) && t@ == seq!['U', 'n', 'k', 'n', 'o', 'w', 'n']
            &&& !w.trailling_whitespace
        }
    &&& r.links@.len() == 0
    &&& r.footnotes@.len() == 0
}

/// A block of highlighted code.
pub open spec fn highlighted(h: Seq<Seq<Highlighted>>, r: Block) -> bool {
    &&& code_lines(shrunk(h), r.lines@)
    &&& r.links@.len() == 0
    &&& r.footnotes@.len() == 0
}

/// The block `rust` gives for the code.
pub open spec fn rust_block(code: Seq<char>, r: Block) -> bool {
    match highlight_by_name_of(code_theme(), seq!['R', 'u', 's', 't'], shown_lines(text_lines(code))) {
        Some(h) => highlighted(h, r),
        None => fallback_block(code, r),
    }
}

/// Rust code highlighted line by line, without the hidden lines; the fallback block when
/// syntect has no Rust syntax.
pub fn rust(code: &str) -> (r: Block)
    ensures
        rust_block(code@, r),
{
    let lines = filter_hidden(split_lines(code));
    let name = "Rust";
    proof {
        reveal_strlit("Rust");
        assert(name@ == seq!['R', 'u', 's', 't']);
        assert(strings_view(lines@) == shown_lines(text_lines(code@)));
    }
    match highlight_by_name(theme_name(), name, &lines) {
        Some(h) => highlighted_block(h),
        None => fallback(code),
    }
}

/// Code of another language, found by the extension, highlighted line by line with the line
/// endings kept; Rust when no syntax has that extension.
pub fn other(lang: &str, code: &str) -> (r: Block)
    ensures
        match highlight_by_extension_of(code_theme(), lang@, lines_with_endings(code@)) {
            Some(h) => highlighted(h, r),
            None => rust_block(code@, r),
        },
{
    let lines = split_with_endings(code);
    match highlight_by_extension(theme_name(), lang, &lines) {
        Some(h) => highlighted_block(h),
        None => rust(code),
    }
}

/// Markdown, highlighted line by line with the line endings kept, by the syntax named
/// `markdown`; Rust when there is no such syntax.
pub fn markdown(code: &str) -> (r: Block)
    ensures
        match highlight_by_name_of(code_theme(), seq!['m', 'a', 'r', 'k', 'd', 'o', 'w', 'n'], lines_with_endings(code@)) {
            Some(h) => highlighted(h, r),
            None => rust_block(code@, r),
        },
{
    let lines = split_with_endings(code);
    let name = "markdown";
    proof {
        reveal_strlit("markdown");
        assert(name@ == seq!['m', 'a', 'r', 'k', 'd', 'o', 'w', 'n']);
    }
    match highlight_by_name(theme_name(), name, &lines) {
        Some(h) => highlighted_block(h),
        None => rust(code),
    }
}

/// A table, rendered from its source as highlighted markdown.
pub fn md_table(table: &str) -> (r: Block)
    ensures
        table_block(table@, r),
{
    markdown(table)
}

/// The block of a fenced code: Rust for no fence, `rust` or `rs` (in any case), else the
/// language that syntect finds by the fence as an extension, else Rust.
pub open spec fn fenced_block(fence: Seq<char>, code: Seq<char>, r: Block) -> bool {
    let f = ascii_lower(fence);
    if f.len() == 0 || f == seq!['r', 'u', 's', 't'] || f == seq!['r', 's'] {
        rust_block(code, r)
    } else {
        match highlight_by_extension_of(code_theme(), f, lines_with_endings(code)) {
            Some(h) => highlighted(h, r),
            None => rust_block(code, r),
        }
    }
}

/// The block of a markdown table: its source highlighted as markdown.
pub open spec fn table_block(table: Seq<char>, r: Block) -> bool {
    match highlight_by_name_of(code_theme(), seq!['m', 'a', 'r', 'k', 'd', 'o', 'w', 'n'], lines_with_endings(table)) {
        Some(h) => highlighted(h, r),
        None => rust_block(table, r),
    }
}

/// The ASCII letters made lowercase.
pub open spec fn ascii_lower(s: Seq<char>) -> Seq<char> {
    s.map_values(|c: char| if 'A' <= c && c <= 'Z' {
        ((c as u32) + 32) as char
    } else {
        c
    })
}

fn to_ascii_lowercase(s: &str) -> (r: String)
    ensures
        r@ == ascii_lower(s@),
{
    let n = s.unicode_len();
    let mut out = String::new();
    let mut i: usize = 0;
    while i < n
        invariant
            n == s@.len(),
            i <= n,
            out@ == ascii_lower(s@.subrange(0, i as int)),
        decreases n - i,
    {
        let c = s.get_char(i);
        let d = if 'A' <= c && c <= 'Z' {
            lower_char(c)
        } else {
            c
        };
        string_push(&mut out, d);
        proof {
            assert(ascii_lower(s@.subrange(0, i + 1)) =~= ascii_lower(s@.subrange(0, i as int)).push(d));
        }
        i = i + 1;
    }
    assert(s@.subrange(0, n as int) == s@);
    out
}

fn lower_char(c: char) -> (d: char)
    requires
        'A' <= c && c <= 'Z',
    ensures
        d == ((c as u32) + 32) as char,
{
    let b = (c as u8) + 32;
    b as char
}

/// The block of a fenced code: Rust for an empty fence, `rust` or `rs` in any case, else the
/// language that the lowercase fence names. The fence is turned to lowercase in place.
pub fn parse(fence: &mut String, code: &str) -> (r: Block)
    ensures
        final(fence)@ == ascii_lower(old(fence)@),
        fenced_block(old(fence)@, code@, r),
{
    let lower = to_ascii_lowercase(fence.as_str());
    let rust_name = str_to_string("rust");
    let rs_name = str_to_string("rs");
    proof {
        reveal_strlit("rust");
        reveal_strlit("rs");
        assert(rust_name@ == seq!['r', 'u', 's', 't']);
        assert(rs_name@ == seq!['r', 's']);
    }
    let r = if lower.as_str().unicode_len() == 0 || lower == rust_name || lower == rs_name {
        rust(code)
    } else {
        other(lower.as_str(), code)
    };
    *fence = lower;
    r
}

} // verus!
