use term_rustdoc::ui::markdown::region::{region_tag, RegionTag};
use term_rustdoc::style::{Color, Modifier, Style};
use term_rustdoc::ui::markdown::parse::entry_point::{parse, parse_events, Blocks};
use term_rustdoc::ui::markdown::parse::events::{EventRange, MdEvent, MdTag, MdTagEnd};
use term_rustdoc::ui::markdown::parse::links::Links;
use term_rustdoc::ui::markdown::parse::list::{parse_intra_code, parse_intra_code_in_link, parse_paragraph};
use term_rustdoc::ui::markdown::parse::links::link_style;
use term_rustdoc::ui::markdown::parse::list::intra_code_style;
use term_rustdoc::ui::markdown::heading::Headings;
use textwrap::wrap_algorithms::{wrap_optimal_fit, Penalties};
use unicode_width::UnicodeWidthStr;
use term_rustdoc::ui::markdown::parse::meta_tag::{LinkTag, MetaTag};
use term_rustdoc::ui::markdown::parse::segment::{segment_str, segment_words};
use term_rustdoc::ui::markdown::parse::word::{Block, Word};

fn texts(ws: &[Word]) -> Vec<String> {
    ws.iter().map(|w| w.word.clone()).collect()
}

fn line_texts(b: &Block, line: usize) -> Vec<String> {
    texts(&b.lines[line].words)
}

fn all_texts(b: &Block) -> Vec<String> {
    b.lines.iter().flat_map(|l| texts(&l.words)).collect()
}

fn ev(event: MdEvent, start: usize, end: usize) -> EventRange {
    EventRange { event, start, end }
}

#[test]
fn empty_doc_has_no_blocks() {
    let b = parse("").unwrap();
    assert!(b.blocks.is_empty());
    assert!(b.links.links.is_empty());
}

#[test]
fn segment_words_mark_trailing_spaces() {
    let ws = segment_words("hello world");
    assert_eq!(ws, vec![("hello".to_string(), true), ("world".to_string(), false)]);
}

#[test]
fn paragraph_words_and_emphasis() {
    let b = parse("aaa b *c* d **e**.").unwrap();
    assert_eq!(b.blocks.len(), 1);
    let words = &b.blocks[0].lines[0].words;
    // the space after the emphasis is a segment of its own: an empty word with a whitespace
    assert_eq!(texts(words), vec!["aaa", "b", "c", "", "d", "e", "."]);
    assert!(words[3].trailling_whitespace);
    let italic = words.iter().find(|w| w.word == "c").unwrap();
    assert_eq!(italic.style.add_modifier.bits, Modifier::ITALIC);
    let bold = words.iter().find(|w| w.word == "e").unwrap();
    assert_eq!(bold.style.add_modifier.bits, Modifier::BOLD);
    assert!(words[0].trailling_whitespace);
}

#[test]
fn links_are_numbered_once() {
    let b = parse("[a](b), [c](d) and [e](b).").unwrap();
    assert_eq!(b.links.links, vec!["b".to_string(), "d".to_string()]);
    let block = &b.blocks[0];
    assert_eq!(block.links, vec![0, 1]);
    let t = all_texts(block);
    assert_eq!(&t[0..6], &["[", "a", "]", "[", "0", "]"]);
    assert!(t.contains(&"e".to_string()));
    let e_word = block.lines[0].words.iter().find(|w| w.word == "e").unwrap();
    assert!(matches!(e_word.tag, MetaTag::Link(LinkTag::ReferenceLink(0))));
    assert_eq!(e_word.style.fg, Some(Color::Rgb(30, 144, 255)));
}

#[test]
fn heading_is_recorded_and_retagged() {
    let b = parse("# h1 `code`").unwrap();
    assert_eq!(b.blocks.len(), 1);
    let t = all_texts(&b.blocks[0]);
    assert_eq!(t, vec!["# ", "h1", "`", "code", "`"]);
    for w in &b.blocks[0].lines[0].words {
        assert!(matches!(w.tag, MetaTag::Heading(0)));
        assert_eq!(w.style.fg, Some(Color::LightCyan));
    }
    assert_eq!(b.links.heading.len(), 1);
    assert_eq!(b.links.heading[0].0, 1);
    assert_eq!(b.links.heading[0].1, "# h1 `code`");
}

#[test]
fn rule_is_a_block_of_its_own() {
    let b = parse("a\n\n---\n\nb").unwrap();
    assert_eq!(b.blocks.len(), 3);
    assert!(matches!(b.blocks[1].lines[0].words[0].tag, MetaTag::Rule));
    assert_eq!(b.blocks[1].lines[0].words[0].word, "");
}

#[test]
fn lists_get_prefixes_and_levels() {
    let b = parse("- [x] done!\n    - nested list\n- [ ] undone\n    1. *a*\n    2. `b`\n").unwrap();
    assert_eq!(b.blocks.len(), 1);
    let block = &b.blocks[0];
    assert_eq!(line_texts(block, 0), vec!["", "* ", "[x]", "", "done!"]);
    assert_eq!(line_texts(block, 1), vec!["  ", "* ", "nested", "list"]);
    assert_eq!(line_texts(block, 2), vec!["", "* ", "[ ]", "", "undone"]);
    assert_eq!(line_texts(block, 3), vec!["  ", "1. ", "a"]);
    assert_eq!(line_texts(block, 4), vec!["  ", "2. ", "`", "b", "`"]);
    assert!(matches!(block.lines[3].words[1].tag, MetaTag::ListItemN(1)));
    assert!(matches!(block.lines[4].words[1].tag, MetaTag::ListItemN(2)));
    assert_eq!(block.lines[0].words[2].style.fg, Some(Color::LightYellow));
}

#[test]
fn footnotes_are_defined_and_referenced() {
    let b = parse("m[^n].\n\n[^n]: blah").unwrap();
    assert_eq!(b.blocks.len(), 1);
    assert_eq!(all_texts(&b.blocks[0]), vec!["m", "[", "^", "n", "]", "."]);
    assert_eq!(b.blocks[0].footnotes, vec!["n".to_string()]);
    assert_eq!(b.links.footnotes.len(), 1);
    assert_eq!(b.links.footnotes[0].0, "n");
    assert_eq!(all_texts(&b.links.footnotes[0].1), vec!["[^n]: ", "blah"]);
    assert!(matches!(b.links.footnotes[0].1.lines[0].words[1].tag, MetaTag::FootnoteSource));
}

#[test]
fn quote_is_retagged() {
    let b = parse("> rrr sss\n> tt").unwrap();
    assert_eq!(b.blocks.len(), 1);
    for w in &b.blocks[0].lines[0].words {
        assert!(matches!(w.tag, MetaTag::QuoteBlock));
        assert_eq!(w.style.fg, Some(Color::Rgb(186, 85, 211)));
    }
    assert_eq!(all_texts(&b.blocks[0]), vec!["rrr", "sss", "", "tt"]);
}

#[test]
fn code_block_is_highlighted_as_rust() {
    let b = parse("```\nlet a = 1;\n```").unwrap();
    assert_eq!(b.blocks.len(), 1);
    let joined: String = all_texts(&b.blocks[0]).concat();
    assert!(joined.contains("let a = 1;"));
    for l in &b.blocks[0].lines {
        for w in &l.words {
            assert!(matches!(&w.tag, MetaTag::CodeBlock(t) if t == "rust"));
        }
    }
}

#[test]
fn image_is_one_gray_word() {
    let b = parse("![alt text](pic.png)").unwrap();
    let w = &b.blocks[0].lines[0].words[0];
    assert_eq!(w.word, "![alt text](pic.png)");
    assert!(matches!(w.tag, MetaTag::Image));
    assert_eq!(w.style.fg, Some(Color::Rgb(192, 192, 192)));
}

#[test]
fn heading_with_bad_range_is_refused() {
    // a heading whose byte range splits the character `é`
    let doc = "é";
    let events = vec![
        ev(MdEvent::Start(MdTag::Heading(1)), 0, 1),
        ev(MdEvent::End(MdTagEnd::Heading(1)), 0, 1),
    ];
    assert!(parse_events(doc, &events).is_none());
}

#[test]
fn events_of_a_paragraph_parse_into_words() {
    let events = vec![
        ev(MdEvent::Text("x y".to_string()), 0, 3),
        ev(MdEvent::SoftBreak, 3, 4),
        ev(MdEvent::Code("z".to_string()), 4, 7),
    ];
    let mut block = Block::new();
    let mut links = Links::new();
    parse_paragraph(&events, 0, 3, &mut block, &mut links);
    assert_eq!(all_texts(&block), vec!["x", "y", "", "`", "z", "`"]);
    assert!(block.lines[0].words[2].trailling_whitespace);
    assert_eq!(block.lines[0].words[3].style, Style::new().fg(Color::Rgb(255, 184, 162)));
}

#[test]
fn markdown_source_is_parsed_into_words() {
    let blocks = parse("a *b*").unwrap();
    assert_eq!(blocks.blocks.len(), 1);
    let b = &blocks.blocks[0];
    assert_eq!(all_texts(b), vec!["a", "b"]);
    assert_ne!(b.lines[0].words[0].style, b.lines[0].words[1].style);
}

#[test]
fn blocks_start_empty() {
    let b = Blocks::new();
    assert!(b.blocks.is_empty());
    assert!(b.links.heading.is_empty());
}

#[test]
fn parse_markdown() {
    let doc = r#"
# h1 `code`

aaa b *c* d **e**. ~xxx~ z.

1 *c **ss** d sadsad xxx* `yyyy`

```
let a = 1;
```

> rrr sss 
> tt

- [x] done!
    - nested list
- [ ] undone
    1. *a*
    2. `b`
"#;
    let parsed = parse(doc).unwrap();
    let expected = "# h1 `code`

aaa b c d e. xxx z.

1 c ss d sadsad xxx `yyyy`

let a = 1;

rrr sss tt

* [x] done!
  * nested list
* [ ] undone
  1. a
  2. `b`

";
    assert_eq!(parsed.to_string(), expected);

    let mut parsed = parsed;
    let lines = styled_at(&mut parsed, 7);
    assert!(!lines.is_empty());
    assert!(lines.iter().all(|l| l.width <= 7 || l.line.len() == 1));
}

#[test]
fn parse_markdown_links() {
    let doc = "
[a](b), [c], [e][c]. [long]

[c]: d

[long]: xxxxxxxxxxxxxxxxxxxxxxxxxxxxxxxxxxxxxxxxxxxxxx

[`f`][c].

## h2 [c] [`h`][c]

m[^n].

[^n]: blah
";
    let blocks = parse(doc).unwrap();
    let expected = "[a][0], [c][1], [e][1]. [long][2]

[`f`][1].

## h2 [c][1] [`h`][1]

m[^n].

";
    assert_eq!(blocks.to_string(), expected);
    assert_eq!(
        blocks.links.links,
        vec!["b".to_string(), "d".to_string(), "xxxxxxxxxxxxxxxxxxxxxxxxxxxxxxxxxxxxxxxxxxxxxx".to_string()]
    );

    let mut blocks = blocks;
    let lines = styled_at(&mut blocks, 20);
    let w = written(&lines);
    assert!(w.contains(&"[0]: b".to_string()));
    assert!(w.contains(&"[1]: d".to_string()));
    assert!(w.contains(&"[2]: ".to_string()));
    assert!(w.contains(&"xxxxxxxxxxxxxxxxxxxx".to_string()));
}

fn written(lines: &[term_rustdoc::ui::markdown::lines::StyledLine]) -> Vec<String> {
    lines.iter().map(|l| l.iter_text_style().iter().map(|(t, _)| t.to_string()).collect::<String>()).collect()
}

#[test]
fn lines_wrap_at_the_given_pieces() {
    let mut blocks = parse("aaa bbb ccc").unwrap();
    let to_wrap = blocks.lines_to_wrap();
    assert_eq!(to_wrap.len(), 1);
    assert_eq!(texts(&to_wrap[0]), vec!["aaa", "bbb", "ccc"]);
    let lines = blocks.write_styled_lines(8, &vec![Some(vec![2, 1])]);
    let w = written(&lines);
    assert_eq!(w.len(), 3);
    assert!(w[0].starts_with("aaa bbb"));
    assert_eq!(w[1].trim_end(), "ccc");
    assert_eq!(w[2], "");
    assert_eq!(lines[2].width, 0);
}

#[test]
fn a_failed_wrap_writes_no_line() {
    let mut blocks = parse("aaa bbb").unwrap();
    let lines = blocks.write_styled_lines(8, &vec![None]);
    assert_eq!(written(&lines), vec![""]);
    // missing wrappings count as failed too
    let lines = blocks.write_styled_lines(8, &vec![]);
    assert_eq!(lines.len(), 1);
}

#[test]
fn long_links_are_cut_into_chunks() {
    let mut blocks = parse("[a](http://example.com)").unwrap();
    let n = blocks.lines_to_wrap()[0].len();
    let lines = blocks.write_styled_lines(10, &vec![Some(vec![n])]);
    let w = written(&lines);
    assert_eq!(w.len(), 6);
    assert_eq!(w[1], "");
    assert_eq!(w[2], "[0]: ");
    assert_eq!(w[3], "http://exa");
    assert_eq!(w[4], "mple.com");
    assert_eq!(w[5], "");
    // a wide screen keeps the anchor and the link on one line
    let lines = blocks.write_styled_lines(80, &vec![Some(vec![n])]);
    let w = written(&lines);
    assert_eq!(w.len(), 4);
    assert_eq!(w[2], "[0]: http://example.com");
}

#[test]
fn only_links_and_footnotes_have_regions() {
    assert!(matches!(region_tag(MetaTag::Link(LinkTag::ReferenceLink(3))), Some(RegionTag::Link(3))));
    match region_tag(MetaTag::Link(LinkTag::Footnote("n".to_string()))) {
        Some(RegionTag::FootNote(k)) => assert_eq!(k, "n"),
        _ => panic!("a footnote has a region"),
    }
    assert!(region_tag(MetaTag::Normal).is_none());
    assert!(region_tag(MetaTag::Link(LinkTag::ExternalItemLink(0))).is_none());
}

#[test]
fn inline_code_in_links_takes_the_link_style() {
    let mut b = Block::new();
    parse_intra_code("a::b", &mut b);
    let n = b.lines[0].words.len();
    assert_eq!(b.lines[0].words[0].word, "`");
    assert_eq!(b.lines[0].words[1].style, intra_code_style());
    parse_intra_code_in_link("c", &mut b);
    let ws = &b.lines[0].words;
    assert_eq!(ws[n].word, "`");
    assert_eq!(ws[n].style, intra_code_style());
    assert_eq!(ws[n + 1].word, "c");
    assert_eq!(ws[n + 1].style, link_style());
    assert_eq!(ws[ws.len() - 1].style, intra_code_style());
    assert!(Headings::with_capacity(8).lines.is_empty());
}

/// A word as textwrap measures it.
#[derive(Debug)]
struct Frag {
    width: f64,
    whitespace: bool,
}

impl textwrap::core::Fragment for Frag {
    fn width(&self) -> f64 {
        self.width
    }

    fn whitespace_width(&self) -> f64 {
        if self.whitespace {
            1.0
        } else {
            0.0
        }
    }

    fn penalty_width(&self) -> f64 {
        0.0
    }
}

/// The doc's lines wrapped by textwrap's optimal fit at the width.
fn styled_at(blocks: &mut Blocks, width: usize) -> Vec<term_rustdoc::ui::markdown::lines::StyledLine> {
    let wraps: Vec<Option<Vec<usize>>> = blocks
        .lines_to_wrap()
        .iter()
        .map(|words| {
            let frags: Vec<Frag> = words
                .iter()
                .map(|w| Frag { width: w.word.width() as f64, whitespace: w.trailling_whitespace })
                .collect();
            wrap_optimal_fit(&frags, &[width as f64], &Penalties::default())
                .ok()
                .map(|pieces| pieces.iter().map(|p| p.len()).collect())
        })
        .collect();
    blocks.write_styled_lines(width, &wraps)
}

/// This test is used to quickly test text wrapping.
#[test]
fn parse_markdown_dbg() {
    let doc = r#"
"#;
    let mut blocks = parse(doc).unwrap();
    let lines = styled_at(&mut blocks, 70);
    assert!(lines.is_empty());
}

#[test]
fn parse_markdown_intra_code() {
    let doc = "A `code` in a line.";
    let blocks = parse(doc).unwrap();
    assert_eq!(blocks.to_string(), "A `code` in a line.\n\n");
    let words = all_texts(&blocks.blocks[0]);
    // the space after the code starts a word of its own, empty but for that space
    assert_eq!(words, vec!["A", "`", "code", "`", "", "in", "a", "line."]);
}

#[test]
fn segments_are_never_empty() {
    let text = "a  wrapped_text with (brackets)  ";
    let pieces = segment_str(text);
    assert!(pieces.len() > 1);
    assert!(pieces.iter().all(|p| !p.is_empty()));
    assert_eq!(pieces.concat(), text);
    assert!(segment_str("").is_empty());
}

#[test]
fn heading_words_mark_their_columns() {
    let word = |w: &str, tag: MetaTag, ws: bool| Word { word: w.to_string(), style: Style::new(), tag, trailling_whitespace: ws };
    let words = vec![
        word("", MetaTag::Normal, false),
        word("Intro", MetaTag::Heading(0), true),
        word("to", MetaTag::Normal, true),
        word("it", MetaTag::Heading(0), false),
    ];
    let mut regions = term_rustdoc::ui::markdown::region::LinkedRegions::new();
    let line = Word::words_to_line(&words, 4, &mut regions);
    assert_eq!(line.width, 11);
    let headings = regions.take_headings();
    assert_eq!(headings.len(), 1);
    assert_eq!(headings[0].0, 0);
    let targets = headings[0].1.targets();
    assert_eq!(targets.len(), 1);
    // "Intro " takes columns 0..6, "it" 9..11: merged on the same row
    assert_eq!((targets[0].row_start, targets[0].row_end, targets[0].col_start, targets[0].col_end), (4, 4, 0, 11));
}

#[test]
fn fence_is_lowered_in_place() {
    let mut fence = String::from("RuSt");
    let block = term_rustdoc::ui::markdown::parse::code_block::parse(&mut fence, "let a = 1;");
    assert_eq!(fence, "rust");
    assert_eq!(block.lines.len(), 1);
    let mut other = String::from("TOML");
    let _ = term_rustdoc::ui::markdown::parse::code_block::parse(&mut other, "a = 1");
    assert_eq!(other, "toml");
}

#[test]
fn heading_regions_follow_the_written_rows() {
    let mut blocks = parse("para\n\n# Title here").unwrap();
    let to_wrap = blocks.lines_to_wrap();
    assert_eq!(to_wrap.len(), 2);
    let n = to_wrap[1].len();
    // the heading on one row: "para", an empty row, then the heading on row 2
    let wraps = vec![Some(vec![to_wrap[0].len()]), Some(vec![n])];
    let lines = blocks.write_styled_lines(80, &wraps);
    let r = blocks.links.heading[0].2;
    assert_eq!((r.row_start, r.row_end, r.col_start, r.col_end), (2, 2, 0, lines[2].width));
    // the heading cut in two pieces: its region spans both rows
    let wraps = vec![Some(vec![to_wrap[0].len()]), Some(vec![1, n - 1])];
    let lines = blocks.write_styled_lines(80, &wraps);
    let r = blocks.links.heading[0].2;
    assert_eq!((r.row_start, r.row_end, r.col_start, r.col_end), (2, 3, 0, lines[3].width));
}
