use shui::font::{paragraph_items, quad_corners, text_items, Centered, ParagraphItem};
use shui::font_file::{font_data_is_readable, parse_font};

#[test]
fn centered_constructors() {
    let c = Centered::none();
    assert!(!c.is_horz() && !c.is_vert());
    let c = Centered::horz();
    assert!(c.is_horz() && !c.is_vert());
    let c = Centered::vert();
    assert!(!c.is_horz() && c.is_vert());
    let c = Centered::both();
    assert!(c.is_horz() && c.is_vert());
}

#[test]
fn paragraph_items_break_lines_and_skip_other_controls() {
    let chars: Vec<char> = "ab\r\ncd\t".chars().collect();
    assert_eq!(
        paragraph_items(&chars),
        vec![
            ParagraphItem::Glyph('a'),
            ParagraphItem::Glyph('b'),
            ParagraphItem::LineBreak,
            ParagraphItem::Glyph('c'),
            ParagraphItem::Glyph('d'),
        ]
    );
}

#[test]
fn paragraph_items_skip_c1_controls() {
    let chars = vec!['x', '\u{85}', '\u{7f}', 'y', '\u{a0}'];
    assert_eq!(
        paragraph_items(&chars),
        vec![ParagraphItem::Glyph('x'), ParagraphItem::Glyph('y'), ParagraphItem::Glyph('\u{a0}')]
    );
}

#[test]
fn text_items_compose_combining_marks() {
    // 'e' followed by a combining acute accent is one glyph once normalized.
    assert_eq!(text_items("e\u{301}"), vec![ParagraphItem::Glyph('\u{e9}')]);
    assert_eq!(
        text_items("A\u{30a}\nb"),
        vec![ParagraphItem::Glyph('\u{c5}'), ParagraphItem::LineBreak, ParagraphItem::Glyph('b')]
    );
}

#[test]
fn text_items_of_empty_text() {
    assert!(text_items("").is_empty());
    assert_eq!(text_items("\n\n"), vec![ParagraphItem::LineBreak, ParagraphItem::LineBreak]);
}

#[test]
fn quad_corners_two_triangles() {
    let r = quad_corners((0, 1), (2, 3));
    assert_eq!(r, vec![(0, 3), (0, 1), (2, 1), (2, 1), (2, 3), (0, 3)]);
}

#[test]
fn parse_font_rejects_non_fonts() {
    assert!(font_data_is_readable(&Vec::new()));
    assert!(parse_font(Vec::new()).is_none());
    assert!(font_data_is_readable(&b"not a font at all".to_vec()));
    assert!(parse_font(b"not a font at all".to_vec()).is_none());
    assert!(parse_font(b"ttcf".to_vec()).is_none());
}

#[test]
fn font_with_signature_but_no_tables() {
    // A font signature followed by an empty table directory: readable, but no font.
    let bytes = vec![0, 1, 0, 0, 0, 0];
    assert!(font_data_is_readable(&bytes));
    assert!(parse_font(bytes).is_none());
}

#[test]
fn truncated_font_data_is_not_readable() {
    // A font signature and nothing else: the parser would read the table count past the end.
    assert!(!font_data_is_readable(&vec![0, 1, 0, 0]));
    assert!(!font_data_is_readable(&b"OTTO\x00".to_vec()));
    // One table entry announced but absent.
    assert!(!font_data_is_readable(&vec![0, 1, 0, 0, 0, 1, 0, 0, 0, 0, 0, 0]));
    // A cmap entry whose offset lies past the end (the other required tables point at 1).
    let mut d = vec![0, 1, 0, 0, 0, 6, 0, 0, 0, 0, 0, 0];
    for (tag, off) in [(b"cmap", 200u32), (b"loca", 1), (b"head", 1), (b"glyf", 1), (b"hhea", 1), (b"hmtx", 1)] {
        d.extend_from_slice(tag);
        d.extend_from_slice(&[0, 0, 0, 0]);
        d.extend_from_slice(&off.to_be_bytes());
        d.extend_from_slice(&[0, 0, 0, 0]);
    }
    assert!(!font_data_is_readable(&d));
}
