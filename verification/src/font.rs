use vstd::prelude::*;

use unicode_normalization::UnicodeNormalization;

verus! {

/// Along which directions a string is centered on its anchor point.
pub struct Centered {
    horz: bool,
    vert: bool,
}

impl View for Centered {
    /// (centered horizontally, centered vertically)
    type V = (bool, bool);

    closed spec fn view(&self) -> (bool, bool) {
        (self.horz, self.vert)
    }
}

impl Centered {
    /// Anchored at the start of the text, in both directions.
    pub fn none() -> (r: Centered)
        ensures
            r@ == (false, false),
    {
        Centered { horz: false, vert: false }
    }

    /// Centered horizontally only.
    pub fn horz() -> (r: Centered)
        ensures
            r@ == (true, false),
    {
        Centered { horz: true, vert: false }
    }

    /// Centered vertically only.
    pub fn vert() -> (r: Centered)
        ensures
            r@ == (false, true),
    {
        Centered { horz: false, vert: true }
    }

    /// Centered in both directions.
    pub fn both() -> (r: Centered)
        ensures
            r@ == (true, true),
    {
        Centered { horz: true, vert: true }
    }

    /// Whether the text is centered horizontally.
    pub fn is_horz(&self) -> (r: bool)
        ensures
            r == self@.0,
    {
        self.horz
    }

    /// Whether the text is centered vertically.
    pub fn is_vert(&self) -> (r: bool)
        ensures
            r == self@.1,
    {
        self.vert
    }
}

/// What the layout of a paragraph places, in order: a glyph for a printable character, or a
/// break to the start of the next line.
#[derive(Debug, Clone, Copy, PartialEq, Eq, Structural)]
pub enum ParagraphItem {
    Glyph(char),
    LineBreak,
}

/// A control character: a code point of Unicode general category Cc.
pub open spec fn is_control_code(c: char) -> bool {
    c <= '\u{1f}' || ('\u{7f}' <= c && c <= '\u{9f}')
}

/// The item laid out for one character: a glyph for a printable character, a line break for
/// `'\n'`, nothing for any other control character (such as `'\r'`).
pub open spec fn item_of(c: char) -> Option<ParagraphItem> {
    if is_control_code(c) {
        if c == '\n' {
            Some(ParagraphItem::LineBreak)
        } else {
            None
        }
    } else {
        Some(ParagraphItem::Glyph(c))
    }
}

/// The items laid out for the characters `chars`, one character after the other.
pub open spec fn paragraph_items_of(chars: Seq<char>) -> Seq<ParagraphItem>
    decreases chars.len(),
{
    if chars.len() == 0 {
        seq![]
    } else {
        match item_of(chars.last()) {
            Some(item) => paragraph_items_of(chars.drop_last()).push(item),
            None => paragraph_items_of(chars.drop_last()),
        }
    }
}

/// The characters of `text` in Unicode Normalization Form C, as computed by the
/// `unicode-normalization` crate.
pub uninterp spec fn nfc_chars(text: Seq<char>) -> Seq<char>;

/// Calls `UnicodeNormalization::nfc` of the `unicode-normalization` crate on `text` and
/// collects the characters. Claimed: the result is `nfc_chars` of the text; nothing more is
/// stated of it.
#[verifier::external_body]
fn nfc(text: &str) -> (r: Vec<char>)
    ensures
        r@ == nfc_chars(text@),
{
    text.nfc().collect()
}

/// Calls `char::is_control` of std. Claimed, as its documentation says: true exactly for the
/// characters of general category Cc, which are U+0000 to U+001F and U+007F to U+009F.
#[verifier::external_body]
fn is_control(c: char) -> (r: bool)
    ensures
        r == is_control_code(c),
{
    c.is_control()
}

/// The items of a paragraph made of the characters `chars` (see `paragraph_items_of`).
pub fn paragraph_items(chars: &Vec<char>) -> (r: Vec<ParagraphItem>)
    ensures
        r@ == paragraph_items_of(chars@),
{
    let mut r: Vec<ParagraphItem> = Vec::new();
    let n = chars.len();
    let mut i: usize = 0;
    while i < n
        invariant
            n == chars@.len(),
            i <= n,
            r@ == paragraph_items_of(chars@.take(i as int)),
        decreases n - i,
    {
        let c = chars[i];
        proof {
            assert(chars@.take(i + 1).drop_last() == chars@.take(i as int));
            assert(chars@.take(i + 1).last() == c);
        }
        if is_control(c) {
            if c == '\n' {
                r.push(ParagraphItem::LineBreak);
            }
        } else {
            r.push(ParagraphItem::Glyph(c));
        }
        i = i + 1;
    }
    proof {
        assert(chars@.take(n as int) == chars@);
    }
    r
}

/// The items of a paragraph of text: the text is put in Unicode Normalization Form C
/// first, so that a letter and its combining marks make one glyph.
pub fn text_items(text: &str) -> (r: Vec<ParagraphItem>)
    ensures
        r@ == paragraph_items_of(nfc_chars(text@)),
{
    let chars = nfc(text);
    paragraph_items(&chars)
}

/// No control character is laid out as a glyph, and the items follow the characters: there
/// are never more items than characters.
pub proof fn lemma_no_control_glyphs(chars: Seq<char>)
    ensures
        paragraph_items_of(chars).len() <= chars.len(),
        forall|k: int|
            0 <= k < paragraph_items_of(chars).len() ==> (#[trigger] paragraph_items_of(
                chars,
            )[k] matches ParagraphItem::Glyph(c) ==> !is_control_code(c)),
    decreases chars.len(),
{
    if chars.len() > 0 {
        let prev = paragraph_items_of(chars.drop_last());
        let items = paragraph_items_of(chars);
        lemma_no_control_glyphs(chars.drop_last());
        assert forall|k: int| 0 <= k < items.len() implies (#[trigger] items[k] matches ParagraphItem::Glyph(
            g,
        ) ==> !is_control_code(g)) by {
            if k < prev.len() {
                assert(items[k] == prev[k]);
            }
        }
    }
}

/// The control characters are the code points U+0000 to U+001F and U+007F to U+009F.
pub proof fn lemma_control_codes(c: char)
    ensures
        is_control_code(c) <==> ((c as u32) < 0x20 || (0x7f <= (c as u32) && (c as u32) < 0xa0)),
{
}

/// The items follow the characters: the glyphs are the characters that are not control
/// characters, in order, and there is one line break for each `'\n'`; nothing else is laid
/// out.
pub proof fn lemma_paragraph_items_follow_chars(chars: Seq<char>)
    ensures
        ({
            let glyphs = paragraph_items_of(chars).filter(|it: ParagraphItem| it is Glyph);
            let printable = chars.filter(|c: char| !is_control_code(c));
            &&& glyphs.len() == printable.len()
            &&& forall|k: int|
                0 <= k < glyphs.len() ==> (#[trigger] glyphs[k] matches ParagraphItem::Glyph(g)
                    && g == printable[k])
        }),
        paragraph_items_of(chars).filter(|it: ParagraphItem| it is LineBreak).len() == chars.filter(
            |c: char| c == '\n',
        ).len(),
        paragraph_items_of(chars).filter(|it: ParagraphItem| it is Glyph).len() + paragraph_items_of(
            chars,
        ).filter(|it: ParagraphItem| it is LineBreak).len() == paragraph_items_of(chars).len(),
    decreases chars.len(),
{
    reveal(Seq::filter);
    if chars.len() > 0 {
        let init = chars.drop_last();
        let c = chars.last();
        lemma_paragraph_items_follow_chars(init);
        let prev = paragraph_items_of(init);
        let items = paragraph_items_of(chars);
        let is_glyph = |it: ParagraphItem| it is Glyph;
        let printable = |ch: char| !is_control_code(ch);
        match item_of(c) {
            Some(item) => {
                assert(items == prev.push(item));
                assert(items.drop_last() == prev);
                if item is Glyph {
                    assert(items.filter(is_glyph) == prev.filter(is_glyph).push(item));
                    assert(chars.filter(printable) == init.filter(printable).push(c));
                    assert forall|k: int| 0 <= k < items.filter(is_glyph).len() implies (
                    #[trigger] items.filter(is_glyph)[k] matches ParagraphItem::Glyph(g) && g
                        == chars.filter(printable)[k]) by {
                        if k < prev.filter(is_glyph).len() {
                            assert(items.filter(is_glyph)[k] == prev.filter(is_glyph)[k]);
                            assert(chars.filter(printable)[k] == init.filter(printable)[k]);
                        }
                    }
                }
            },
            None => {
                assert(items == prev);
            },
        }
    }
}

/// The corners, in drawing order, of the two triangles that cover the rectangle from `min`
/// to `max` (each a pair of coordinates): the first triangle runs from the corner at
/// (min x, max y) down to (min x, min y) and across to (max x, min y); the second from there
/// up to (max x, max y) and back to the first corner.
pub fn quad_corners<T: Copy>(min: (T, T), max: (T, T)) -> (r: Vec<(T, T)>)
    ensures
        r@ == seq![
            (min.0, max.1),
            (min.0, min.1),
            (max.0, min.1),
            (max.0, min.1),
            (max.0, max.1),
            (min.0, max.1),
        ],
{
    let mut r: Vec<(T, T)> = Vec::new();
    r.push((min.0, max.1));
    r.push((min.0, min.1));
    r.push((max.0, min.1));
    r.push((max.0, min.1));
    r.push((max.0, max.1));
    r.push((min.0, max.1));
    r
}

} // verus!
