//! Data produced by the document engine: extracted page text with character
//! geometry, the bookmark outline, and the engine's error taxonomy.
//!
//! The engine itself (opening a file, rasterizing a page, extracting its
//! characters) is an external collaborator; this module only models the plain
//! values that cross that boundary.  Coordinates follow the fixed-point
//! convention of [`crate::geometry`]: `i64` thousandths of a document point.

use vstd::prelude::*;
use crate::geometry::coord_ok;

verus! {

/// One glyph on a page.  `x` is the left edge and `y` the *bottom* edge in
/// document-point space (y grows upward); `width` and `height` span the
/// glyph's loose bounding box.  All in milli-points.
#[derive(Clone, Copy, PartialEq, Eq, Structural, Debug)]
pub struct TextChar {
    pub ch: char,
    pub x: i64,
    pub y: i64,
    pub width: i64,
    pub height: i64,
    pub font_size: i64,
}

impl TextChar {
    /// Every coordinate of the glyph is within the accepted magnitude.
    pub open spec fn wf(self) -> bool {
        coord_ok(self.x as int) && coord_ok(self.y as int) && coord_ok(self.width as int)
            && coord_ok(self.height as int)
    }
}

/// Mathematical model of a page's extracted text.
pub ghost struct PageTextView {
    pub text: Seq<char>,
    pub chars: Seq<TextChar>,
}

/// Text content extracted from one page: the characters with their geometry,
/// in the order the extraction source reported them, plus the concatenated
/// raw text (informational only; the selection logic works from `chars`).
#[derive(Debug)]
pub struct PageText {
    pub text: String,
    pub chars: Vec<TextChar>,
}

impl View for PageText {
    type V = PageTextView;

    open spec fn view(&self) -> PageTextView {
        PageTextView { text: self.text@, chars: self.chars@ }
    }
}

/// Every character of the page is within the accepted coordinate magnitude.
pub open spec fn page_chars_wf(chars: Seq<TextChar>) -> bool {
    forall|i: int| 0 <= i < chars.len() ==> (#[trigger] chars[i]).wf()
}

impl PageText {
    /// Whether every character's coordinates are within the accepted
    /// magnitude, so the selection engine may run on this page.
    pub fn coords_ok(&self) -> (r: bool)
        ensures
            r == page_chars_wf(self@.chars),
    {
        let mut i: usize = 0;
        while i < self.chars.len()
            invariant
                i <= self.chars@.len(),
                forall|j: int| 0 <= j < i ==> (#[trigger] self.chars@[j]).wf(),
            decreases self.chars@.len() - i,
        {
            let c = self.chars[i];
            if !(-crate::geometry::COORD_LIMIT <= c.x && c.x <= crate::geometry::COORD_LIMIT
                && -crate::geometry::COORD_LIMIT <= c.y && c.y <= crate::geometry::COORD_LIMIT
                && -crate::geometry::COORD_LIMIT <= c.width && c.width <= crate::geometry::COORD_LIMIT
                && -crate::geometry::COORD_LIMIT <= c.height && c.height <= crate::geometry::COORD_LIMIT) {
                return false;
            }
            i += 1;
        }
        true
    }
}

impl Clone for PageText {
    /// The copy carries the same text and the same character sequence.
    fn clone(&self) -> (r: Self)
        ensures
            r@ == self@,
    {
        PageText { text: self.text.clone(), chars: self.chars.clone() }
    }
}

/// One entry of the document's bookmark outline.  The outline tree is kept
/// flattened in pre-order: `depth` is the entry's nesting level, so an entry
/// is an ancestor of the entries after it whose depth is greater.
#[derive(Debug)]
pub struct OutlineItem {
    pub title: String,
    pub page: usize,
    pub depth: usize,
}

impl Clone for OutlineItem {
    /// The copy equals the original.
    fn clone(&self) -> (r: Self)
        ensures
            r == *self,
    {
        OutlineItem { title: self.title.clone(), page: self.page, depth: self.depth }
    }
}

/// What can go wrong in the document engine.
#[derive(Debug)]
pub enum PdfError {
    /// The file could not be opened; the payload describes why.
    OpenError(String),
    /// A page could not be rasterized or its text extracted.
    RenderError(String),
    /// A page index at or past the document's page count.
    InvalidPage(usize),
    /// The document demands a password.
    PasswordProtected,
}

} // verus!
