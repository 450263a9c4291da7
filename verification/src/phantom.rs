//! A single virtual-text insertion anchored at a point of an origin line.

use vstd::prelude::*;

verus! {

/// Which side of a position the cursor should stick to.
#[derive(Clone, Copy, Debug, PartialEq, Eq)]
pub enum CursorAffinity {
    Forward,
    Backward,
}

/// A plain RGBA colour carried along with virtual text for styling.
#[derive(Clone, Copy, Debug, PartialEq, Eq)]
pub struct Color {
    pub r: u8,
    pub g: u8,
    pub b: u8,
    pub a: u8,
}

/// The kind of a virtual-text insertion.
///
/// The declaration order doubles as the stacking priority when several
/// insertions land on the same column: input-method text renders first,
/// fold placeholders last.
#[derive(Clone, Copy, Debug, PartialEq, Eq)]
pub enum PhantomTextKind {
    /// Input-method preedit text.
    Ime,
    Placeholder,
    /// Completion lens / inline completion.
    Completion,
    /// Inlay hints, such as type annotations.
    InlayHint,
    /// Error lens diagnostics.
    Diagnostic,
    /// An in-line fold: `len` origin columns are hidden and replaced by the
    /// span's text; `next_line` names the origin line where rendering
    /// resumes when the fold swallows the rest of this line.
    LineFoldedRang { next_line: Option<usize>, len: usize },
}

/// Stacking priority of a kind; lower ranks sort first among spans that
/// share a merge column.
pub open spec fn kind_rank(kind: PhantomTextKind) -> int {
    match kind {
        PhantomTextKind::Ime => 0,
        PhantomTextKind::Placeholder => 1,
        PhantomTextKind::Completion => 2,
        PhantomTextKind::InlayHint => 3,
        PhantomTextKind::Diagnostic => 4,
        PhantomTextKind::LineFoldedRang { .. } => 5,
    }
}

/// Virtual text to be rendered at a point of an origin line even though it
/// is not part of the document.
#[derive(Debug, PartialEq, Eq)]
pub struct PhantomText {
    /// Kind, also the sorting tie-break for co-located spans.
    pub kind: PhantomTextKind,
    /// Origin line the span belongs to.
    pub line: usize,
    /// Column within that origin line.
    pub col: usize,
    /// Column within the merged (multi-line, pre-phantom) text.
    pub merge_col: usize,
    /// Column within the final rendered text; computed during annotation.
    pub final_col: usize,
    /// Cursor affinity hint for the span.
    pub affinity: Option<CursorAffinity>,
    /// The text to render; may be empty, e.g. for a fold that only hides
    /// characters.
    pub text: String,
    /// Optional font-size override.
    pub font_size: Option<usize>,
    /// Optional foreground colour.
    pub fg: Option<Color>,
    /// Optional background colour.
    pub bg: Option<Color>,
    /// Optional underline colour.
    pub under_line: Option<Color>,
}

impl Clone for PhantomText {
    fn clone(&self) -> (r: Self)
        ensures
            r == *self,
    {
        PhantomText {
            kind: self.kind,
            line: self.line,
            col: self.col,
            merge_col: self.merge_col,
            final_col: self.final_col,
            affinity: self.affinity,
            text: self.text.clone(),
            font_size: self.font_size,
            fg: self.fg,
            bg: self.bg,
            under_line: self.under_line,
        }
    }
}

/// Number of origin columns the span hides: the folded length for a fold,
/// zero for every other kind.
pub open spec fn folded_len(p: PhantomText) -> int {
    match p.kind {
        PhantomTextKind::LineFoldedRang { len, .. } => len as int,
        _ => 0,
    }
}

/// Number of final columns the span occupies: the length of its text.
pub open spec fn text_len(p: PhantomText) -> int {
    p.text@.len() as int
}

/// The continuation line of a fold, if any.
pub open spec fn spec_next_line(p: PhantomText) -> Option<usize> {
    match p.kind {
        PhantomTextKind::LineFoldedRang { next_line, .. } => next_line,
        _ => None,
    }
}

/// First final column after the span's rendered text.
pub open spec fn spec_next_final_col(p: PhantomText) -> int {
    p.final_col + text_len(p)
}

/// First origin column after the columns the span hides.
pub open spec fn spec_next_origin_col(p: PhantomText) -> int {
    p.col + folded_len(p)
}

/// First merge column after the columns the span hides.
pub open spec fn spec_next_merge_col(p: PhantomText) -> int {
    p.merge_col + folded_len(p)
}

impl PhantomText {
    /// The origin line where rendering resumes after this span, when the
    /// span is a fold that swallows the rest of its line.
    pub fn next_line(&self) -> (r: Option<usize>)
        ensures
            r == spec_next_line(*self),
    {
        if let PhantomTextKind::LineFoldedRang { next_line, .. } = self.kind {
            next_line
        } else {
            None
        }
    }

    /// Inclusive range `[start, end]` of final columns covered by the
    /// span's text, or `None` when the text is empty.
    pub fn final_col_range(&self) -> (r: Option<(usize, usize)>)
        requires
            self.final_col + text_len(*self) <= usize::MAX,
        ensures
            text_len(*self) == 0 ==> r is None,
            text_len(*self) > 0 ==> r == Some(
                (self.final_col, (self.final_col + text_len(*self) - 1) as usize),
            ),
    {
        if self.text.as_str().is_empty() {
            None
        } else {
            let len = self.text.unicode_len();
            Some((self.final_col, self.final_col + len - 1))
        }
    }

    /// First final column after the span's rendered text.
    pub fn next_final_col(&self) -> (r: usize)
        requires
            self.final_col + text_len(*self) <= usize::MAX,
        ensures
            r == spec_next_final_col(*self),
    {
        self.final_col + self.text.unicode_len()
    }

    /// First origin column after the columns the span hides.
    pub fn next_origin_col(&self) -> (r: usize)
        requires
            self.col + folded_len(*self) <= usize::MAX,
        ensures
            r == spec_next_origin_col(*self),
    {
        if let PhantomTextKind::LineFoldedRang { len, .. } = self.kind {
            self.col + len
        } else {
            self.col
        }
    }

    /// First merge column after the columns the span hides.
    pub fn next_merge_col(&self) -> (r: usize)
        requires
            self.merge_col + folded_len(*self) <= usize::MAX,
        ensures
            r == spec_next_merge_col(*self),
    {
        if let PhantomTextKind::LineFoldedRang { len, .. } = self.kind {
            self.merge_col + len
        } else {
            self.merge_col
        }
    }

    /// Stacking priority of this span's kind.
    pub fn rank(&self) -> (r: u8)
        ensures
            r as int == kind_rank(self.kind),
    {
        match self.kind {
            PhantomTextKind::Ime => 0,
            PhantomTextKind::Placeholder => 1,
            PhantomTextKind::Completion => 2,
            PhantomTextKind::InlayHint => 3,
            PhantomTextKind::Diagnostic => 4,
            PhantomTextKind::LineFoldedRang { .. } => 5,
        }
    }
}

} // verus!
